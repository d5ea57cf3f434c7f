use vstd::prelude::*;
use crate::model::{
    BOARD_SIZE, MAX_STONES, NUM_PITS, P1_STORE, P2_STORE, after_move, capture, is_finished,
    is_own_pit, landing, lemma_after_move, lemma_capture, lemma_landing, lemma_sow,
    lemma_sow_bounded, lemma_sum_bounds, lemma_sum_split, lemma_total_by_sides, p1_side,
    p2_side, sow, sown_and_captured, sum, swept, valid_counts, valid_player,
};

verus! {

/// The board: every pit and both stores, and whose turn it is.
pub struct Board {
    pub pits: [i8; BOARD_SIZE],
    pub active_player: u8,
}

/// A player: a display name and the index of that player's store.
pub struct Player {
    pub name: String,
    pub mancala_index: usize,
}

/// Who won a finished game: the player with the fuller store, or neither.
#[derive(PartialEq, Eq, Structural, Debug, Clone, Copy)]
pub enum Winner {
    Player1,
    Player2,
    Tie,
}

/// Whether the game goes on; once over, it stays over.
#[derive(PartialEq, Eq, Structural, Debug, Clone, Copy)]
pub enum GameStatus {
    InProgress,
    GameOver(Winner),
}

/// The whole game: the board, both players and the status.
pub struct GameState {
    pub board: Board,
    pub player1: Player,
    pub player2: Player,
    pub status: GameStatus,
}

/// Why a move was refused; the game state is left as it was.
#[derive(PartialEq, Eq, Structural, Debug, Clone, Copy)]
pub enum MoveError {
    /// The index is not one of the active player's pits.
    NotOwnPit,
    /// The chosen pit holds no stone.
    EmptyPit,
}

/// The counters of a board as integers.
pub open spec fn counts(pits: [i8; BOARD_SIZE]) -> Seq<int> {
    Seq::new(BOARD_SIZE as nat, |j: int| pits[j] as int)
}

/// The status a board ends in once the sweep has run.
pub open spec fn status_of(s: Seq<int>) -> GameStatus {
    if !is_finished(s) {
        GameStatus::InProgress
    } else {
        let f = swept(s);
        if f[P1_STORE as int] > f[P2_STORE as int] {
            GameStatus::GameOver(Winner::Player1)
        } else if f[P1_STORE as int] < f[P2_STORE as int] {
            GameStatus::GameOver(Winner::Player2)
        } else {
            GameStatus::GameOver(Winner::Tie)
        }
    }
}

/// The starting layout: `seed` stones in every pit, both stores empty.
pub open spec fn initial_counts(seed: int) -> Seq<int> {
    Seq::new(
        BOARD_SIZE as nat,
        |j: int|
            if j == P1_STORE || j == P2_STORE {
                0
            } else {
                seed
            },
    )
}

impl Board {
    pub open spec fn view(&self) -> Seq<int> {
        counts(self.pits)
    }

    pub open spec fn wf(&self) -> bool {
        valid_counts(self@) && valid_player(self.active_player as int)
    }
}

impl GameState {
    pub open spec fn wf(&self) -> bool {
        &&& self.board.wf()
        &&& self.player1.mancala_index == P1_STORE
        &&& self.player2.mancala_index == P2_STORE
    }
}

impl Default for Board {
    fn default() -> (r: Board)
        ensures
            r@ == initial_counts(6),
            r.active_player == 1,
    {
        init_board(6)
    }
}

impl Default for GameStatus {
    fn default() -> (r: GameStatus)
        ensures
            r == GameStatus::InProgress,
    {
        GameStatus::InProgress
    }
}

impl Default for GameState {
    fn default() -> (r: GameState)
        ensures
            r.wf(),
            r.board@ == initial_counts(6),
            r.board.active_player == 1,
            r.status == GameStatus::InProgress,
    {
        let r = GameState {
            player1: Player { name: String::from_str("Player 1"), mancala_index: P1_STORE },
            player2: Player { name: String::from_str("Player 2"), mancala_index: P2_STORE },
            status: GameStatus::InProgress,
            board: Board::default(),
        };
        proof {
            reveal_with_fuel(sum, 13);
        }
        r
    }
}

/// A fresh board: `numRocks` stones in every pit, empty stores, player 1
/// to move.
pub fn init_board(numRocks: i8) -> (r: Board)
    requires
        numRocks >= 0,
    ensures
        r@ == initial_counts(numRocks as int),
        r.active_player == 1,
{
    let n = numRocks;
    let r = Board { pits: [n, n, n, n, n, 0, n, n, n, n, n, 0], active_player: 1 };
    assert(r@ =~= initial_counts(numRocks as int));
    r
}

/// The sweep of player 1's pits, done for the pits before `i`.
spec fn p1_swept_up_to(s: Seq<int>, i: int) -> Seq<int> {
    Seq::new(
        BOARD_SIZE as nat,
        |j: int|
            if j < i {
                0
            } else if j == P1_STORE {
                s[j] + sum(s, 0, i)
            } else {
                s[j]
            },
    )
}

/// Player 1's side swept, and player 2's pits swept before `i`.
spec fn p2_swept_up_to(s: Seq<int>, i: int) -> Seq<int> {
    Seq::new(
        BOARD_SIZE as nat,
        |j: int|
            if j < P1_STORE {
                0
            } else if j == P1_STORE {
                s[j] + p1_side(s)
            } else if j < i {
                0
            } else if j == P2_STORE {
                s[j] + sum(s, P1_STORE as int + 1, i)
            } else {
                s[j]
            },
    )
}

/// One turn of the game loop: the active player's move from `pit`, and on
/// success the turn passes to the other player. A refused move changes
/// nothing, and the same player is still to move.
pub fn play_turn(game_state: &mut GameState, pit: usize) -> (r: Result<(), MoveError>)
    requires
        old(game_state).wf(),
    ensures
        final(game_state).wf(),
        ({
            let s = old(game_state).board@;
            let player = old(game_state).board.active_player as int;
            if !is_own_pit(player, pit as int) {
                r == Err::<(), MoveError>(MoveError::NotOwnPit) && *final(game_state) == *old(
                    game_state,
                )
            } else if s[pit as int] == 0 {
                r == Err::<(), MoveError>(MoveError::EmptyPit) && *final(game_state) == *old(
                    game_state,
                )
            } else {
                &&& r == Ok::<(), MoveError>(())
                &&& final(game_state).board@ == after_move(s, player, pit as int)
                &&& final(game_state).status == status_of(sown_and_captured(s, player, pit as int))
                &&& final(game_state).board.active_player == 3 - player
            }
        }),
{
    let r = moveRocks(game_state, pit);
    if r.is_ok() {
        game_state.board.active_player = 3 - game_state.board.active_player;
    }
    r
}

/// Sows the stones of pit `pitI` for the active player: the pit is emptied,
/// then one stone goes into each following slot, passing over the
/// opponent's store, with the capture rule and the status check after.
/// The turn does not pass here: the caller hands it over.
pub fn moveRocks(game_state: &mut GameState, pitI: usize) -> (r: Result<(), MoveError>)
    requires
        old(game_state).wf(),
    ensures
        final(game_state).wf(),
        ({
            let s = old(game_state).board@;
            let player = old(game_state).board.active_player as int;
            if !is_own_pit(player, pitI as int) {
                r == Err::<(), MoveError>(MoveError::NotOwnPit) && *final(game_state) == *old(
                    game_state,
                )
            } else if s[pitI as int] == 0 {
                r == Err::<(), MoveError>(MoveError::EmptyPit) && *final(game_state) == *old(
                    game_state,
                )
            } else {
                &&& r == Ok::<(), MoveError>(())
                &&& final(game_state).board@ == after_move(s, player, pitI as int)
                &&& final(game_state).status == status_of(sown_and_captured(s, player, pitI as int))
                &&& final(game_state).board.active_player == old(game_state).board.active_player
                &&& final(game_state).player1 == old(game_state).player1
                &&& final(game_state).player2 == old(game_state).player2
            }
        }),
{
    let player = game_state.board.active_player;
    let own = if player == 1 {
        pitI < P1_STORE
    } else {
        P1_STORE < pitI && pitI < P2_STORE
    };
    if !own {
        return Err(MoveError::NotOwnPit);
    }
    let k = game_state.board.pits[pitI];
    if k == 0 {
        return Err(MoveError::EmptyPit);
    }
    let ghost s = game_state.board@;
    let ghost start = pitI as int;
    game_state.board.pits[pitI] = 0;
    assert(game_state.board@ =~= sow(s, player as int, start, 0));
    let mut i: usize = pitI;
    let mut t: i8 = 0;
    while t < k
        invariant
            0 <= t <= k,
            k == s[start],
            0 <= start < BOARD_SIZE,
            valid_counts(s),
            valid_player(player as int),
            game_state.board.active_player == player,
            game_state.player1 == old(game_state).player1,
            game_state.player2 == old(game_state).player2,
            game_state.status == old(game_state).status,
            game_state.player1.mancala_index == P1_STORE,
            game_state.player2.mancala_index == P2_STORE,
            i == landing(player as int, start, t as nat),
            game_state.board@ == sow(s, player as int, start, t as nat),
        decreases k - t,
    {
        proof {
            lemma_landing(player as int, start, t as nat);
            lemma_sow_bounded(s, player as int, start, (t + 1) as nat);
        }
        i = (i + 1) % BOARD_SIZE;
        if i == game_state.player2.mancala_index && player == 1 {
            i = (i + 1) % BOARD_SIZE;
        } else if i == game_state.player1.mancala_index && player == 2 {
            i = (i + 1) % BOARD_SIZE;
        }
        assert(i == landing(player as int, start, (t + 1) as nat));
        assert(sow(s, player as int, start, (t + 1) as nat)[i as int] == game_state.board@[i as int]
            + 1);
        game_state.board.pits[i] = game_state.board.pits[i] + 1;
        t = t + 1;
        assert(game_state.board@ =~= sow(s, player as int, start, t as nat));
    }
    proof {
        lemma_after_move(s, player as int, start);
        lemma_landing(player as int, start, t as nat);
        lemma_sow(s, player as int, start, t as nat);
        lemma_sow_bounded(s, player as int, start, t as nat);
    }
    captures(game_state, i);
    game_state.status = checkStatus(&mut game_state.board);
    Ok(())
}

/// The capture rule, after the last stone landed in slot `lastI`: when it
/// fell into an empty pit of the active player, that stone and those of the
/// facing pit go to the active player's store. Otherwise nothing changes.
pub fn captures(game_state: &mut GameState, lastI: usize)
    requires
        old(game_state).wf(),
        lastI < BOARD_SIZE,
    ensures
        final(game_state).wf(),
        final(game_state).board@ == capture(
            old(game_state).board@,
            old(game_state).board.active_player as int,
            lastI as int,
        ),
        final(game_state).board.active_player == old(game_state).board.active_player,
        final(game_state).player1 == old(game_state).player1,
        final(game_state).player2 == old(game_state).player2,
        final(game_state).status == old(game_state).status,
{
    let ghost s = game_state.board@;
    let player = game_state.board.active_player;
    proof {
        lemma_capture(s, player as int, lastI as int);
        lemma_sum_bounds(capture(s, player as int, lastI as int), 0, BOARD_SIZE as int);
    }
    let store = if player == 1 {
        game_state.player1.mancala_index
    } else {
        game_state.player2.mancala_index
    };
    if game_state.board.pits[lastI] == 1 && lastI != game_state.player1.mancala_index
        && lastI != game_state.player2.mancala_index {
        if lastI < NUM_PITS && player == 1 || lastI > NUM_PITS && player == 2 {
            let opposite = 2 * NUM_PITS - lastI;
            let taken = game_state.board.pits[opposite];
            assert(capture(s, player as int, lastI as int)[store as int] == s[store as int]
                + taken + 1);
            game_state.board.pits[store] = game_state.board.pits[store] + taken + 1;
            game_state.board.pits[lastI] = 0;
            game_state.board.pits[opposite] = 0;
        }
    }
    assert(game_state.board@ =~= capture(s, player as int, lastI as int));
}

/// Ends the game when one side's pits are empty: each player's remaining pit
/// stones go to that player's own store, and the fuller store wins. A game
/// still going is left as it is.
pub fn checkStatus(board: &mut Board) -> (r: GameStatus)
    requires
        valid_counts(old(board)@),
    ensures
        final(board)@ == swept(old(board)@),
        final(board).active_player == old(board).active_player,
        r == status_of(old(board)@),
{
    let ghost s = board@;
    proof {
        lemma_total_by_sides(s);
        lemma_sum_bounds(s, 0, BOARD_SIZE as int);
        lemma_sum_bounds(s, 0, P1_STORE as int);
        lemma_sum_bounds(s, P1_STORE as int + 1, P2_STORE as int);
    }
    let mut p1_sum: i8 = 0;
    let mut i: usize = 0;
    while i < P1_STORE
        invariant
            i <= P1_STORE,
            board@ == s,
            valid_counts(s),
            p1_side(s) + s[P1_STORE as int] + p2_side(s) + s[P2_STORE as int] <= MAX_STONES,
            p1_sum == sum(s, 0, i as int),
        decreases P1_STORE - i,
    {
        proof {
            lemma_sum_split(s, 0, i + 1, P1_STORE as int);
            lemma_sum_bounds(s, i + 1, P1_STORE as int);
            lemma_sum_bounds(s, P1_STORE as int + 1, P2_STORE as int);
        }
        p1_sum = p1_sum + board.pits[i];
        i = i + 1;
    }
    let mut p2_sum: i8 = 0;
    i = P1_STORE + 1;
    while i < P2_STORE
        invariant
            P1_STORE < i <= P2_STORE,
            board@ == s,
            valid_counts(s),
            p1_side(s) + s[P1_STORE as int] + p2_side(s) + s[P2_STORE as int] <= MAX_STONES,
            p1_sum == p1_side(s),
            p2_sum == sum(s, P1_STORE as int + 1, i as int),
        decreases P2_STORE - i,
    {
        proof {
            lemma_sum_split(s, P1_STORE as int + 1, i + 1, P2_STORE as int);
            lemma_sum_bounds(s, i + 1, P2_STORE as int);
            lemma_sum_bounds(s, 0, P1_STORE as int);
        }
        p2_sum = p2_sum + board.pits[i];
        i = i + 1;
    }
    if p1_sum == 0 || p2_sum == 0 {
        i = 0;
        assert(board@ =~= p1_swept_up_to(s, 0));
        while i < P1_STORE
            invariant
                i <= P1_STORE,
                valid_counts(s),
                is_finished(s),
                p1_side(s) + s[P1_STORE as int] + p2_side(s) + s[P2_STORE as int] <= MAX_STONES,
                board.active_player == old(board).active_player,
                s == old(board)@,
                board@ == p1_swept_up_to(s, i as int),
            decreases P1_STORE - i,
        {
            proof {
                lemma_sum_split(s, 0, i + 1, P1_STORE as int);
                lemma_sum_bounds(s, i + 1, P1_STORE as int);
                lemma_sum_bounds(s, P1_STORE as int + 1, P2_STORE as int);
                assert(board@[P1_STORE as int] == s[P1_STORE as int] + sum(s, 0, i as int));
                assert(board@[i as int] == s[i as int]);
            }
            let ghost before = board@;
            board.pits[P1_STORE] = board.pits[P1_STORE] + board.pits[i];
            board.pits[i] = 0;
            assert forall|j: int| 0 <= j < BOARD_SIZE implies board@[j] == p1_swept_up_to(
                s,
                i + 1,
            )[j] by {
                if j != i && j != P1_STORE {
                    assert(board@[j] == before[j]);
                    assert(before[j] == p1_swept_up_to(s, i as int)[j]);
                }
            }
            assert(board@ =~= p1_swept_up_to(s, i + 1));
            i = i + 1;
        }
        assert(board@ =~= p2_swept_up_to(s, P1_STORE as int + 1));
        i = P1_STORE + 1;
        while i < P2_STORE
            invariant
                P1_STORE < i <= P2_STORE,
                valid_counts(s),
                is_finished(s),
                p1_side(s) + s[P1_STORE as int] + p2_side(s) + s[P2_STORE as int] <= MAX_STONES,
                board.active_player == old(board).active_player,
                s == old(board)@,
                board@ == p2_swept_up_to(s, i as int),
            decreases P2_STORE - i,
        {
            proof {
                lemma_sum_split(s, P1_STORE as int + 1, i + 1, P2_STORE as int);
                lemma_sum_bounds(s, i + 1, P2_STORE as int);
                lemma_sum_bounds(s, 0, P1_STORE as int);
                assert(board@[P2_STORE as int] == s[P2_STORE as int] + sum(
                    s,
                    P1_STORE as int + 1,
                    i as int,
                ));
                assert(board@[i as int] == s[i as int]);
            }
            let ghost before = board@;
            board.pits[P2_STORE] = board.pits[P2_STORE] + board.pits[i];
            board.pits[i] = 0;
            assert forall|j: int| 0 <= j < BOARD_SIZE implies board@[j] == p2_swept_up_to(
                s,
                i + 1,
            )[j] by {
                if j != i && j != P2_STORE {
                    assert(board@[j] == before[j]);
                    assert(before[j] == p2_swept_up_to(s, i as int)[j]);
                }
            }
            assert(board@ =~= p2_swept_up_to(s, i + 1));
            i = i + 1;
        }
        assert(board@ =~= swept(s));
        if board.pits[P1_STORE] > board.pits[P2_STORE] {
            GameStatus::GameOver(Winner::Player1)
        } else if board.pits[P1_STORE] < board.pits[P2_STORE] {
            GameStatus::GameOver(Winner::Player2)
        } else {
            GameStatus::GameOver(Winner::Tie)
        }
    } else {
        GameStatus::InProgress
    }
}

} // verus!
