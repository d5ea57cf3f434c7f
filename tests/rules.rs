use mancala::{
    captures, checkStatus, init_board, moveRocks, play_turn, Board, GameState, GameStatus,
    MoveError, Winner, BOARD_SIZE,
};

fn state_with(pits: [i8; BOARD_SIZE], active_player: u8) -> GameState {
    let mut state = GameState::default();
    state.board.pits = pits;
    state.board.active_player = active_player;
    state
}

fn total(pits: &[i8; BOARD_SIZE]) -> i32 {
    pits.iter().map(|&x| x as i32).sum()
}

#[test]
fn test_i0() {
    let mut state = GameState::default();
    assert_eq!(moveRocks(&mut state, 0), Ok(()));
    let exp: [i8; BOARD_SIZE] = [0, 7, 7, 7, 7, 1, 7, 6, 6, 6, 6, 0];
    assert_eq!(state.board.pits, exp, "no dice!");
}

#[test]
fn test_init() {
    let b = init_board(6);
    let exp: [i8; BOARD_SIZE] = [6, 6, 6, 6, 6, 0, 6, 6, 6, 6, 6, 0];
    assert_eq!(b.pits, exp, "bad board");
}

#[test]
fn init_board_seeds_pits_and_empties_stores() {
    let b = init_board(4);
    assert_eq!(b.pits, [4, 4, 4, 4, 4, 0, 4, 4, 4, 4, 4, 0]);
    assert_eq!(b.active_player, 1);
    let empty = init_board(0);
    assert_eq!(empty.pits, [0; BOARD_SIZE]);
}

#[test]
fn default_state() {
    let state = GameState::default();
    assert_eq!(state.board.pits, [6, 6, 6, 6, 6, 0, 6, 6, 6, 6, 6, 0]);
    assert_eq!(state.board.active_player, 1);
    assert_eq!(state.player1.mancala_index, 5);
    assert_eq!(state.player2.mancala_index, 11);
    assert_eq!(state.status, GameStatus::InProgress);
    assert_eq!(GameStatus::default(), GameStatus::InProgress);
    assert_eq!(Board::default().pits, init_board(6).pits);
}

#[test]
fn capture_takes_facing_pit_and_landing_stone() {
    let mut state = state_with([2, 0, 1, 0, 0, 0, 1, 3, 0, 0, 0, 0], 1);
    assert_eq!(moveRocks(&mut state, 2), Ok(()));
    assert_eq!(state.board.pits, [2, 0, 0, 0, 0, 4, 1, 0, 0, 0, 0, 0]);
    assert_eq!(state.status, GameStatus::InProgress);
}

#[test]
fn capture_for_player_two() {
    let mut state = state_with([1, 0, 5, 2, 0, 0, 1, 0, 0, 1, 0, 0], 2);
    assert_eq!(moveRocks(&mut state, 6), Ok(()));
    assert_eq!(state.board.pits, [1, 0, 5, 0, 0, 0, 0, 0, 0, 1, 0, 3]);
    assert_eq!(state.status, GameStatus::InProgress);
}

#[test]
fn no_capture_on_occupied_pit() {
    let mut state = state_with([2, 0, 1, 4, 0, 0, 1, 3, 0, 0, 0, 0], 1);
    assert_eq!(moveRocks(&mut state, 2), Ok(()));
    assert_eq!(state.board.pits, [2, 0, 0, 5, 0, 0, 1, 3, 0, 0, 0, 0]);
}

#[test]
fn no_capture_on_opponent_pit() {
    let mut state = state_with([1, 0, 0, 0, 2, 0, 0, 5, 0, 0, 3, 0], 1);
    assert_eq!(moveRocks(&mut state, 4), Ok(()));
    assert_eq!(state.board.pits, [1, 0, 0, 0, 0, 1, 1, 5, 0, 0, 3, 0]);
}

#[test]
fn captures_direct_call() {
    let mut state = state_with([1, 0, 0, 0, 0, 2, 0, 0, 0, 0, 6, 0], 1);
    captures(&mut state, 0);
    assert_eq!(state.board.pits, [0, 0, 0, 0, 0, 9, 0, 0, 0, 0, 0, 0]);
    let mut store = state_with([1, 0, 0, 0, 0, 1, 0, 0, 0, 0, 6, 0], 1);
    captures(&mut store, 5);
    assert_eq!(store.board.pits, [1, 0, 0, 0, 0, 1, 0, 0, 0, 0, 6, 0]);
}

#[test]
fn player_one_skips_opponent_store() {
    let mut pits = [6, 6, 6, 6, 6, 0, 6, 6, 6, 6, 6, 0];
    pits[4] = 8;
    let mut state = state_with(pits, 1);
    assert_eq!(moveRocks(&mut state, 4), Ok(()));
    assert_eq!(state.board.pits, [7, 7, 6, 6, 0, 1, 7, 7, 7, 7, 7, 0]);
}

#[test]
fn player_two_skips_opponent_store() {
    let mut pits = [6, 6, 6, 6, 6, 0, 6, 6, 6, 6, 6, 0];
    pits[10] = 8;
    let mut state = state_with(pits, 2);
    assert_eq!(moveRocks(&mut state, 10), Ok(()));
    assert_eq!(state.board.pits, [7, 7, 7, 7, 7, 0, 7, 7, 6, 6, 0, 1]);
}

#[test]
fn sowing_wraps_back_into_source_pit() {
    let mut pits = [6, 6, 6, 6, 6, 0, 6, 6, 6, 6, 6, 0];
    pits[0] = 12;
    let mut state = state_with(pits, 1);
    let before = total(&state.board.pits);
    assert_eq!(moveRocks(&mut state, 0), Ok(()));
    assert_eq!(state.board.pits, [1, 8, 7, 7, 7, 1, 7, 7, 7, 7, 7, 0]);
    assert_eq!(total(&state.board.pits), before);
}

#[test]
fn stones_are_conserved_over_a_game() {
    let mut state = GameState::default();
    let start = total(&state.board.pits);
    let mut turns: u32 = 0;
    while state.status == GameStatus::InProgress && turns < 500 {
        let base: usize = if state.board.active_player == 1 { 0 } else { 6 };
        let mut played = false;
        for k in 0..5 {
            let pit = base + (k + turns as usize) % 5;
            if state.board.pits[pit] > 0 {
                assert_eq!(play_turn(&mut state, pit), Ok(()));
                played = true;
                break;
            }
        }
        assert!(played);
        assert_eq!(total(&state.board.pits), start);
        assert!(state.board.pits.iter().all(|&x| x >= 0));
        turns += 1;
    }
}

#[test]
fn refused_moves_change_nothing() {
    let mut state = GameState::default();
    assert_eq!(moveRocks(&mut state, 5), Err(MoveError::NotOwnPit));
    assert_eq!(moveRocks(&mut state, 6), Err(MoveError::NotOwnPit));
    assert_eq!(moveRocks(&mut state, 12), Err(MoveError::NotOwnPit));
    state.board.pits[3] = 0;
    state.board.pits[5] = 6;
    assert_eq!(moveRocks(&mut state, 3), Err(MoveError::EmptyPit));
    assert_eq!(state.board.pits, [6, 6, 6, 0, 6, 6, 6, 6, 6, 6, 6, 0]);
    state.board.active_player = 2;
    assert_eq!(moveRocks(&mut state, 0), Err(MoveError::NotOwnPit));
    assert_eq!(moveRocks(&mut state, 11), Err(MoveError::NotOwnPit));
    assert_eq!(state.board.active_player, 2);
}

#[test]
fn play_turn_passes_the_turn() {
    let mut state = GameState::default();
    assert_eq!(play_turn(&mut state, 0), Ok(()));
    assert_eq!(state.board.active_player, 2);
    assert_eq!(play_turn(&mut state, 0), Err(MoveError::NotOwnPit));
    assert_eq!(state.board.active_player, 2);
    assert_eq!(play_turn(&mut state, 6), Ok(()));
    assert_eq!(state.board.active_player, 1);
    assert_eq!(state.board.pits, [1, 8, 7, 7, 7, 1, 0, 7, 7, 7, 7, 1]);
}

#[test]
fn end_game_sweep_player_two_wins() {
    let mut board = init_board(0);
    board.pits = [0, 0, 0, 0, 0, 10, 1, 2, 0, 0, 3, 5];
    assert_eq!(checkStatus(&mut board), GameStatus::GameOver(Winner::Player2));
    assert_eq!(board.pits, [0, 0, 0, 0, 0, 10, 0, 0, 0, 0, 0, 11]);
}

#[test]
fn end_game_sweep_player_one_wins() {
    let mut board = init_board(0);
    board.pits = [1, 0, 4, 0, 0, 7, 0, 0, 0, 0, 0, 9];
    board.active_player = 2;
    assert_eq!(checkStatus(&mut board), GameStatus::GameOver(Winner::Player1));
    assert_eq!(board.pits, [0, 0, 0, 0, 0, 12, 0, 0, 0, 0, 0, 9]);
    assert_eq!(board.active_player, 2);
}

#[test]
fn end_game_tie() {
    let mut board = init_board(0);
    board.pits = [0, 0, 0, 0, 0, 10, 1, 2, 0, 0, 3, 4];
    assert_eq!(checkStatus(&mut board), GameStatus::GameOver(Winner::Tie));
    assert_eq!(board.pits, [0, 0, 0, 0, 0, 10, 0, 0, 0, 0, 0, 10]);
}

#[test]
fn game_in_progress_is_left_alone() {
    let mut board = init_board(3);
    assert_eq!(checkStatus(&mut board), GameStatus::InProgress);
    assert_eq!(board.pits, [3, 3, 3, 3, 3, 0, 3, 3, 3, 3, 3, 0]);
}

#[test]
fn game_over_is_stable_on_recheck() {
    let mut board = init_board(0);
    board.pits = [0, 0, 0, 0, 0, 10, 1, 2, 0, 0, 3, 5];
    let first = checkStatus(&mut board);
    let after_first = board.pits;
    let second = checkStatus(&mut board);
    assert_eq!(first, second);
    assert_eq!(board.pits, after_first);
}

#[test]
fn last_move_ends_game_with_sweep() {
    let mut state = state_with([0, 0, 0, 0, 1, 3, 2, 0, 0, 0, 1, 4], 1);
    assert_eq!(moveRocks(&mut state, 4), Ok(()));
    assert_eq!(state.board.pits, [0, 0, 0, 0, 0, 4, 0, 0, 0, 0, 0, 7]);
    assert_eq!(state.status, GameStatus::GameOver(Winner::Player2));
    assert_eq!(moveRocks(&mut state, 0), Err(MoveError::EmptyPit));
}
