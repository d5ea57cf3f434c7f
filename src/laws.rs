use vstd::prelude::*;
use crate::game::{initial_counts, status_of};
use crate::model::{
    BOARD_SIZE, P1_STORE, P2_STORE, after_move, hits, is_finished, is_own_pit, landing,
    lemma_after_move, lemma_landing, lemma_sow, lemma_swept, opponent_store,
    p1_side, p2_side, sow, sum, swept, total, valid_counts, valid_player,
};

verus! {

/// No stone is made or lost: a fresh board holds ten times the seed, and
/// neither a move (sowing, capture and sweep) nor the end-of-game sweep on
/// its own changes the number of stones on the board.
pub proof fn conservation(seed: int, s: Seq<int>, player: int, pit: int)
    requires
        valid_counts(s),
        valid_player(player),
        is_own_pit(player, pit),
    ensures
        total(initial_counts(seed)) == 10 * seed,
        total(after_move(s, player, pit)) == total(s),
        total(swept(s)) == total(s),
{
    reveal_with_fuel(sum, 13);
    lemma_after_move(s, player, pit);
    lemma_swept(s);
}

/// No counter goes below zero: not on a fresh board, not after a move, not
/// after the end-of-game sweep.
pub proof fn no_negative_counts(seed: int, s: Seq<int>, player: int, pit: int)
    requires
        seed >= 0,
        valid_counts(s),
        valid_player(player),
        is_own_pit(player, pit),
    ensures
        forall|j: int| 0 <= j < BOARD_SIZE ==> #[trigger] initial_counts(seed)[j] >= 0,
        forall|j: int| 0 <= j < BOARD_SIZE ==> #[trigger] after_move(s, player, pit)[j] >= 0,
        forall|j: int| 0 <= j < BOARD_SIZE ==> #[trigger] swept(s)[j] >= 0,
{
    lemma_after_move(s, player, pit);
    lemma_swept(s);
}

/// Sowing the `k` stones of a pit empties it and then puts exactly `k`
/// stones on the board, one slot forward at a time: each slot ends with what
/// it held (the source pit: nothing) plus the stones that landed in it.
pub proof fn sowing_count(s: Seq<int>, player: int, pit: int)
    requires
        valid_counts(s),
        valid_player(player),
        is_own_pit(player, pit),
        s[pit] > 0,
    ensures
        total(sow(s, player, pit, s[pit] as nat)) == total(s.update(pit, 0)) + s[pit],
        forall|j: int|
            0 <= j < BOARD_SIZE ==> #[trigger] sow(s, player, pit, s[pit] as nat)[j] == (if j
                == pit {
                0
            } else {
                s[j]
            }) + hits(player, pit, s[pit] as nat, j),
        forall|t: nat|
            1 <= t <= s[pit] ==> #[trigger] landing(player, pit, t) == (landing(
                player,
                pit,
                (t - 1) as nat,
            ) + 1) % (BOARD_SIZE as int) || landing(player, pit, t) == (landing(player, pit, (t - 1) as nat) + 2)
                % (BOARD_SIZE as int),
{
    let k = s[pit] as nat;
    lemma_sow(s, player, pit, k);
    crate::model::lemma_sum_update(s, 0, BOARD_SIZE as int, pit, 0);
    assert forall|j: int| 0 <= j < BOARD_SIZE implies #[trigger] sow(s, player, pit, k)[j] == (if j
        == pit {
        0
    } else {
        s[j]
    }) + hits(player, pit, k, j) by {
        assert(sow(s, player, pit, k)[j] == s.update(pit, 0)[j] + hits(player, pit, k, j));
    }
}

/// A stone sown never lands in the opponent's store, so sowing leaves that
/// store as it was (it may still grow by the end-of-game sweep).
pub proof fn opponent_store_skipped(s: Seq<int>, player: int, pit: int)
    requires
        valid_counts(s),
        valid_player(player),
        is_own_pit(player, pit),
    ensures
        forall|t: nat| t >= 1 ==> #[trigger] landing(player, pit, t) != opponent_store(player),
        sow(s, player, pit, s[pit] as nat)[opponent_store(player)] == s[opponent_store(player)],
{
    assert forall|t: nat| t >= 1 implies #[trigger] landing(player, pit, t) != opponent_store(
        player,
    ) by {
        lemma_landing(player, pit, t);
    }
    lemma_no_hits_on_opponent_store(player, pit, s[pit] as nat);
    lemma_sow(s, player, pit, s[pit] as nat);
}

proof fn lemma_no_hits_on_opponent_store(player: int, pit: int, t: nat)
    requires
        valid_player(player),
        0 <= pit < BOARD_SIZE,
    ensures
        hits(player, pit, t, opponent_store(player)) == 0,
    decreases t,
{
    if t > 0 {
        lemma_landing(player, pit, t);
        lemma_no_hits_on_opponent_store(player, pit, (t - 1) as nat);
    }
}

/// Once the game is over it stays over: the sweep has emptied every pit,
/// so checking again changes no counter and gives the same result.
pub proof fn game_over_is_stable(s: Seq<int>)
    requires
        valid_counts(s),
        is_finished(s),
    ensures
        is_finished(swept(s)),
        swept(swept(s)) == swept(s),
        status_of(swept(s)) == status_of(s),
        forall|j: int|
            0 <= j < BOARD_SIZE && j != P1_STORE && j != P2_STORE ==> #[trigger] swept(s)[j] == 0,
{
    lemma_swept(s);
    let f = swept(s);
    assert(p1_side(f) == 0 && p2_side(f) == 0);
    assert(swept(f) =~= f);
}

} // verus!
