use vstd::prelude::*;

verus! {

/// Number of slots on the board: five pits and one store for each player.
pub const BOARD_SIZE: usize = 12;

/// Number of playable pits on each side.
pub const NUM_PITS: usize = 5;

/// Index of player 1's store.
pub const P1_STORE: usize = 5;

/// Index of player 2's store.
pub const P2_STORE: usize = 11;

/// Largest number of stones a board can hold: every counter is an `i8`.
pub const MAX_STONES: i8 = 127;

/// Sum of `s[lo..hi]`.
pub open spec fn sum(s: Seq<int>, lo: int, hi: int) -> int
    decreases hi - lo,
{
    if hi <= lo {
        0
    } else {
        sum(s, lo, hi - 1) + s[hi - 1]
    }
}

/// Every stone on the board, pits and stores together.
pub open spec fn total(s: Seq<int>) -> int {
    sum(s, 0, BOARD_SIZE as int)
}

/// A board's counters: twelve of them, none negative, and few enough
/// stones in all that every counter fits in an `i8`.
pub open spec fn valid_counts(s: Seq<int>) -> bool {
    &&& s.len() == BOARD_SIZE
    &&& forall|j: int| 0 <= j < BOARD_SIZE ==> s[j] >= 0
    &&& total(s) <= MAX_STONES
}

pub open spec fn valid_player(player: int) -> bool {
    player == 1 || player == 2
}

pub open spec fn own_store(player: int) -> int {
    if player == 1 {
        P1_STORE as int
    } else {
        P2_STORE as int
    }
}

pub open spec fn opponent_store(player: int) -> int {
    if player == 1 {
        P2_STORE as int
    } else {
        P1_STORE as int
    }
}

/// The pits that `player` may play from (stores excluded).
pub open spec fn is_own_pit(player: int, i: int) -> bool {
    if player == 1 {
        0 <= i < P1_STORE
    } else {
        P1_STORE < i < P2_STORE
    }
}

/// The pit facing pit `i` across the board: the playable pits, taken
/// without the stores, are numbered so that `i` and `10 - i` face each other.
pub open spec fn opposite(i: int) -> int {
    (2 * NUM_PITS) as int - i
}

/// The slot after `i` in sowing order for `player`, passing over the
/// opponent's store.
pub open spec fn next_slot(player: int, i: int) -> int {
    let j = (i + 1) % (BOARD_SIZE as int);
    if j == opponent_store(player) {
        (j + 1) % (BOARD_SIZE as int)
    } else {
        j
    }
}

/// Where the `t`-th stone sown from `start` lands.
pub open spec fn landing(player: int, start: int, t: nat) -> int
    decreases t,
{
    if t == 0 {
        start
    } else {
        next_slot(player, landing(player, start, (t - 1) as nat))
    }
}

/// The board after emptying `start` and sowing `t` stones from it.
pub open spec fn sow(s: Seq<int>, player: int, start: int, t: nat) -> Seq<int>
    decreases t,
{
    if t == 0 {
        s.update(start, 0)
    } else {
        let p = sow(s, player, start, (t - 1) as nat);
        let j = landing(player, start, t);
        p.update(j, p[j] + 1)
    }
}

/// How many of the first `t` stones sown from `start` land in slot `j`.
pub open spec fn hits(player: int, start: int, t: nat, j: int) -> nat
    decreases t,
{
    if t == 0 {
        0
    } else {
        hits(player, start, (t - 1) as nat, j) + if landing(player, start, t) == j {
            1nat
        } else {
            0nat
        }
    }
}

/// Whether the last stone, landing in `last`, makes a capture: it fell into
/// one of the mover's own pits, which was empty before.
pub open spec fn captures_at(s: Seq<int>, player: int, last: int) -> bool {
    is_own_pit(player, last) && s[last] == 1
}

/// The capture rule: the stone that landed and the stones of the facing pit
/// both go to the mover's store.
pub open spec fn capture(s: Seq<int>, player: int, last: int) -> Seq<int> {
    if captures_at(s, player, last) {
        let store = own_store(player);
        let o = opposite(last);
        s.update(store, s[store] + s[o] + 1).update(last, 0).update(o, 0)
    } else {
        s
    }
}

/// Stones left in player 1's pits.
pub open spec fn p1_side(s: Seq<int>) -> int {
    sum(s, 0, P1_STORE as int)
}

/// Stones left in player 2's pits.
pub open spec fn p2_side(s: Seq<int>) -> int {
    sum(s, P1_STORE as int + 1, P2_STORE as int)
}

/// The game ends when one side has no stone left in its pits.
pub open spec fn is_finished(s: Seq<int>) -> bool {
    p1_side(s) == 0 || p2_side(s) == 0
}

/// The end-of-game sweep: each player's remaining pit stones go to that
/// player's own store. A board whose game is not over is left alone.
pub open spec fn swept(s: Seq<int>) -> Seq<int> {
    if is_finished(s) {
        Seq::new(
            BOARD_SIZE as nat,
            |j: int|
                if j == P1_STORE {
                    s[j] + p1_side(s)
                } else if j == P2_STORE {
                    s[j] + p2_side(s)
                } else {
                    0
                },
        )
    } else {
        s
    }
}

/// Sowing from `pit`, then the capture rule, before the status check.
pub open spec fn sown_and_captured(s: Seq<int>, player: int, pit: int) -> Seq<int> {
    let k = s[pit] as nat;
    capture(sow(s, player, pit, k), player, landing(player, pit, k))
}

/// The board after a whole move from `pit`: sowing, capture, and the sweep
/// when the game ends.
pub open spec fn after_move(s: Seq<int>, player: int, pit: int) -> Seq<int> {
    swept(sown_and_captured(s, player, pit))
}

pub proof fn lemma_sum_update(s: Seq<int>, lo: int, hi: int, i: int, v: int)
    requires
        0 <= lo,
        hi <= s.len(),
        0 <= i < s.len(),
    ensures
        sum(s.update(i, v), lo, hi) == sum(s, lo, hi) + if lo <= i < hi {
            v - s[i]
        } else {
            0
        },
    decreases hi - lo,
{
    if lo < hi {
        lemma_sum_update(s, lo, hi - 1, i, v);
    }
}

pub proof fn lemma_sum_split(s: Seq<int>, lo: int, mid: int, hi: int)
    requires
        lo <= mid <= hi,
    ensures
        sum(s, lo, hi) == sum(s, lo, mid) + sum(s, mid, hi),
    decreases hi - mid,
{
    if mid < hi {
        lemma_sum_split(s, lo, mid, hi - 1);
    }
}

pub proof fn lemma_sum_bounds(s: Seq<int>, lo: int, hi: int)
    requires
        forall|j: int| lo <= j < hi ==> s[j] >= 0,
    ensures
        sum(s, lo, hi) >= 0,
        forall|j: int| lo <= j < hi ==> s[j] <= sum(s, lo, hi),
    decreases hi - lo,
{
    if lo < hi {
        lemma_sum_bounds(s, lo, hi - 1);
    }
}

pub proof fn lemma_sum_zero(s: Seq<int>, lo: int, hi: int)
    requires
        forall|j: int| lo <= j < hi ==> s[j] == 0,
    ensures
        sum(s, lo, hi) == 0,
    decreases hi - lo,
{
    if lo < hi {
        lemma_sum_zero(s, lo, hi - 1);
    }
}

/// The sum of a board's counters, taken side by side.
pub proof fn lemma_total_by_sides(s: Seq<int>)
    ensures
        total(s) == p1_side(s) + s[P1_STORE as int] + p2_side(s) + s[P2_STORE as int],
{
    lemma_sum_split(s, 0, 5, 12);
    lemma_sum_split(s, 5, 6, 12);
    lemma_sum_split(s, 6, 11, 12);
    reveal_with_fuel(sum, 2);
}

/// Every stone lands on the board, and never in the opponent's store.
pub proof fn lemma_landing(player: int, start: int, t: nat)
    requires
        valid_player(player),
        0 <= start < BOARD_SIZE,
    ensures
        0 <= landing(player, start, t) < BOARD_SIZE,
        t > 0 ==> landing(player, start, t) != opponent_store(player),
    decreases t,
{
    if t > 0 {
        lemma_landing(player, start, (t - 1) as nat);
    }
}

/// Sowing `t` stones from `start` empties it, then adds one stone per
/// landing, so the board gains `t` stones and loses those of `start`.
pub proof fn lemma_sow(s: Seq<int>, player: int, start: int, t: nat)
    requires
        valid_player(player),
        s.len() == BOARD_SIZE,
        0 <= start < BOARD_SIZE,
    ensures
        sow(s, player, start, t).len() == BOARD_SIZE,
        total(sow(s, player, start, t)) == total(s) - s[start] + t,
        forall|j: int|
            0 <= j < BOARD_SIZE ==> #[trigger] sow(s, player, start, t)[j] == s.update(start, 0)[j]
                + hits(player, start, t, j),
    decreases t,
{
    if t == 0 {
        lemma_sum_update(s, 0, 12, start, 0);
    } else {
        let t1 = (t - 1) as nat;
        lemma_sow(s, player, start, t1);
        lemma_landing(player, start, t);
        let p = sow(s, player, start, t1);
        let j = landing(player, start, t);
        lemma_sum_update(p, 0, 12, j, p[j] + 1);
    }
}

/// While at most the stones of `start` are sown, every counter stays
/// between zero and the board's limit.
pub proof fn lemma_sow_bounded(s: Seq<int>, player: int, start: int, t: nat)
    requires
        valid_player(player),
        valid_counts(s),
        0 <= start < BOARD_SIZE,
        t <= s[start],
    ensures
        forall|j: int|
            0 <= j < BOARD_SIZE ==> 0 <= #[trigger] sow(s, player, start, t)[j] <= MAX_STONES,
{
    lemma_sow(s, player, start, t);
    let p = sow(s, player, start, t);
    assert forall|j: int| 0 <= j < BOARD_SIZE implies p[j] >= 0 by {
        assert(p[j] == s.update(start, 0)[j] + hits(player, start, t, j));
    }
    lemma_sum_bounds(p, 0, BOARD_SIZE as int);
}

/// The capture rule moves stones between slots and keeps every counter
/// non-negative.
pub proof fn lemma_capture(s: Seq<int>, player: int, last: int)
    requires
        valid_player(player),
        s.len() == BOARD_SIZE,
        forall|j: int| 0 <= j < BOARD_SIZE ==> s[j] >= 0,
    ensures
        capture(s, player, last).len() == BOARD_SIZE,
        total(capture(s, player, last)) == total(s),
        forall|j: int| 0 <= j < BOARD_SIZE ==> capture(s, player, last)[j] >= 0,
{
    if captures_at(s, player, last) {
        let store = own_store(player);
        let o = opposite(last);
        let s1 = s.update(store, s[store] + s[o] + 1);
        let s2 = s1.update(last, 0);
        lemma_sum_update(s, 0, 12, store, s[store] + s[o] + 1);
        lemma_sum_update(s1, 0, 12, last, 0);
        lemma_sum_update(s2, 0, 12, o, 0);
    }
}

/// The end-of-game sweep moves stones between slots and keeps every counter
/// non-negative.
pub proof fn lemma_swept(s: Seq<int>)
    requires
        s.len() == BOARD_SIZE,
        forall|j: int| 0 <= j < BOARD_SIZE ==> s[j] >= 0,
    ensures
        swept(s).len() == BOARD_SIZE,
        total(swept(s)) == total(s),
        forall|j: int| 0 <= j < BOARD_SIZE ==> swept(s)[j] >= 0,
        is_finished(s) ==> p1_side(swept(s)) == 0 && p2_side(swept(s)) == 0,
{
    lemma_sum_bounds(s, 0, 5);
    lemma_sum_bounds(s, 6, 11);
    if is_finished(s) {
        let f = swept(s);
        lemma_sum_zero(f, 0, 5);
        lemma_sum_zero(f, 6, 11);
        lemma_total_by_sides(s);
        lemma_total_by_sides(f);
    }
}

/// A whole move keeps the board valid: the stone count and the
/// non-negativity of every counter.
pub proof fn lemma_after_move(s: Seq<int>, player: int, pit: int)
    requires
        valid_counts(s),
        valid_player(player),
        is_own_pit(player, pit),
    ensures
        total(sown_and_captured(s, player, pit)) == total(s),
        forall|j: int| 0 <= j < BOARD_SIZE ==> sown_and_captured(s, player, pit)[j] >= 0,
        sown_and_captured(s, player, pit).len() == BOARD_SIZE,
        total(after_move(s, player, pit)) == total(s),
        valid_counts(after_move(s, player, pit)),
{
    let k = s[pit] as nat;
    lemma_sow(s, player, pit, k);
    let p = sow(s, player, pit, k);
    assert forall|j: int| 0 <= j < BOARD_SIZE implies p[j] >= 0 by {
        assert(p[j] == s.update(pit, 0)[j] + hits(player, pit, k, j));
    }
    lemma_capture(p, player, landing(player, pit, k));
    lemma_swept(sown_and_captured(s, player, pit));
}

} // verus!
