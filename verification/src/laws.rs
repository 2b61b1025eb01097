//! What holds of the engine at every tick, proved of its mathematical
//! value.

use vstd::prelude::*;

use crate::draw::{lemma_frame_in_bounds, lemma_wrapped_row_in_bounds, wrapped_row, Draw};
use crate::number_streak::{lemma_extended_row, lemma_extended_step, StreakView};
use crate::pool::{
    alive_in, dead_in, identity_order, is_partition, shuffled, spec_slot_column, spec_slot_count,
    spec_streak_len, swapped, PrinterView,
};
use crate::win_size::WinSize;
use crate::xoshiro256p::{advance, output, state_after, Words};

verus! {

/// Filtering a pool by life and by death splits it: every entry goes to
/// exactly one side, both sides hold entries of the pool only, and neither
/// repeats an entry if the pool does not.
proof fn lemma_filter_split(pool: Seq<usize>, streaks: Seq<StreakView>)
    ensures
        ({
            let alive = pool.filter(alive_in(streaks));
            let dead = pool.filter(dead_in(streaks));
            &&& alive.len() + dead.len() == pool.len()
            &&& forall|i: int|
                0 <= i < alive.len() ==> pool.contains(#[trigger] alive[i]) && !streaks[alive[i] as int].is_dead()
            &&& forall|i: int|
                0 <= i < dead.len() ==> pool.contains(#[trigger] dead[i]) && streaks[dead[i] as int].is_dead()
            &&& pool.no_duplicates() ==> alive.no_duplicates() && dead.no_duplicates()
        }),
    decreases pool.len(),
{
    reveal(Seq::filter);
    if pool.len() > 0 {
        let rest = pool.drop_last();
        let last = pool.last();
        lemma_filter_split(rest, streaks);
        let alive = pool.filter(alive_in(streaks));
        let dead = pool.filter(dead_in(streaks));
        let rest_alive = rest.filter(alive_in(streaks));
        let rest_dead = rest.filter(dead_in(streaks));
        assert forall|i: int| 0 <= i < alive.len() implies pool.contains(#[trigger] alive[i])
            && !streaks[alive[i] as int].is_dead() by {
            if i < rest_alive.len() {
                let k = choose|k: int| 0 <= k < rest.len() && rest[k] == rest_alive[i];
                assert(pool[k] == alive[i]);
            } else {
                assert(pool[pool.len() - 1] == alive[i]);
            }
        }
        assert forall|i: int| 0 <= i < dead.len() implies pool.contains(#[trigger] dead[i])
            && streaks[dead[i] as int].is_dead() by {
            if i < rest_dead.len() {
                let k = choose|k: int| 0 <= k < rest.len() && rest[k] == rest_dead[i];
                assert(pool[k] == dead[i]);
            } else {
                assert(pool[pool.len() - 1] == dead[i]);
            }
        }
        if pool.no_duplicates() {
            assert(rest.no_duplicates());
            assert forall|i: int| 0 <= i < rest.len() implies rest[i] != last by {
                assert(pool[i] == rest[i]);
            }
            assert forall|i: int| 0 <= i < rest_alive.len() implies rest_alive[i] != last by {
                let k = choose|k: int| 0 <= k < rest.len() && rest[k] == rest_alive[i];
            }
            assert forall|i: int| 0 <= i < rest_dead.len() implies rest_dead[i] != last by {
                let k = choose|k: int| 0 <= k < rest.len() && rest[k] == rest_dead[i];
            }
        }
    }
}

/// A step of every active streak keeps the engine well formed.
pub proof fn lemma_stepped_wf(v: PrinterView)
    requires
        v.wf(),
    ensures
        v.stepped().wf(),
{
    let after = v.stepped();
    assert forall|k: int| 0 <= k < after.active.len() implies after.placed(
        #[trigger] after.active[k] as int,
    ) by {
        let slot = v.active[k];
        assert(v.placed(slot as int));
        assert(v.active.contains(slot));
        lemma_extended_step(v.streaks[slot as int], v.rows);
        lemma_extended_row(v.streaks[slot as int], v.rows);
    }
}

/// Retiring the dead streaks keeps the engine well formed.
pub proof fn lemma_retired_wf(v: PrinterView)
    requires
        v.wf(),
    ensures
        v.retired().wf(),
{
    let after = v.retired();
    let alive = v.active.filter(alive_in(v.streaks));
    let dead = v.active.filter(dead_in(v.streaks));
    let n = v.streaks.len();
    lemma_filter_split(v.active, v.streaks);
    assert(v.active.no_duplicates());
    assert forall|i: int| 0 <= i < alive.len() implies (#[trigger] alive[i]) < n && v.placed(
        alive[i] as int,
    ) by {
        let k = choose|k: int| 0 <= k < v.active.len() && v.active[k] == alive[i];
        assert(v.placed(v.active[k] as int));
    }
    assert forall|i: int| 0 <= i < dead.len() implies (#[trigger] dead[i]) < n by {
        let k = choose|k: int| 0 <= k < v.active.len() && v.active[k] == dead[i];
    }
    assert forall|i: int, j: int|
        0 <= i < v.pending.len() && 0 <= j < dead.len() implies #[trigger] v.pending[i]
        != #[trigger] dead[j] by {
        let k = choose|k: int| 0 <= k < v.active.len() && v.active[k] == dead[j];
    }
    assert forall|i: int, j: int|
        0 <= i < v.pending.len() && 0 <= j < alive.len() implies #[trigger] v.pending[i]
        != #[trigger] alive[j] by {
        let k = choose|k: int| 0 <= k < v.active.len() && v.active[k] == alive[j];
    }
    let back = dead.reverse();
    assert forall|i: int| 0 <= i < back.len() implies back[i] == dead[dead.len() - 1 - i] by {}
    assert(after.pending.len() == v.pending.len() + dead.len());
    assert forall|i: int| 0 <= i < after.pending.len() implies #[trigger] after.pending[i] < n by {
        if i >= v.pending.len() {
            assert(after.pending[i] == dead[dead.len() - 1 - (i - v.pending.len())]);
        }
    }
    assert forall|i: int, j: int| 0 <= i < j < after.pending.len() implies #[trigger] after.pending[i]
        != #[trigger] after.pending[j] by {
        if i >= v.pending.len() {
            assert(after.pending[i] == dead[dead.len() - 1 - (i - v.pending.len())]);
        }
        if j >= v.pending.len() {
            assert(after.pending[j] == dead[dead.len() - 1 - (j - v.pending.len())]);
        }
    }
    assert forall|i: int, j: int|
        0 <= i < after.pending.len() && 0 <= j < after.active.len() implies #[trigger] after.pending[i]
        != #[trigger] after.active[j] by {
        if i >= v.pending.len() {
            assert(after.pending[i] == dead[dead.len() - 1 - (i - v.pending.len())]);
        }
    }
}

/// Starting a pending slot keeps the engine well formed.
pub proof fn lemma_spawned_wf(v: PrinterView)
    requires
        v.wf(),
    ensures
        v.spawned().wf(),
{
    if v.can_spawn() {
        let after = v.spawned();
        let slot = v.pending.last();
        assert(slot == v.pending[v.pending.len() - 1]);
        assert forall|k: int| 0 <= k < after.active.len() implies after.placed(
            #[trigger] after.active[k] as int,
        ) by {
            if k < v.active.len() {
                assert(v.placed(v.active[k] as int));
                assert(v.active[k] != v.pending[v.pending.len() - 1]);
            }
        }
    }
}

/// Shuffling rearranges the slots and loses none: a pool that holds every
/// slot below `n` once still does after any number of exchanges.
pub proof fn lemma_shuffled_partition(order: Seq<usize>, rng: Words, rounds: nat, n: nat)
    requires
        is_partition(order, Seq::empty(), n),
        rounds > 0 ==> n > 0,
    ensures
        is_partition(shuffled(order, rng, rounds).0, Seq::empty(), n),
    decreases rounds,
{
    if rounds > 0 {
        lemma_shuffled_partition(order, rng, (rounds - 1) as nat, n);
        let (prev, w) = shuffled(order, rng, (rounds - 1) as nat);
        let i = output(w) as int % order.len() as int;
        let j = output(advance(w)) as int % order.len() as int;
        let next = swapped(prev, i, j);
        assert(next == shuffled(order, rng, rounds).0);
        assert(prev.len() == n);
        if n > 0 {
            assert forall|a: int, b: int| 0 <= a < b < next.len() implies #[trigger] next[a]
                != #[trigger] next[b] by {
                let src_a = if a == i { j } else if a == j { i } else { a };
                let src_b = if b == i { j } else if b == j { i } else { b };
                assert(next[a] == prev[src_a]);
                assert(next[b] == prev[src_b]);
                if src_a < src_b {
                    assert(prev[src_a] != prev[src_b]);
                } else {
                    assert(prev[src_b] != prev[src_a]);
                }
            }
        }
    }
}

/// Shuffling draws twice per round from the generator and no more.
pub proof fn lemma_shuffled_draws(order: Seq<usize>, rng: Words, rounds: nat)
    ensures
        shuffled(order, rng, rounds).1 == state_after(rng, 2 * rounds),
    decreases rounds,
{
    if rounds > 0 {
        lemma_shuffled_draws(order, rng, (rounds - 1) as nat);
        let w = state_after(rng, (2 * rounds - 2) as nat);
        assert(state_after(rng, (2 * rounds - 1) as nat) == advance(w));
        assert(state_after(rng, 2 * rounds) == advance(advance(w)));
    }
}

/// A rebuilt engine is well formed, whatever it was before, and has no
/// active streak.
pub proof fn lemma_rebuilt_wf(v: PrinterView, cols: u16, rows: u16)
    ensures
        v.rebuilt(cols, rows).wf(),
        v.rebuilt(cols, rows).active.len() == 0,
        v.rebuilt(cols, rows).slot_count() == spec_slot_count(cols),
{
    let n = spec_slot_count(cols);
    lemma_shuffled_partition(identity_order(n), v.rng, n, n);
}

/// A tick keeps the engine well formed: at its end, as at its start, the
/// pending and the active pool hold every slot exactly once between them,
/// and every active streak is well formed and in its place.
pub proof fn lemma_ticked_wf(v: PrinterView, size: WinSize)
    requires
        v.wf(),
    ensures
        v.ticked(size).wf(),
        is_partition(v.ticked(size).pending, v.ticked(size).active, v.ticked(size).slot_count()),
{
    lemma_rebuilt_wf(v, size.cols, size.rows);
    lemma_stepped_wf(v.sized(size));
    lemma_retired_wf(v.sized(size).stepped());
    lemma_spawned_wf(v.sized(size).stepped().retired());
}

/// Distinct values below `n` are at most `n` in number.
proof fn lemma_distinct_below(pool: Seq<usize>, n: nat)
    requires
        pool.no_duplicates(),
        forall|i: int| 0 <= i < pool.len() ==> #[trigger] pool[i] < n,
    ensures
        pool.len() <= n,
    decreases n,
{
    if n == 0 {
        if pool.len() > 0 {
            assert(pool[0] < 0);
        }
    } else if exists|k: int| 0 <= k < pool.len() && pool[k] == n - 1 {
        let k = choose|k: int| 0 <= k < pool.len() && pool[k] == n - 1;
        let rest = pool.remove(k);
        assert forall|i: int| 0 <= i < rest.len() implies #[trigger] rest[i] < n - 1 by {
            let src = if i < k { i } else { i + 1 };
            assert(rest[i] == pool[src]);
            assert(pool[src] < n);
        }
        assert forall|i: int, j: int| 0 <= i < rest.len() && 0 <= j < rest.len() && i != j implies rest[i]
            != rest[j] by {
            let src_i = if i < k { i } else { i + 1 };
            let src_j = if j < k { j } else { j + 1 };
            assert(rest[i] == pool[src_i]);
            assert(rest[j] == pool[src_j]);
        }
        lemma_distinct_below(rest, (n - 1) as nat);
    } else {
        assert forall|i: int| 0 <= i < pool.len() implies #[trigger] pool[i] < n - 1 by {
            assert(pool[i] < n);
        }
        lemma_distinct_below(pool, (n - 1) as nat);
    }
}

/// What the partition means for a single slot: every slot below `n` is in
/// exactly one of the two pools, and the pools hold nothing else.
pub proof fn lemma_partition_covers(pending: Seq<usize>, active: Seq<usize>, n: nat, slot: usize)
    requires
        is_partition(pending, active, n),
    ensures
        slot < n ==> (pending.contains(slot) <==> !active.contains(slot)),
        slot >= n ==> !pending.contains(slot) && !active.contains(slot),
{
    let all = pending + active;
    if pending.contains(slot) && active.contains(slot) {
        let i = choose|i: int| 0 <= i < pending.len() && pending[i] == slot;
        let j = choose|j: int| 0 <= j < active.len() && active[j] == slot;
        assert(pending[i] != active[j]);
    }
    if slot < n && !pending.contains(slot) && !active.contains(slot) {
        let more = all.push(slot);
        assert forall|i: int| 0 <= i < more.len() implies #[trigger] more[i] < n by {
            if i < pending.len() {
                assert(more[i] == pending[i]);
            } else if i < all.len() {
                assert(more[i] == active[i - pending.len()]);
            }
        }
        assert forall|i: int, j: int| 0 <= i < more.len() && 0 <= j < more.len() && i != j implies more[i]
            != more[j] by {
            let (lo, hi) = if i < j { (i, j) } else { (j, i) };
            if hi == all.len() {
                if lo < pending.len() {
                    assert(pending[lo] != slot);
                } else {
                    assert(active[lo - pending.len()] != slot);
                }
            } else if hi < pending.len() {
                assert(pending[lo] != pending[hi]);
            } else if lo >= pending.len() {
                assert(active[lo - pending.len()] != active[hi - pending.len()]);
            } else {
                assert(pending[lo] != active[hi - pending.len()]);
            }
        }
        lemma_distinct_below(more, n);
    }
}

/// A tick starts at most one streak: of the slots that were pending before
/// it, at most one is active after it.
pub proof fn lemma_single_spawn(v: PrinterView, size: WinSize, a: usize, b: usize)
    requires
        v.wf(),
        v.pending.contains(a),
        v.pending.contains(b),
        v.ticked(size).active.contains(a),
        v.ticked(size).active.contains(b),
    ensures
        a == b,
{
    let base = v.sized(size);
    let stepped = base.stepped();
    let retired = stepped.retired();
    let after = v.ticked(size);
    let survivors = stepped.active.filter(alive_in(stepped.streaks));
    lemma_filter_split(stepped.active, stepped.streaks);
    assert(retired.active == survivors);
    let i = choose|i: int| 0 <= i < after.active.len() && after.active[i] == a;
    let j = choose|j: int| 0 <= j < after.active.len() && after.active[j] == b;
    if v.resizes(size) {
        lemma_rebuilt_wf(v, size.cols, size.rows);
        assert(survivors.len() == 0);
    } else {
        assert forall|k: int| 0 <= k < survivors.len() implies !v.pending.contains(
            #[trigger] survivors[k],
        ) by {
            let m = choose|m: int| 0 <= m < v.active.len() && v.active[m] == survivors[k];
            if v.pending.contains(survivors[k]) {
                let p = choose|p: int| 0 <= p < v.pending.len() && v.pending[p] == survivors[k];
                assert(v.pending[p] != v.active[m]);
            }
        }
        if i < survivors.len() {
            assert(after.active[i] == survivors[i]);
        }
        if j < survivors.len() {
            assert(after.active[j] == survivors[j]);
        }
    }
}

/// A change of size rebuilds the pool: after the tick the slots are as
/// many as the new width asks for, `(cols - 2) / 2`, and no streak from
/// before is left on screen. At most one slot is active, and its streak is
/// fresh.
pub proof fn lemma_resize_rebuilds(v: PrinterView, size: WinSize)
    requires
        v.resizes(size),
    ensures
        v.ticked(size).slot_count() == spec_slot_count(size.cols),
        size.cols >= 2 ==> v.ticked(size).slot_count() == (size.cols - 2) / 2,
        v.ticked(size).cols == size.cols,
        v.ticked(size).rows == size.rows,
        v.ticked(size).active.len() <= 1,
        forall|k: int|
            0 <= k < v.ticked(size).active.len() ==> {
                let streak = v.ticked(size).streaks[#[trigger] v.ticked(size).active[k] as int];
                streak.growth() == 0 && streak.death == 0
            },
{
    let base = v.rebuilt(size.cols, size.rows);
    lemma_rebuilt_wf(v, size.cols, size.rows);
    lemma_stepped_wf(base);
    let stepped = base.stepped();
    lemma_filter_split(stepped.active, stepped.streaks);
    lemma_retired_wf(stepped);
    let retired = stepped.retired();
    assert(retired.active.len() == 0);
    if retired.can_spawn() {
        assert(retired.pending.last() < retired.streaks.len());
    }
}

/// Every slot has a column of its own inside the terminal: slot `slot` sits
/// in column `2 * slot + 1`, which is neither the first column nor the last.
pub proof fn lemma_column_formula(cols: u16, slot: int)
    requires
        0 <= slot < spec_slot_count(cols),
    ensures
        0 < spec_slot_column(slot) < cols - 1,
        spec_slot_column(slot) == 2 * slot + 1,
{
}

/// Going back from the head along a trail never leaves the terminal: for a
/// head on a row of the terminal and an offset of at most the longest
/// trail, the wrapped row is a row of the terminal.
pub proof fn lemma_row_wrap(rows: u16, head: u16, offset: u16)
    requires
        head < rows,
        offset <= spec_streak_len(rows),
    ensures
        0 <= wrapped_row(rows as int, head as int, offset as int) < rows,
{
    lemma_wrapped_row_in_bounds(rows as int, head as int, offset as int);
}

/// The head of every active streak sits in the column of its slot.
pub proof fn lemma_active_columns(v: PrinterView, k: int)
    requires
        v.wf(),
        0 <= k < v.active.len(),
    ensures
        v.streaks[v.active[k] as int].col == 2 * v.active[k] + 1,
        0 < v.streaks[v.active[k] as int].col < v.cols - 1,
        v.streaks[v.active[k] as int].row < v.rows,
{
    assert(v.placed(v.active[k] as int));
    lemma_column_formula(v.cols, v.active[k] as int);
}

/// The pictures of the active streaks stay inside the terminal.
pub proof fn lemma_frames_in_bounds(v: PrinterView, upto: nat, i: int)
    requires
        v.wf(),
        upto <= v.active.len(),
        0 <= i < v.frames(upto).len(),
    ensures
        v.frames(upto)[i].in_bounds(v.cols, v.rows),
    decreases upto,
{
    if upto > 0 {
        let before = v.frames((upto - 1) as nat);
        let slot = v.active[upto - 1] as int;
        let streak = v.streaks[slot];
        if i < before.len() {
            lemma_frames_in_bounds(v, (upto - 1) as nat, i);
        } else {
            assert(v.placed(v.active[upto - 1] as int));
            lemma_column_formula(v.cols, slot);
            lemma_frame_in_bounds(streak, v.cols, v.rows, v.colors(), i - before.len());
        }
    }
}

/// Every instruction of a tick fits the terminal it is meant for: a repaint
/// covers all of it, and every cell that is cleared or written lies on one
/// of its rows, in an inner column.
pub proof fn lemma_tick_draws_in_bounds(v: PrinterView, size: WinSize, i: int)
    requires
        v.wf(),
        0 <= i < v.tick_draws(size).len(),
    ensures
        v.tick_draws(size)[i].in_bounds(size.cols, size.rows),
{
    let base = v.sized(size);
    lemma_rebuilt_wf(v, size.cols, size.rows);
    if v.resizes(size) {
        assert(base.frames(0) =~= Seq::<Draw>::empty());
        assert(v.tick_draws(size) =~= seq![PrinterView::repaint(size.cols, size.rows)]);
        assert(size.cols * size.rows <= 0xffff * 0xffff) by (nonlinear_arith)
            requires
                size.cols <= 0xffff,
                size.rows <= 0xffff,
        ;
    } else {
        assert(v.tick_draws(size) =~= base.frames(base.active.len()));
        lemma_frames_in_bounds(base, base.active.len(), i);
    }
}

/// Across a tick no streak goes back in its life: either it has been
/// started anew, with both counters at zero, or it has faded and grown at
/// least as much as before.
pub proof fn lemma_tick_never_unfades(v: PrinterView, size: WinSize, slot: int)
    requires
        v.wf(),
        0 <= slot < v.ticked(size).slot_count(),
    ensures
        ({
            let after = v.ticked(size).streaks[slot];
            ||| after.growth() == 0 && after.death == 0
            ||| {
                &&& slot < v.slot_count()
                &&& after.death >= v.streaks[slot].death
                &&& after.growth() >= v.streaks[slot].growth()
                &&& after.max_len() == v.streaks[slot].max_len()
            }
        }),
        v.ticked(size).streaks[slot].wf(),
{
    lemma_ticked_wf(v, size);
    lemma_rebuilt_wf(v, size.cols, size.rows);
    let base = v.sized(size);
    let stepped = base.stepped();
    let retired = stepped.retired();
    let after = v.ticked(size);
    lemma_stepped_wf(base);
    lemma_retired_wf(stepped);
    assert(retired.streaks == stepped.streaks);
    assert(stepped.streaks.len() == base.streaks.len());
    assert(after.streaks.len() == base.streaks.len());
    assert(stepped.streaks[slot] == base.stepped_streak(slot));
    if v.resizes(size) {
        assert(base.streaks[slot] == StreakView::blank());
        assert(!base.active.contains(slot as usize));
        assert(stepped.streaks[slot] == StreakView::blank());
    } else {
        lemma_extended_step(v.streaks[slot], v.rows);
    }
    if retired.can_spawn() && retired.pending.last() == slot {
        assert(after.streaks[slot].growth() == 0);
    } else {
        assert(after.streaks[slot] == stepped.streaks[slot]);
    }
}

/// An active streak that is alive after its step stays active, and the
/// tick has advanced it by exactly that one step.
pub proof fn lemma_tick_steps_survivors(v: PrinterView, size: WinSize, k: int)
    requires
        v.wf(),
        !v.resizes(size),
        0 <= k < v.active.len(),
        !v.streaks[v.active[k] as int].extended(v.rows).is_dead(),
    ensures
        v.ticked(size).active.contains(v.active[k]),
        v.ticked(size).streaks[v.active[k] as int] == v.streaks[v.active[k] as int].extended(v.rows),
{
    let slot = v.active[k];
    let stepped = v.stepped();
    let retired = stepped.retired();
    lemma_stepped_wf(v);
    lemma_retired_wf(stepped);
    assert(v.active.contains(slot));
    assert(stepped.streaks[slot as int] == v.streaks[slot as int].extended(v.rows));
    assert(alive_in(stepped.streaks)(stepped.active[k]));
    stepped.active.lemma_filter_contains(alive_in(stepped.streaks), k);
    assert(retired.active.contains(slot));
    let at = choose|at: int| 0 <= at < retired.active.len() && retired.active[at] == slot;
    if retired.can_spawn() {
        assert(retired.pending[retired.pending.len() - 1] != retired.active[at]);
        assert(retired.spawned().active[at] == slot);
    }
}

} // verus!
