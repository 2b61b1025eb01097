//! The frame update: a pool of streak slots, each with an odd column of
//! its own, and the step that renders, advances, retires and spawns
//! streaks.
//!
//! Every slot is either pending (idle) or active (its streak is on screen).
//! One tick draws every active streak as it stands, advances it by one
//! step, sends the dead ones back to the pending stack, and then starts at
//! most one pending slot afresh. When the terminal changes size the whole
//! pool is rebuilt first.

use vstd::prelude::*;

use crate::draw::{render, Draw};
use crate::laws::{
    lemma_resize_rebuilds, lemma_retired_wf, lemma_shuffled_draws, lemma_spawned_wf,
    lemma_stepped_wf, lemma_tick_draws_in_bounds,
};
use crate::number_streak::{NumberStreak, StreakView};
use crate::palette::{background, color_ramp, ramp_colors, Rgb};
use crate::pool::{
    alive_in, dead_in, identity_order, is_partition, shuffled, spec_slot_column, spec_slot_count,
    spec_streak_len, swapped, PrinterView, ENGINE_SEED,
};
use crate::win_size::WinSize;
use crate::xoshiro256p::{seeded, state_after, Xoshiro256pState};

verus! {

/// Number of slots in a terminal of `cols` columns.
pub fn slot_count(cols: u16) -> (n: usize)
    ensures
        n == spec_slot_count(cols),
{
    if cols >= 2 {
        ((cols - 2) / 2) as usize
    } else {
        0
    }
}

/// The column of slot `slot`.
pub fn slot_column(slot: usize) -> (col: u16)
    requires
        2 * slot + 1 <= u16::MAX,
    ensures
        col == spec_slot_column(slot as int),
{
    (slot as u16) * 2 + 1
}

/// The longest trail in a terminal of `rows` rows.
pub fn streak_len(rows: u16) -> (len: usize)
    ensures
        len == spec_streak_len(rows),
{
    (rows / 4) as usize
}

/// The animation engine.
pub struct Printer {
    /// Terminal size (columns, rows)
    size: (u16, u16),
    /// Streaks to be drawn
    streaks: Vec<NumberStreak>,
    streak_len: usize,
    pending_streaks: Vec<usize>,
    initialized_streaks: Vec<usize>,
    /// Streak colors
    colors: Vec<Rgb>,
    /// Random number generator
    xoshiro256p: Xoshiro256pState,
}

impl View for Printer {
    type V = PrinterView;

    closed spec fn view(&self) -> PrinterView {
        PrinterView {
            cols: self.size.0,
            rows: self.size.1,
            streaks: self.streaks@.map_values(|s: NumberStreak| s@),
            pending: self.pending_streaks@,
            active: self.initialized_streaks@,
            rng: self.xoshiro256p@,
        }
    }
}

/// Public methods
impl Printer {
    /// The representation is consistent: the colour ramp and the trail
    /// length fit the terminal, and every streak is valid.
    pub closed spec fn repr(&self) -> bool {
        &&& self.streak_len == spec_streak_len(self.size.1)
        &&& self.colors@ == ramp_colors(self.streak_len as u16)
        &&& self.colors@.len() == self.streak_len
        &&& forall|i: int| 0 <= i < self.streaks@.len() ==> (#[trigger] self.streaks@[i]).inv()
    }

    /// The engine is valid: its representation is consistent, the value it
    /// stands for is well formed, and the colour ramp fits the terminal.
    pub open spec fn inv(&self) -> bool {
        self.repr() && self@.wf() && self@.ramp_fits()
    }

    /// An engine for a terminal of `size`, together with the instruction
    /// that repaints the screen. Every slot is idle, the pending stack is
    /// shuffled by the engine's generator, which has been drawn from twice
    /// per slot, and no streak has been started.
    pub fn new(size: WinSize) -> (made: (Printer, Vec<Draw>))
        ensures
            made.0.inv(),
            made.0@ == PrinterView::initial().rebuilt(size.cols, size.rows),
            made.0@.cols == size.cols,
            made.0@.rows == size.rows,
            made.0@.slot_count() == spec_slot_count(size.cols),
            made.0@.active.len() == 0,
            made.0@.rng == state_after(seeded(ENGINE_SEED), 2 * spec_slot_count(size.cols)),
            made.1@ == seq![PrinterView::repaint(size.cols, size.rows)],
    {
        let mut printer = Printer {
            size: (size.cols, size.rows),
            streaks: Vec::new(),
            streak_len: 0,
            pending_streaks: Vec::new(),
            initialized_streaks: Vec::new(),
            colors: Vec::new(),
            xoshiro256p: Xoshiro256pState::new(ENGINE_SEED),
        };
        let mut draws: Vec<Draw> = Vec::new();
        printer.reinit(&mut draws);
        proof {
            let n = spec_slot_count(size.cols);
            lemma_shuffled_draws(identity_order(n), seeded(ENGINE_SEED), n);
            assert(draws@ =~= seq![PrinterView::repaint(size.cols, size.rows)]);
        }
        (printer, draws)
    }

    /// Advances the animation by one tick in a terminal of `size`, and
    /// returns the instructions that bring the screen up to date, in the
    /// order they are to be carried out.
    pub fn tick(&mut self, size: WinSize) -> (draws: Vec<Draw>)
        requires
            old(self).inv(),
        ensures
            final(self).inv(),
            final(self)@ == old(self)@.ticked(size),
            draws@ == old(self)@.tick_draws(size),
            forall|i: int| 0 <= i < draws@.len() ==> (#[trigger] draws@[i]).in_bounds(size.cols, size.rows),
            final(self)@.cols == size.cols,
            final(self)@.rows == size.rows,
            final(self)@.slot_count() == spec_slot_count(size.cols),
            old(self)@.resizes(size) ==> final(self)@.active.len() <= 1,
    {
        let mut draws: Vec<Draw> = Vec::new();

        // re-init everything after size change
        if self.fetch_size(size) {
            self.reinit(&mut draws);
        }
        assert(draws@ =~= if old(self)@.resizes(size) {
            seq![PrinterView::repaint(size.cols, size.rows)]
        } else {
            Seq::empty()
        });
        self.step_streaks(&mut draws);

        // remove dead streaks from intialized and add them to pending
        self.retire();

        // initialize streaks after re-initing vector or removing streak
        self.spawn();
        proof {
            assert forall|i: int| 0 <= i < draws@.len() implies (#[trigger] draws@[i]).in_bounds(
                size.cols,
                size.rows,
            ) by {
                lemma_tick_draws_in_bounds(old(self)@, size, i);
            }
            if old(self)@.resizes(size) {
                lemma_resize_rebuilds(old(self)@, size);
            }
        }
        draws
    }

    /// Number of slots.
    pub fn slot_count(&self) -> (n: usize)
        ensures
            n == self@.slot_count(),
    {
        self.streaks.len()
    }

    /// The idle slots; the last one is started next.
    pub fn pending(&self) -> (slots: &Vec<usize>)
        ensures
            slots@ == self@.pending,
    {
        &self.pending_streaks
    }

    /// The slots on screen, in the order they were started.
    pub fn active(&self) -> (slots: &Vec<usize>)
        ensures
            slots@ == self@.active,
    {
        &self.initialized_streaks
    }

    /// The streak of `slot`, if there is such a slot.
    pub fn streak(&self, slot: usize) -> (streak: Option<&NumberStreak>)
        requires
            self.inv(),
        ensures
            slot < self@.slot_count() ==> streak.is_some() && streak.unwrap()@
                == self@.streaks[slot as int] && streak.unwrap().inv(),
            slot >= self@.slot_count() ==> streak.is_none(),
    {
        if slot < self.streaks.len() {
            Some(&self.streaks[slot])
        } else {
            None
        }
    }
}

/// Private methods
impl Printer {
    /// Rebuilds the pool for the size in `self.size`, and appends the
    /// repaint of the screen to `out`.
    fn reinit(&mut self, out: &mut Vec<Draw>)
        ensures
            final(self).inv(),
            final(self)@ == old(self)@.rebuilt(old(self)@.cols, old(self)@.rows),
            final(self)@.active.len() == 0,
            final(out)@ == old(out)@.push(PrinterView::repaint(old(self)@.cols, old(self)@.rows)),
    {
        self.set_background(out);

        // adjust streak len for new terminal size
        self.streak_len = streak_len(self.size.1);

        // regenerate color gradient
        self.colors = color_ramp(self.size.1 / 4);

        // only fill every other column and skip the first and last one
        let n = slot_count(self.size.0);
        let mut streaks: Vec<NumberStreak> = Vec::new();
        let mut pending: Vec<usize> = Vec::new();
        let mut slot: usize = 0;
        while slot < n
            invariant
                slot <= n,
                streaks@.len() == slot,
                pending@ =~= identity_order(slot as nat),
                forall|i: int| 0 <= i < slot ==> (#[trigger] streaks@[i]).inv(),
                forall|i: int| 0 <= i < slot ==> (#[trigger] streaks@[i])@ == StreakView::blank(),
            decreases n - slot,
        {
            streaks.push(NumberStreak::default());
            pending.push(slot);
            slot += 1;
        }

        // "shuffle" number idxs by permutating elements
        let ghost start = pending@;
        let ghost rng0 = self.xoshiro256p@;
        let mut round: usize = 0;
        while round < n
            invariant
                round <= n,
                n == spec_slot_count(self.size.0),
                self.size == old(self).size,
                self.streak_len == spec_streak_len(self.size.1),
                self.colors@ == ramp_colors(self.streak_len as u16),
                self.colors@.len() == self.streak_len,
                streaks@.len() == n,
                forall|i: int| 0 <= i < n ==> (#[trigger] streaks@[i]).inv(),
                forall|i: int| 0 <= i < n ==> (#[trigger] streaks@[i])@ == StreakView::blank(),
                start == identity_order(n as nat),
                rng0 == old(self)@.rng,
                start.len() == n,
                pending@.len() == n,
                (pending@, self.xoshiro256p@) == shuffled(start, rng0, round as nat),
                is_partition(pending@, Seq::empty(), n as nat),
            decreases n - round,
        {
            let idx = (self.xoshiro256p.next() % (n as u64)) as usize;
            let jdx = (self.xoshiro256p.next() % (n as u64)) as usize;
            let ghost prev = pending@;
            let a = pending[idx];
            let b = pending[jdx];
            pending[idx] = b;
            pending[jdx] = a;
            assert(pending@ =~= swapped(prev, idx as int, jdx as int));
            round += 1;
        }
        self.streaks = streaks;
        self.pending_streaks = pending;
        self.initialized_streaks = Vec::new();
        assert(self@.streaks =~= old(self)@.rebuilt(old(self)@.cols, old(self)@.rows).streaks);
    }

    /// Takes note of the terminal's size and says whether it has changed.
    fn fetch_size(&mut self, size: WinSize) -> (changed: bool)
        requires
            old(self).inv(),
        ensures
            changed == old(self)@.resizes(size),
            !changed ==> *final(self) == *old(self),
            changed ==> final(self)@ == (PrinterView {
                cols: size.cols,
                rows: size.rows,
                ..old(self)@
            }),
    {
        let old_size = self.size;
        self.size = (size.cols, size.rows);
        self.size.0 != old_size.0 || self.size.1 != old_size.1
    }

    /// Draws every active streak as it stands, then advances it one step.
    fn step_streaks(&mut self, out: &mut Vec<Draw>)
        requires
            old(self).inv(),
        ensures
            final(self).inv(),
            final(self)@ == old(self)@.stepped(),
            final(out)@ == old(out)@ + old(self)@.frames(old(self)@.active.len()),
    {
        let ghost start = self@;
        let count = self.initialized_streaks.len();
        let mut idx: usize = 0;
        while idx < count
            invariant
                idx <= count,
                count == start.active.len(),
                start == old(self)@,
                start.wf(),
                self.repr(),
                self.size == old(self).size,
                self.initialized_streaks@ == start.active,
                self.pending_streaks@ == start.pending,
                self.xoshiro256p@ == start.rng,
                self.streaks@.len() == start.streaks.len(),
                forall|slot: int|
                    0 <= slot < start.streaks.len() ==> (#[trigger] self.streaks@[slot])@ == if start.active.take(
                        idx as int,
                    ).contains(slot as usize) {
                        start.streaks[slot].extended(start.rows)
                    } else {
                        start.streaks[slot]
                    },
                out@ == old(out)@ + start.frames(idx as nat),
            decreases count - idx,
        {
            let streak_idx = self.initialized_streaks[idx];
            proof {
                assert(start.placed(start.active[idx as int] as int));
                assert(!start.active.take(idx as int).contains(streak_idx)) by {
                    if start.active.take(idx as int).contains(streak_idx) {
                        let k = choose|k: int|
                            0 <= k < idx && start.active.take(idx as int)[k] == streak_idx;
                        assert(start.active[k] == start.active[idx as int]);
                    }
                }
                assert(self.streaks@[streak_idx as int]@ == start.streaks[streak_idx as int]);
            }
            render(&self.streaks[streak_idx], self.size.1, &self.colors, out);

            // advance streak (wrapping)
            self.streaks[streak_idx].extend(self.size.1);
            proof {
                let seen = start.active.take(idx as int);
                let next = start.active.take(idx + 1);
                assert(next =~= seen.push(streak_idx));
                assert forall|slot: int| 0 <= slot < start.streaks.len() implies (
                #[trigger] self.streaks@[slot])@ == if next.contains(slot as usize) {
                    start.streaks[slot].extended(start.rows)
                } else {
                    start.streaks[slot]
                } by {
                    if slot == streak_idx {
                        assert(next[idx as int] == streak_idx);
                    } else if seen.contains(slot as usize) {
                        let k = choose|k: int| 0 <= k < seen.len() && seen[k] == slot as usize;
                        assert(next[k] == slot as usize);
                    } else if next.contains(slot as usize) {
                        let k = choose|k: int| 0 <= k < next.len() && next[k] == slot as usize;
                        if k < idx {
                            assert(seen[k] == slot as usize);
                        }
                    }
                }
                assert(out@ =~= old(out)@ + start.frames((idx + 1) as nat));
            }
            idx += 1;
        }
        proof {
            assert(start.active.take(count as int) =~= start.active);
            assert(self@.streaks =~= start.stepped().streaks);
            lemma_stepped_wf(start);
        }
    }

    /// Moves the slots whose streak is dead from the active pool onto the
    /// pending stack.
    fn retire(&mut self)
        requires
            old(self).inv(),
        ensures
            final(self).inv(),
            final(self)@ == old(self)@.retired(),
    {
        let ghost start = self@;
        let mut idx: usize = self.initialized_streaks.len();
        proof {
            lemma_retire_none(start.active, start.pending, start.streaks);
        }
        while idx > 0
            invariant
                idx <= start.active.len(),
                start == old(self)@,
                start.wf(),
                self.repr(),
                self.size == old(self).size,
                self.streaks == old(self).streaks,
                self.xoshiro256p == old(self).xoshiro256p,
                self.initialized_streaks@ == survivors_from(start.active, start.streaks, idx as int),
                self.pending_streaks@ == start.pending + retired_from(
                    start.active,
                    start.streaks,
                    idx as int,
                ),
            decreases idx,
        {
            idx -= 1;
            let slot = self.initialized_streaks[idx];
            proof {
                lemma_retire_one(start.active, start.streaks, idx as int);
                assert(slot == start.active[idx as int]);
                assert(slot < start.streaks.len());
                assert(self.streaks@[slot as int]@ == start.streaks[slot as int]);
            }
            if self.streaks[slot].is_dead() {
                let gone = self.initialized_streaks.remove(idx);
                self.pending_streaks.push(gone);
                assert(self.initialized_streaks@ =~= survivors_from(
                    start.active,
                    start.streaks,
                    idx as int,
                ));
                assert(self.pending_streaks@ =~= start.pending + retired_from(
                    start.active,
                    start.streaks,
                    idx as int,
                ));
            }
        }
        proof {
            assert(start.active.skip(0) =~= start.active);
            assert(start.active.take(0) =~= Seq::<usize>::empty());
            assert(self.initialized_streaks@ =~= start.active.filter(alive_in(start.streaks)));
            lemma_retired_wf(start);
        }
    }

    /// Starts the slot on top of the pending stack, if there is one and the
    /// terminal has a row for it.
    fn spawn(&mut self)
        requires
            old(self).inv(),
        ensures
            final(self).inv(),
            final(self)@ == old(self)@.spawned(),
    {
        if self.size.1 == 0 {
            return ;
        }
        if let Some(idx) = self.pending_streaks.pop() {
            proof {
                assert(idx == old(self)@.pending[old(self)@.pending.len() - 1]);
                assert(idx < old(self)@.streaks.len());
            }
            // random row
            let draw = self.xoshiro256p.next();
            assert(draw & 0xffff == draw % 0x1_0000) by (bit_vector);
            let row = ((draw & 0xffff) as u16) % self.size.1;
            // col determined by shuffled idxs vector (skipped cols)
            let pos = (slot_column(idx), row);
            let seed = self.xoshiro256p.next();
            self.streaks[idx].init(pos, self.streak_len, seed);
            self.initialized_streaks.push(idx);
            proof {
                assert(self@.streaks =~= old(self)@.spawned().streaks);
                lemma_spawned_wf(old(self)@);
            }
        }
    }

    /// Appends the repaint of the whole screen to `out`.
    fn set_background(&self, out: &mut Vec<Draw>)
        ensures
            final(out)@ == old(out)@.push(PrinterView::repaint(self@.cols, self@.rows)),
    {
        assert(self.size.0 * self.size.1 <= 0xffff * 0xffff) by (nonlinear_arith)
            requires
                self.size.0 <= 0xffff,
                self.size.1 <= 0xffff,
        ;
        let cells = self.size.0 as u32 * self.size.1 as u32;
        out.push(Draw::Fill { color: background(), cells });
    }
}

/// The active pool once the entries from position `from` on have been
/// looked at: the earlier ones as they were, of the later ones the live.
spec fn survivors_from(active: Seq<usize>, streaks: Seq<StreakView>, from: int) -> Seq<usize> {
    active.take(from) + active.skip(from).filter(alive_in(streaks))
}

/// What the entries from position `from` on add to the pending stack: the
/// dead among them, the last one first.
spec fn retired_from(active: Seq<usize>, streaks: Seq<StreakView>, from: int) -> Seq<usize> {
    active.skip(from).filter(dead_in(streaks)).reverse()
}

/// Before any entry has been looked at, nothing has moved.
proof fn lemma_retire_none(active: Seq<usize>, pending: Seq<usize>, streaks: Seq<StreakView>)
    ensures
        survivors_from(active, streaks, active.len() as int) == active,
        pending + retired_from(active, streaks, active.len() as int) == pending,
{
    reveal(Seq::filter);
    let none = active.skip(active.len() as int);
    assert(none =~= Seq::<usize>::empty());
    assert(none.filter(alive_in(streaks)) =~= Seq::<usize>::empty());
    assert(none.filter(dead_in(streaks)) =~= Seq::<usize>::empty());
    assert(active.take(active.len() as int) =~= active);
    assert(survivors_from(active, streaks, active.len() as int) =~= active);
    assert(pending + retired_from(active, streaks, active.len() as int) =~= pending);
}

/// Looking at one more entry, the one at `at`: a dead one leaves the active
/// pool and goes on top of what was retired, a live one stays.
proof fn lemma_retire_one(active: Seq<usize>, streaks: Seq<StreakView>, at: int)
    requires
        0 <= at < active.len(),
    ensures
        streaks[active[at] as int].is_dead() ==> {
            &&& survivors_from(active, streaks, at) == survivors_from(active, streaks, at + 1).remove(at)
            &&& retired_from(active, streaks, at) == retired_from(active, streaks, at + 1).push(
                active[at],
            )
        },
        !streaks[active[at] as int].is_dead() ==> {
            &&& survivors_from(active, streaks, at) == survivors_from(active, streaks, at + 1)
            &&& retired_from(active, streaks, at) == retired_from(active, streaks, at + 1)
        },
        survivors_from(active, streaks, at + 1).len() > at,
        survivors_from(active, streaks, at + 1)[at] == active[at],
{
    let slot = active[at];
    let here = active.skip(at);
    let rest = active.skip(at + 1);
    let alive = alive_in(streaks);
    let dead = dead_in(streaks);
    assert(here =~= seq![slot] + rest);
    Seq::filter_distributes_over_add(seq![slot], rest, alive);
    Seq::filter_distributes_over_add(seq![slot], rest, dead);
    assert(seq![slot] =~= Seq::<usize>::empty().push(slot));
    Seq::<usize>::empty().lemma_filter_push(slot, alive);
    Seq::<usize>::empty().lemma_filter_push(slot, dead);
    assert(Seq::<usize>::empty().filter(alive) =~= Seq::<usize>::empty()) by {
        reveal(Seq::filter);
    }
    assert(Seq::<usize>::empty().filter(dead) =~= Seq::<usize>::empty()) by {
        reveal(Seq::filter);
    }
    assert(active.take(at + 1) =~= active.take(at).push(slot));
    if streaks[slot as int].is_dead() {
        assert(seq![slot].filter(dead) =~= seq![slot]);
        assert(seq![slot].filter(alive) =~= Seq::<usize>::empty());
        assert(here.filter(dead) =~= seq![slot] + rest.filter(dead));
        assert(here.filter(alive) =~= rest.filter(alive));
        assert(here.filter(dead).reverse() =~= rest.filter(dead).reverse().push(slot));
        assert(survivors_from(active, streaks, at) =~= survivors_from(active, streaks, at + 1).remove(
            at,
        ));
    } else {
        assert(seq![slot].filter(alive) =~= seq![slot]);
        assert(seq![slot].filter(dead) =~= Seq::<usize>::empty());
        assert(here.filter(alive) =~= seq![slot] + rest.filter(alive));
        assert(here.filter(dead) =~= rest.filter(dead));
        assert(survivors_from(active, streaks, at) =~= survivors_from(active, streaks, at + 1));
    }
}


} // verus!
