//! The engine as a mathematical value: the slots of a terminal, the two
//! pools that divide them, and what one tick does to them.

use vstd::prelude::*;

use crate::draw::{frame, Draw};
use crate::number_streak::StreakView;
use crate::palette::{background_color, head_color, ramp_colors, tail_color, Rgb};
use crate::win_size::WinSize;
use crate::xoshiro256p::{advance, output, seeded, Words};

verus! {

/// The seed of the generator that places and seeds the streaks.
pub const ENGINE_SEED: u64 = 0xdeadbeef;

/// Number of slots in a terminal of `cols` columns: half the columns that
/// are left without the first and the last, rounded down. A terminal of
/// fewer than four columns has none.
pub open spec fn spec_slot_count(cols: u16) -> nat {
    if cols >= 2 {
        ((cols - 2) / 2) as nat
    } else {
        0
    }
}

/// The column that slot `slot` occupies.
pub open spec fn spec_slot_column(slot: int) -> int {
    2 * slot + 1
}

/// The longest trail in a terminal of `rows` rows: a quarter of its height.
pub open spec fn spec_streak_len(rows: u16) -> nat {
    (rows / 4) as nat
}

/// `order` with the entries at `i` and `j` exchanged.
pub open spec fn swapped(order: Seq<usize>, i: int, j: int) -> Seq<usize> {
    order.update(i, order[j]).update(j, order[i])
}

/// The slot indices `0, 1, .., n - 1` in order.
pub open spec fn identity_order(n: nat) -> Seq<usize> {
    Seq::new(n, |i: int| i as usize)
}

/// `order` after `rounds` exchanges of two positions, each position drawn
/// from the generator, together with the generator's state afterwards.
pub open spec fn shuffled(order: Seq<usize>, rng: Words, rounds: nat) -> (Seq<usize>, Words)
    decreases rounds,
{
    if rounds == 0 {
        (order, rng)
    } else {
        let (prev, w) = shuffled(order, rng, (rounds - 1) as nat);
        let i = output(w) as int % order.len() as int;
        let j = output(advance(w)) as int % order.len() as int;
        (swapped(prev, i, j), advance(advance(w)))
    }
}

/// The two pools hold every slot below `n` exactly once between them: no
/// entry repeats, within a pool or across them, every entry is below `n`,
/// and there are `n` entries in all.
pub open spec fn is_partition(pending: Seq<usize>, active: Seq<usize>, n: nat) -> bool {
    &&& pending.len() + active.len() == n
    &&& forall|i: int| 0 <= i < pending.len() ==> #[trigger] pending[i] < n
    &&& forall|i: int| 0 <= i < active.len() ==> #[trigger] active[i] < n
    &&& forall|i: int, j: int|
        0 <= i < j < pending.len() ==> #[trigger] pending[i] != #[trigger] pending[j]
    &&& forall|i: int, j: int|
        0 <= i < j < active.len() ==> #[trigger] active[i] != #[trigger] active[j]
    &&& forall|i: int, j: int|
        0 <= i < pending.len() && 0 <= j < active.len() ==> #[trigger] pending[i]
            != #[trigger] active[j]
}

/// The predicate that holds of the slots whose streak is dead.
pub open spec fn dead_in(streaks: Seq<StreakView>) -> spec_fn(usize) -> bool {
    |slot: usize| streaks[slot as int].is_dead()
}

/// The predicate that holds of the slots whose streak is not dead.
pub open spec fn alive_in(streaks: Seq<StreakView>) -> spec_fn(usize) -> bool {
    |slot: usize| !streaks[slot as int].is_dead()
}

/// The engine as a mathematical value.
pub struct PrinterView {
    /// Columns of the terminal at the last tick.
    pub cols: u16,
    /// Rows of the terminal at the last tick.
    pub rows: u16,
    /// The streak of every slot. Only those of active slots are on screen.
    pub streaks: Seq<StreakView>,
    /// The idle slots, as a stack: the last entry is started next.
    pub pending: Seq<usize>,
    /// The slots on screen, in the order they were started.
    pub active: Seq<usize>,
    /// State of the engine's generator.
    pub rng: Words,
}

impl PrinterView {
    /// Number of slots.
    pub open spec fn slot_count(self) -> nat {
        self.streaks.len()
    }

    /// The colour ramp in use: one colour per cell of the longest trail.
    pub open spec fn colors(self) -> Seq<Rgb> {
        ramp_colors(spec_streak_len(self.rows) as u16)
    }

    /// The ramp in use fits the terminal: it has one colour per cell of the
    /// longest trail, begins with the head colour and, if it has two or more
    /// entries, ends with the tail colour.
    pub open spec fn ramp_fits(self) -> bool {
        let ramp = self.colors();
        let n = spec_streak_len(self.rows);
        &&& ramp.len() == n
        &&& n >= 1 ==> ramp[0] == head_color()
        &&& n >= 2 ==> ramp[n - 1] == tail_color()
    }

    /// The streak of `slot` is where an active streak belongs: well formed,
    /// limited to the current trail length, its head on a row of the
    /// terminal and in the slot's own column.
    pub open spec fn placed(self, slot: int) -> bool {
        &&& self.streaks[slot].wf()
        &&& self.streaks[slot].max_len() == spec_streak_len(self.rows)
        &&& self.streaks[slot].row < self.rows
        &&& self.streaks[slot].col == spec_slot_column(slot)
    }

    /// The engine's invariant: the slots are as many as the terminal's width
    /// asks for, the pools divide them between them, every streak is well
    /// formed and every active streak is placed.
    pub open spec fn wf(self) -> bool {
        &&& self.streaks.len() == spec_slot_count(self.cols)
        &&& is_partition(self.pending, self.active, self.streaks.len())
        &&& forall|slot: int| 0 <= slot < self.streaks.len() ==> (#[trigger] self.streaks[slot]).wf()
        &&& forall|k: int| 0 <= k < self.active.len() ==> self.placed(#[trigger] self.active[k] as int)
    }

    /// The engine before it is sized for a terminal: no slots, and the
    /// generator fresh from its seed.
    pub open spec fn initial() -> PrinterView {
        PrinterView {
            cols: 0,
            rows: 0,
            streaks: Seq::empty(),
            pending: Seq::empty(),
            active: Seq::empty(),
            rng: seeded(ENGINE_SEED),
        }
    }

    /// The engine rebuilt for a terminal of `cols` by `rows`: every slot
    /// idle with an empty streak, the pending stack shuffled by the engine's
    /// generator.
    pub open spec fn rebuilt(self, cols: u16, rows: u16) -> PrinterView {
        let n = spec_slot_count(cols);
        let (order, rng) = shuffled(identity_order(n), self.rng, n);
        PrinterView {
            cols,
            rows,
            streaks: Seq::new(n, |slot: int| StreakView::blank()),
            pending: order,
            active: Seq::empty(),
            rng,
        }
    }

    /// The instructions that draw the first `upto` active streaks, in
    /// the order of the active pool.
    pub open spec fn frames(self, upto: nat) -> Seq<Draw>
        decreases upto,
    {
        if upto == 0 {
            Seq::empty()
        } else {
            self.frames((upto - 1) as nat) + frame(
                self.streaks[self.active[upto - 1] as int],
                self.rows,
                self.colors(),
            )
        }
    }

    /// The streak of `slot` after the step of a tick: advanced if the slot
    /// is active, untouched if it is not.
    pub open spec fn stepped_streak(self, slot: int) -> StreakView {
        if self.active.contains(slot as usize) {
            self.streaks[slot].extended(self.rows)
        } else {
            self.streaks[slot]
        }
    }

    /// The engine after every active streak has taken one step.
    pub open spec fn stepped(self) -> PrinterView {
        PrinterView {
            streaks: Seq::new(self.streaks.len(), |slot: int| self.stepped_streak(slot)),
            ..self
        }
    }

    /// The engine after the dead streaks have left the active pool. The
    /// live ones keep their order; the dead ones go onto the pending stack,
    /// the one that was started first on top.
    pub open spec fn retired(self) -> PrinterView {
        PrinterView {
            active: self.active.filter(alive_in(self.streaks)),
            pending: self.pending + self.active.filter(dead_in(self.streaks)).reverse(),
            ..self
        }
    }

    /// Whether a tick starts a streak: a slot is idle and the terminal has
    /// a row to put the head on.
    pub open spec fn can_spawn(self) -> bool {
        self.pending.len() > 0 && self.rows > 0
    }

    /// The row that the next spawn puts the head on.
    pub open spec fn spawn_row(self) -> u16 {
        (((output(self.rng) % 0x1_0000) as int) % (self.rows as int)) as u16
    }

    /// The engine after the spawn of a tick: the slot on top of the pending
    /// stack becomes active with a fresh streak in its own column, on a row
    /// drawn from the engine's generator and seeded by the draw after that.
    pub open spec fn spawned(self) -> PrinterView {
        if self.can_spawn() {
            let slot = self.pending.last();
            PrinterView {
                streaks: self.streaks.update(
                    slot as int,
                    StreakView::fresh(
                        spec_slot_column(slot as int) as u16,
                        self.spawn_row(),
                        spec_streak_len(self.rows),
                        output(advance(self.rng)),
                    ),
                ),
                pending: self.pending.drop_last(),
                active: self.active.push(slot),
                rng: advance(advance(self.rng)),
                ..self
            }
        } else {
            self
        }
    }

    /// Whether a terminal of `size` differs from the one of the last tick.
    pub open spec fn resizes(self, size: WinSize) -> bool {
        size.cols != self.cols || size.rows != self.rows
    }

    /// The engine as a tick in a terminal of `size` finds it once the size
    /// has been looked at: rebuilt if the size changed.
    pub open spec fn sized(self, size: WinSize) -> PrinterView {
        if self.resizes(size) {
            self.rebuilt(size.cols, size.rows)
        } else {
            self
        }
    }

    /// The engine after one tick in a terminal of `size`.
    pub open spec fn ticked(self, size: WinSize) -> PrinterView {
        self.sized(size).stepped().retired().spawned()
    }

    /// The instruction that repaints a terminal of `cols` by `rows`.
    pub open spec fn repaint(cols: u16, rows: u16) -> Draw {
        Draw::Fill { color: background_color(), cells: (cols * rows) as u32 }
    }

    /// The instructions of one tick in a terminal of `size`: a repaint if
    /// the size changed, then the picture of every active streak as it
    /// stood before its step.
    pub open spec fn tick_draws(self, size: WinSize) -> Seq<Draw> {
        let base = self.sized(size);
        let repaint = if self.resizes(size) {
            seq![Self::repaint(size.cols, size.rows)]
        } else {
            Seq::empty()
        };
        repaint + base.frames(base.active.len())
    }
}

} // verus!
