//! One streak of the rain: a trail of glyphs behind a moving head.
//!
//! A streak grows by one glyph per step until it is full, keeps falling
//! until a draw from its own generator starts its fading, then loses one
//! glyph per step, the oldest first, until none is left.

use vstd::prelude::*;

use crate::xoshiro256p::{advance, output, seeded, Words, Xoshiro256pState};

verus! {

/// The sixteen glyphs a streak is made of.
pub const CHARS: [char; 16] = [
    '0', '1', '2', '3', '4', '5', '6', '7', '8', '9', 'a', 'b', 'c', 'd', 'e', 'f',
];

/// Whether `c` is one of the sixteen glyphs.
pub open spec fn is_glyph(c: char) -> bool {
    exists|k: int| 0 <= k < 16 && CHARS@[k] == c
}

/// The glyph that a drawn value selects: the low four bits index the alphabet.
pub open spec fn glyph_of(value: u64) -> char {
    CHARS@[(value % 16) as int]
}

/// Whether a drawn value starts the fading of a full streak: nine values in
/// every 1024 do.
pub open spec fn starts_fading(value: u64) -> bool {
    value % 1024 >= 1015
}

/// The row below `row` in a terminal of `row_limit` rows, wrapping to the top.
pub open spec fn row_below(row: u16, row_limit: u16) -> u16 {
    ((row + 1) % (row_limit as int)) as u16
}

/// A streak as a mathematical value.
pub struct StreakView {
    /// One cell for every glyph the streak can hold, in the order the
    /// glyphs are grown. A cell that has faded, or has not been grown yet,
    /// holds a blank.
    pub cells: Seq<char>,
    /// How many glyphs have been grown.
    pub grown: nat,
    /// How many glyphs have faded.
    pub death: nat,
    /// Column of the head.
    pub col: u16,
    /// Row of the head.
    pub row: u16,
    /// State of the streak's own generator.
    pub rng: Words,
}

impl StreakView {
    /// The length at which the streak stops growing.
    pub open spec fn max_len(self) -> nat {
        self.cells.len()
    }

    /// How many glyphs the streak has grown.
    pub open spec fn growth(self) -> nat {
        self.grown
    }

    /// How many glyphs are to be seen: those grown and not yet faded.
    pub open spec fn visible(self) -> nat {
        (self.grown - self.death) as nat
    }

    /// The glyph `offset` places into those that are to be seen, the oldest
    /// of them first.
    pub open spec fn visible_glyph(self, offset: int) -> char {
        self.cells[self.death + offset]
    }

    /// A streak is dead when every glyph it has grown has faded, so that
    /// none is left to be seen. A streak that has not grown yet is dead too.
    pub open spec fn is_dead(self) -> bool {
        self.death == self.grown
    }

    /// A streak is spent when it is full and all of it has faded: nothing
    /// more can happen to it.
    pub open spec fn is_spent(self) -> bool {
        self.death == self.grown && self.grown == self.max_len()
    }

    /// The counters are ordered, `death <= growth <= max_len`; the cells
    /// that are to be seen hold glyphs, and all others are blank.
    pub open spec fn wf(self) -> bool {
        &&& self.death <= self.grown <= self.cells.len()
        &&& forall|i: int| 0 <= i < self.death ==> self.cells[i] == ' '
        &&& forall|i: int| self.death <= i < self.grown ==> is_glyph(#[trigger] self.cells[i])
        &&& forall|i: int| self.grown <= i < self.cells.len() ==> self.cells[i] == ' '
    }

    /// The empty streak that can never grow.
    pub open spec fn blank() -> StreakView {
        StreakView {
            cells: Seq::empty(),
            grown: 0,
            death: 0,
            col: 0,
            row: 0,
            rng: Words { s0: 0, s1: 0, s2: 0, s3: 0 },
        }
    }

    /// The streak just after initialisation: `max_len` blank cells, nothing
    /// grown, nothing faded.
    pub open spec fn fresh(col: u16, row: u16, max_len: nat, seed: u64) -> StreakView {
        StreakView {
            cells: Seq::new(max_len, |i: int| ' '),
            grown: 0,
            death: 0,
            col,
            row,
            rng: seeded(seed),
        }
    }

    /// The streak one step later.
    ///
    /// A spent streak stays as it is. Every other streak moves its head down
    /// one row. One that is not yet full grows by the glyph its generator
    /// selects. A full streak that has begun to fade loses one more glyph;
    /// one that has not draws a value to decide whether to begin.
    pub open spec fn extended(self, row_limit: u16) -> StreakView {
        let row = row_below(self.row, row_limit);
        if self.grown < self.max_len() {
            StreakView {
                cells: self.cells.update(self.grown as int, glyph_of(output(self.rng))),
                grown: self.grown + 1,
                rng: advance(self.rng),
                row,
                ..self
            }
        } else if self.is_dead() {
            self
        } else if self.death > 0 {
            StreakView {
                cells: self.cells.update(self.death as int, ' '),
                death: self.death + 1,
                row,
                ..self
            }
        } else if starts_fading(output(self.rng)) {
            StreakView {
                cells: self.cells.update(0, ' '),
                death: 1,
                rng: advance(self.rng),
                row,
                ..self
            }
        } else {
            StreakView { rng: advance(self.rng), row, ..self }
        }
    }

    /// The streak after `steps` steps.
    pub open spec fn extended_by(self, row_limit: u16, steps: nat) -> StreakView
        decreases steps,
    {
        if steps == 0 {
            self
        } else {
            self.extended_by(row_limit, (steps - 1) as nat).extended(row_limit)
        }
    }
}

/// One falling streak of glyphs.
pub struct NumberStreak {
    /// Alphanumeric characters of the streak
    vals: Vec<char>,
    val_tail: usize,
    val_head: usize,
    /// Position of the streak head (col, row)
    head_pos: (u16, u16),
    /// Random number generator
    xoshiro256p: Xoshiro256pState,
}

impl View for NumberStreak {
    type V = StreakView;

    closed spec fn view(&self) -> StreakView {
        StreakView {
            cells: self.vals@,
            grown: self.val_tail as nat,
            death: self.val_head as nat,
            col: self.head_pos.0,
            row: self.head_pos.1,
            rng: self.xoshiro256p@,
        }
    }
}

impl NumberStreak {
    /// The streak stands for a well-formed value.
    pub open spec fn inv(&self) -> bool {
        self@.wf()
    }

    /// Starts the streak anew at `head_pos` (column, row), to grow up to
    /// `max_len` glyphs, with its generator seeded from `seed`.
    pub fn init(&mut self, head_pos: (u16, u16), max_len: usize, seed: u64)
        ensures
            final(self).inv(),
            final(self)@ == StreakView::fresh(head_pos.0, head_pos.1, max_len as nat, seed),
    {
        self.vals.clear();
        self.vals.resize(max_len, ' ');
        self.val_tail = 0;
        self.val_head = 0;
        self.head_pos = head_pos;
        self.xoshiro256p = Xoshiro256pState::new(seed);
        assert(self@.cells =~= Seq::new(max_len as nat, |i: int| ' '));
    }

    /// Advances the streak by one step in a terminal of `row_limit` rows.
    pub fn extend(&mut self, row_limit: u16)
        requires
            old(self).inv(),
            row_limit > 0,
        ensures
            final(self).inv(),
            final(self)@ == old(self)@.extended(row_limit),
    {
        if self.val_tail == self.vals.len() && self.val_head == self.val_tail {
            return ;
        }
        self.head_pos.1 = ((self.head_pos.1 as u32 + 1) % (row_limit as u32)) as u16;

        if self.val_tail == self.vals.len() {
            // if death process started, continue every time
            if self.val_head != 0 || Self::roll(&mut self.xoshiro256p) {
                self.vals[self.val_head] = ' ';
                self.val_head += 1;
            }
            return ;
        }
        let value = self.xoshiro256p.next();
        assert(value & 0xf == value % 16) by (bit_vector);
        self.vals[self.val_tail] = CHARS[(value & 0xf) as usize];
        self.val_tail += 1;
        proof {
            lemma_glyph_of(value);
        }
    }

    /// Draws one value and says whether it starts the fading.
    fn roll(rng: &mut Xoshiro256pState) -> (fades: bool)
        ensures
            fades == starts_fading(output(old(rng)@)),
            final(rng)@ == advance(old(rng)@),
    {
        let value = rng.next();
        assert(value & 0x3ff == value % 1024) by (bit_vector);
        value & 0x3ff >= 1015
    }

    /// Column of the head.
    pub fn col(&self) -> (col: u16)
        ensures
            col == self@.col,
    {
        self.head_pos.0
    }

    /// Row of the head.
    pub fn row(&self) -> (row: u16)
        ensures
            row == self@.row,
    {
        self.head_pos.1
    }

    /// Number of glyphs grown, faded ones included, as a 16-bit value.
    pub fn len(&self) -> (len: u16)
        ensures
            len == self@.growth() % 0x1_0000,
    {
        let tail = self.val_tail;
        assert(tail as u16 == tail % 0x1_0000) by (bit_vector);
        #[verifier::truncate]
        (tail as u16)
    }

    /// Number of glyphs that have faded.
    pub fn faded(&self) -> (faded: usize)
        ensures
            faded == self@.death,
    {
        self.val_head
    }

    /// Number of glyphs that are to be seen.
    pub fn visible(&self) -> (visible: usize)
        requires
            self.inv(),
        ensures
            visible == self@.visible(),
            visible == self@.growth() - self@.death,
            self@.max_len() <= usize::MAX,
    {
        assert(self.vals@.len() == self.vals.len());
        self.val_tail - self.val_head
    }

    /// Whether every glyph the streak has grown has faded.
    pub fn is_dead(&self) -> (dead: bool)
        ensures
            dead == self@.is_dead(),
    {
        self.val_head == self.val_tail
    }

    /// The cell at `index`, in the order the glyphs are grown: a blank if
    /// the glyph has faded or has not been grown yet, else the glyph.
    pub fn index(&self, index: usize) -> (cell: char)
        requires
            self.inv(),
            index < self@.max_len(),
        ensures
            cell == self@.cells[index as int],
            index < self@.death ==> cell == ' ',
            self@.death <= index < self@.growth() ==> is_glyph(cell),
            index >= self@.growth() ==> cell == ' ',
    {
        self.vals[index]
    }
}

impl Clone for NumberStreak {
    /// A copy that stands for the same streak.
    fn clone(&self) -> (copy: NumberStreak)
        ensures
            copy@ == self@,
    {
        let copy = NumberStreak {
            vals: self.vals.clone(),
            val_tail: self.val_tail,
            val_head: self.val_head,
            head_pos: (self.head_pos.0, self.head_pos.1),
            xoshiro256p: self.xoshiro256p,
        };
        assert(copy.vals@ =~= self.vals@);
        copy
    }
}

impl Default for NumberStreak {
    /// An empty streak that can never grow.
    fn default() -> (streak: NumberStreak)
        ensures
            streak.inv(),
            streak@ == StreakView::blank(),
    {
        NumberStreak {
            vals: Vec::new(),
            val_tail: 0,
            val_head: 0,
            head_pos: (0, 0),
            xoshiro256p: Xoshiro256pState::default(),
        }
    }
}

/// Every drawn value selects one of the sixteen glyphs, and no glyph is a
/// blank.
pub proof fn lemma_glyph_of(value: u64)
    ensures
        is_glyph(glyph_of(value)),
        forall|c: char| is_glyph(c) ==> c != ' ',
{
    assert(CHARS@[(value % 16) as int] == glyph_of(value));
    assert forall|c: char| is_glyph(c) implies c != ' ' by {
        let k = choose|k: int| 0 <= k < 16 && CHARS@[k] == c;
        assert(CHARS@[k] != ' ');
    }
}

/// One step keeps a streak well formed, never lowers either counter and
/// never changes the column or the length limit.
pub proof fn lemma_extended_step(s: StreakView, row_limit: u16)
    requires
        s.wf(),
    ensures
        s.extended(row_limit).wf(),
        s.extended(row_limit).death >= s.death,
        s.extended(row_limit).growth() >= s.growth(),
        s.extended(row_limit).max_len() == s.max_len(),
        s.extended(row_limit).col == s.col,
{
    lemma_glyph_of(output(s.rng));
}

/// The counters stay ordered for the whole life of a streak: after any
/// number of steps, `0 <= death <= growth <= max_len`.
pub proof fn lemma_lifecycle_invariant(s: StreakView, row_limit: u16, steps: nat)
    requires
        s.wf(),
    ensures
        s.extended_by(row_limit, steps).wf(),
        0 <= s.extended_by(row_limit, steps).death <= s.extended_by(row_limit, steps).growth(),
        s.extended_by(row_limit, steps).growth() <= s.extended_by(row_limit, steps).max_len(),
        s.extended_by(row_limit, steps).max_len() == s.max_len(),
    decreases steps,
{
    if steps > 0 {
        lemma_lifecycle_invariant(s, row_limit, (steps - 1) as nat);
        lemma_extended_step(s.extended_by(row_limit, (steps - 1) as nat), row_limit);
    }
}

/// Fading never goes back: between two points of a streak's life, the later
/// one has faded at least as much and grown at least as much.
pub proof fn lemma_death_monotone(s: StreakView, row_limit: u16, earlier: nat, later: nat)
    requires
        s.wf(),
        earlier <= later,
    ensures
        s.extended_by(row_limit, earlier).death <= s.extended_by(row_limit, later).death,
        s.extended_by(row_limit, earlier).growth() <= s.extended_by(row_limit, later).growth(),
    decreases later,
{
    if earlier < later {
        lemma_death_monotone(s, row_limit, earlier, (later - 1) as nat);
        lemma_lifecycle_invariant(s, row_limit, (later - 1) as nat);
        lemma_extended_step(s.extended_by(row_limit, (later - 1) as nat), row_limit);
    }
}

/// The head of a streak that is not spent moves down by exactly one row,
/// wrapping at the bottom; the head of a spent streak stays.
pub proof fn lemma_extended_row(s: StreakView, row_limit: u16)
    requires
        s.wf(),
        row_limit > 0,
    ensures
        !s.is_spent() ==> s.extended(row_limit).row == (s.row + 1) % (row_limit as int),
        s.is_spent() ==> s.extended(row_limit).row == s.row,
        s.row < row_limit ==> s.extended(row_limit).row < row_limit,
{
}

/// While a streak is not spent, every step moves the head: `steps` steps
/// from row `r` end on row `(r + steps) % row_limit`.
pub proof fn lemma_row_after(s: StreakView, row_limit: u16, steps: nat)
    requires
        s.wf(),
        s.row < row_limit,
        steps > 0 ==> !s.extended_by(row_limit, (steps - 1) as nat).is_spent(),
    ensures
        s.extended_by(row_limit, steps).row == (s.row + steps) % (row_limit as int),
    decreases steps,
{
    if steps > 0 {
        let before = s.extended_by(row_limit, (steps - 1) as nat);
        lemma_lifecycle_invariant(s, row_limit, (steps - 1) as nat);
        if steps > 1 {
            let earlier = s.extended_by(row_limit, (steps - 2) as nat);
            lemma_lifecycle_invariant(s, row_limit, (steps - 2) as nat);
            lemma_extended_step(earlier, row_limit);
            assert(!earlier.is_spent());
        }
        lemma_row_after(s, row_limit, (steps - 1) as nat);
        lemma_extended_row(before, row_limit);
        let r = row_limit as int;
        let at = s.row + (steps - 1);
        assert(before.row == at % r);
        assert(s.extended_by(row_limit, steps).row == (before.row + 1) % r);
        assert((at % r + 1) % r == (at + 1) % r) by {
            vstd::arithmetic::div_mod::lemma_add_mod_noop(at, 1, r);
            vstd::arithmetic::div_mod::lemma_mod_twice(at, r);
            if r > 1 {
                vstd::arithmetic::div_mod::lemma_small_mod(1, r as nat);
            }
        }
    } else {
        vstd::arithmetic::div_mod::lemma_small_mod(s.row as nat, row_limit as nat);
    }
}

} // verus!
