//! Animation engine for a terminal "digital rain": vertical streaks of
//! glyphs that fall, fade and are replaced.
//!
//! The crate holds the deterministic generator that drives every random
//! choice, the state machine of one streak, and the frame update that
//! schedules a pool of streak slots and says which cells to draw. It does no
//! I/O: a host hands in the terminal size and sends the returned
//! instructions to the screen.

pub mod draw;
pub mod laws;
pub mod number_streak;
pub mod palette;
pub mod pool;
pub mod printer;
pub mod win_size;
pub mod xoshiro256p;
