//! Spaced-repetition scheduling for flashcards.
//!
//! The crate keeps a pool of cards grouped into named decks, decides which
//! cards are due for revision, drives a retry-until-success revision session,
//! and reschedules each card from the student's self-reported recall quality.
//!
//! All quantities are held as integers: timestamps as whole seconds, and
//! intervals, memorisation factors and deck coefficients in thousandths of
//! their natural unit (a stored `1300` stands for `1.3`), so that every step
//! of the scheduling arithmetic carries an exact contract.

pub mod state;
