//! Core of a spaced-repetition flashcard library: the note/card/review data
//! model, the scheduling state machine, the heading-delimited field codec,
//! the deck path conventions, and the due-card query.

pub mod cards;
pub mod enumerate;
pub mod fields;
pub mod paths;
pub mod render;
pub mod roundtrip;
pub mod schedule;
pub mod text;

pub use cards::Card;
pub use cards::CardState;
pub use cards::Note;
pub use cards::NoteCard;
pub use cards::Review;
pub use cards::ReviewScore;
