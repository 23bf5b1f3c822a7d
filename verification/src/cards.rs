//! Data model: notes, cards, review records, and the learner's score.
//!
//! A `Note` is durable user content addressed by `(deck_id, note_id,
//! template)`. A `Card` is one reviewable unit derived from a note, carrying
//! scheduling state. A `Review` is the immutable record of one scoring
//! event. Timestamps are Unix seconds held in an `i64`; a `due` of `None`
//! means the card has never been scheduled and is due immediately.

use vstd::prelude::*;

verus! {

/// The learning state of a card.
#[derive(Clone, Copy, Debug, PartialEq, Eq, Structural)]
pub enum CardState {
    /// Never graduated: still in sub-day learning steps.
    New,
    /// Graduated to day-granularity scheduling.
    Graduated,
    /// Regressed after a lapse.
    Relearning,
}

/// The learner's self-graded recall quality, in increasing order.
#[derive(Clone, Copy, Debug, PartialEq, Eq, Structural)]
pub enum ReviewScore {
    Again,
    Hard,
    Good,
    Easy,
}

/// Durable user content: a set of named text fields stored in one file.
#[derive(Clone, Debug)]
pub struct Note {
    pub note_id: String,
    pub deck_id: String,
    pub template: String,
}

/// One reviewable unit derived from a note, with its scheduling state.
#[derive(Clone, Debug)]
pub struct Card {
    pub note_id: String,
    pub deck_id: String,
    pub card_num: u32,
    /// Days until next due once graduated.
    pub interval: u32,
    /// Unix seconds at or after which the card should be shown; `None`
    /// means never reviewed, due immediately.
    pub due: Option<i64>,
    /// Scaled difficulty multiplier (250 = 2.50).
    pub ease: u32,
    pub state: CardState,
    /// Remaining sub-day learning steps before graduation.
    pub steps: u32,
    pub template: String,
}

/// The immutable record of one scoring event.
#[derive(Clone, Debug)]
pub struct Review {
    pub note_id: String,
    pub card_num: u32,
    /// Unix seconds of the next presentation.
    pub due: i64,
    pub interval: u32,
    pub ease: u32,
    /// The interval that was active before this review.
    pub last_interval: u32,
    pub state: CardState,
    pub score: ReviewScore,
    pub steps: u32,
}

/// The two display faces of a card under the basic template.
#[derive(Clone, Debug)]
pub struct NoteCard {
    pub front: String,
    pub back: String,
}

/// Mathematical view of a `Note`: its strings as character sequences.
pub ghost struct NoteView {
    pub note_id: Seq<char>,
    pub deck_id: Seq<char>,
    pub template: Seq<char>,
}

/// Mathematical view of a `Card`.
pub ghost struct CardView {
    pub note_id: Seq<char>,
    pub deck_id: Seq<char>,
    pub card_num: u32,
    pub interval: u32,
    pub due: Option<i64>,
    pub ease: u32,
    pub state: CardState,
    pub steps: u32,
    pub template: Seq<char>,
}

/// Mathematical view of a `Review`.
pub ghost struct ReviewView {
    pub note_id: Seq<char>,
    pub card_num: u32,
    pub due: i64,
    pub interval: u32,
    pub ease: u32,
    pub last_interval: u32,
    pub state: CardState,
    pub score: ReviewScore,
    pub steps: u32,
}

impl View for Note {
    type V = NoteView;

    open spec fn view(&self) -> NoteView {
        NoteView {
            note_id: self.note_id@,
            deck_id: self.deck_id@,
            template: self.template@,
        }
    }
}

impl View for Card {
    type V = CardView;

    open spec fn view(&self) -> CardView {
        CardView {
            note_id: self.note_id@,
            deck_id: self.deck_id@,
            card_num: self.card_num,
            interval: self.interval,
            due: self.due,
            ease: self.ease,
            state: self.state,
            steps: self.steps,
            template: self.template@,
        }
    }
}

impl View for Review {
    type V = ReviewView;

    open spec fn view(&self) -> ReviewView {
        ReviewView {
            note_id: self.note_id@,
            card_num: self.card_num,
            due: self.due,
            interval: self.interval,
            ease: self.ease,
            last_interval: self.last_interval,
            state: self.state,
            score: self.score,
            steps: self.steps,
        }
    }
}

impl From<Card> for Note {
    /// Locate the backing note of a card: keep the shared identity,
    /// drop the scheduling fields.
    fn from(card: Card) -> (n: Note) {
        Note {
            note_id: card.note_id,
            deck_id: card.deck_id,
            template: card.template,
        }
    }
}

impl vstd::std_specs::convert::FromSpecImpl<Card> for Note {
    open spec fn obeys_from_spec() -> bool {
        true
    }

    open spec fn from_spec(card: Card) -> Note {
        Note {
            note_id: card.note_id,
            deck_id: card.deck_id,
            template: card.template,
        }
    }
}

impl Card {
    /// The view of the fresh card every scan hands out: never scheduled,
    /// one card per note, basic template.
    pub open spec fn default_view() -> CardView {
        CardView {
            note_id: "test"@,
            deck_id: "test"@,
            card_num: 1,
            interval: 1,
            due: None,
            ease: 250,
            state: CardState::New,
            steps: 0,
            template: "basic"@,
        }
    }
}

impl Card {
    /// A copy that is its own owner, equal to this card field for field.
    pub fn duplicate(&self) -> (c: Card)
        ensures
            c@ == self@,
    {
        Card {
            note_id: self.note_id.clone(),
            deck_id: self.deck_id.clone(),
            card_num: self.card_num,
            interval: self.interval,
            due: self.due,
            ease: self.ease,
            state: self.state,
            steps: self.steps,
            template: self.template.clone(),
        }
    }
}

impl Default for Card {
    fn default() -> (c: Card)
        ensures
            c@ == Card::default_view(),
    {
        Card {
            note_id: String::from_str("test"),
            deck_id: String::from_str("test"),
            card_num: 1,
            interval: 1,
            due: None,
            ease: 250,
            state: CardState::New,
            steps: 0,
            template: String::from_str("basic"),
        }
    }
}

} // verus!
