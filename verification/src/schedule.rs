//! The scheduler: a pure function from (card state, score, time) to the
//! `Review` outcome that records the card's next interval, state and due
//! time.
//!
//! Transitions are defined out of `New`; every other state passes through
//! unchanged with `due = now`. Due-time arithmetic is Unix-second addition;
//! when an addition would leave the representable range, the due time falls
//! back to `now` rather than failing.

use vstd::prelude::*;

use crate::cards::Card;
use crate::cards::CardState;
use crate::cards::CardView;
use crate::cards::Review;
use crate::cards::ReviewScore;
use crate::cards::ReviewView;

verus! {

/// Interval, in days, granted when a new card is scored Easy.
pub const EASY_INTERVAL: u32 = 4;

/// Interval, in days, granted when a new card graduates through Good.
pub const GRADUATION_INTERVAL: u32 = 1;

/// Learning steps assigned when a new card is scored Again or Hard.
pub const AGAIN_STEPS: u32 = 2;

/// Seconds in one day.
pub const SECS_PER_DAY: i64 = 86400;

/// Seconds in one minute.
pub const SECS_PER_MINUTE: i64 = 60;

/// Saturating-style timestamp addition: the sum when it fits in `i64`,
/// otherwise the unmodified base time.
pub open spec fn spec_add_secs(t: i64, d: int) -> i64 {
    if i64::MIN <= t + d <= i64::MAX {
        (t + d) as i64
    } else {
        t
    }
}

/// The scheduling state machine, as a function on views.
pub open spec fn spec_score(c: CardView, now: i64, score: ReviewScore) -> ReviewView {
    let base = ReviewView {
        note_id: c.note_id,
        card_num: c.card_num,
        due: now,
        interval: c.interval,
        ease: c.ease,
        last_interval: c.interval,
        state: c.state,
        score: score,
        steps: c.steps,
    };
    match c.state {
        CardState::New => match score {
            ReviewScore::Easy => ReviewView {
                state: CardState::Graduated,
                interval: EASY_INTERVAL,
                due: spec_add_secs(now, (EASY_INTERVAL as i64) * SECS_PER_DAY),
                steps: 0,
                ..base
            },
            ReviewScore::Again => ReviewView {
                steps: AGAIN_STEPS,
                due: spec_add_secs(now, SECS_PER_MINUTE as int),
                ..base
            },
            ReviewScore::Hard => ReviewView {
                steps: AGAIN_STEPS,
                due: spec_add_secs(now, SECS_PER_MINUTE as int),
                ..base
            },
            ReviewScore::Good => if c.steps <= 1 {
                ReviewView {
                    state: CardState::Graduated,
                    steps: 0,
                    due: spec_add_secs(now, (GRADUATION_INTERVAL as i64) * SECS_PER_DAY),
                    ..base
                }
            } else {
                ReviewView { steps: (c.steps - 1) as u32, due: spec_add_secs(now, SECS_PER_MINUTE as int), ..base }
            },
        },
        _ => base,
    }
}

/// Timestamp addition that falls back to the base time when the sum
/// would overflow.
pub fn add_secs(t: i64, d: i64) -> (r: i64)
    ensures
        r == spec_add_secs(t, d as int),
{
    if d >= 0 {
        if t <= i64::MAX - d {
            t + d
        } else {
            t
        }
    } else {
        if t >= i64::MIN - d {
            t + d
        } else {
            t
        }
    }
}

/// Score a card at the given time: a total function, no I/O, no failure.
/// The returned `Review` is exactly what the transition table of
/// `spec_score` prescribes.
pub fn score_card(card: Card, time: i64, score: ReviewScore) -> (r: Review)
    ensures
        r@ == spec_score(card@, time, score),
{
    let mut review = Review {
        note_id: card.note_id,
        card_num: card.card_num,
        due: time,
        interval: card.interval,
        ease: card.ease,
        last_interval: card.interval,
        state: card.state,
        score: score,
        steps: card.steps,
    };
    match card.state {
        CardState::New => match score {
            ReviewScore::Easy => {
                review.state = CardState::Graduated;
                review.interval = EASY_INTERVAL;
                review.due = add_secs(time, (EASY_INTERVAL as i64) * SECS_PER_DAY);
                review.steps = 0;
                review
            },
            ReviewScore::Again => {
                review.steps = AGAIN_STEPS;
                review.due = add_secs(time, SECS_PER_MINUTE);
                review
            },
            ReviewScore::Hard => {
                review.steps = AGAIN_STEPS;
                review.due = add_secs(time, SECS_PER_MINUTE);
                review
            },
            ReviewScore::Good => {
                if card.steps <= 1 {
                    review.state = CardState::Graduated;
                    review.steps = 0;
                    review.due = add_secs(time, (GRADUATION_INTERVAL as i64) * SECS_PER_DAY);
                } else {
                    review.due = add_secs(time, SECS_PER_MINUTE);
                    review.steps = review.steps - 1;
                }
                review
            },
        },
        _ => review,
    }
}

/// Law: a new card scored Easy graduates with interval `EASY_INTERVAL`,
/// due exactly four days out, and steps reset to zero; ease, identity and
/// the recorded previous interval are untouched.
pub proof fn lemma_new_scored_easy(c: CardView, now: i64)
    requires
        c.state == CardState::New,
        now + (EASY_INTERVAL as i64) * SECS_PER_DAY <= i64::MAX,
    ensures
        ({
            let r = spec_score(c, now, ReviewScore::Easy);
            &&& r.state == CardState::Graduated
            &&& r.interval == EASY_INTERVAL
            &&& r.due == now + (EASY_INTERVAL as i64) * SECS_PER_DAY
            &&& r.steps == 0
            &&& r.ease == c.ease
            &&& r.last_interval == c.interval
            &&& r.note_id == c.note_id
            &&& r.card_num == c.card_num
        }),
{
}

/// Law: a new card scored Again or Hard stays `New`, gets exactly
/// `AGAIN_STEPS` steps, is due one minute out, and keeps its interval.
pub proof fn lemma_new_scored_again_or_hard(c: CardView, now: i64, score: ReviewScore)
    requires
        c.state == CardState::New,
        score == ReviewScore::Again || score == ReviewScore::Hard,
        now + SECS_PER_MINUTE <= i64::MAX,
    ensures
        ({
            let r = spec_score(c, now, score);
            &&& r.state == CardState::New
            &&& r.steps == AGAIN_STEPS
            &&& r.due == now + SECS_PER_MINUTE
            &&& r.interval == c.interval
            &&& r.ease == c.ease
            &&& r.last_interval == c.interval
        }),
{
}

/// Law: a new card with at most one step left scored Good graduates,
/// steps reset to zero, due `GRADUATION_INTERVAL` days out, interval
/// unchanged.
pub proof fn lemma_new_scored_good_graduates(c: CardView, now: i64)
    requires
        c.state == CardState::New,
        c.steps <= 1,
        now + (GRADUATION_INTERVAL as i64) * SECS_PER_DAY <= i64::MAX,
    ensures
        ({
            let r = spec_score(c, now, ReviewScore::Good);
            &&& r.state == CardState::Graduated
            &&& r.steps == 0
            &&& r.due == now + (GRADUATION_INTERVAL as i64) * SECS_PER_DAY
            &&& r.interval == c.interval
            &&& r.ease == c.ease
            &&& r.last_interval == c.interval
        }),
{
}

/// Law: a new card with more than one step left scored Good stays `New`,
/// its steps decrement by exactly one, and it is due one minute out.
pub proof fn lemma_new_scored_good_steps_down(c: CardView, now: i64)
    requires
        c.state == CardState::New,
        c.steps > 1,
        now + SECS_PER_MINUTE <= i64::MAX,
    ensures
        ({
            let r = spec_score(c, now, ReviewScore::Good);
            &&& r.state == CardState::New
            &&& r.steps == c.steps - 1
            &&& r.due == now + SECS_PER_MINUTE
            &&& r.interval == c.interval
            &&& r.ease == c.ease
            &&& r.last_interval == c.interval
        }),
{
}

/// Every review records the pre-review interval, whatever the state and
/// score; and a card in any state other than `New` passes through with its
/// scheduling fields unchanged and `due = now`.
pub proof fn lemma_passthrough(c: CardView, now: i64, score: ReviewScore)
    ensures
        spec_score(c, now, score).last_interval == c.interval,
        c.state != CardState::New ==> ({
            let r = spec_score(c, now, score);
            &&& r.state == c.state
            &&& r.interval == c.interval
            &&& r.ease == c.ease
            &&& r.steps == c.steps
            &&& r.due == now
        }),
{
}

} // verus!
