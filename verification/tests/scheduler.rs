use cardbox::cards::Card;
use cardbox::cards::CardState;
use cardbox::cards::ReviewScore;
use cardbox::schedule::score_card;

fn test_card(interval: u32, ease: u32, steps: u32, state: CardState) -> Card {
    Card {
        note_id: String::from("test"),
        card_num: 1,
        interval,
        ease,
        steps,
        template: String::from("basic"),
        due: Some(1_700_000_000),
        deck_id: String::from("test"),
        state,
    }
}

const DAY: i64 = 86400;
const MINUTE: i64 = 60;

#[test]
fn new_card_scored_easy() {
    let card = test_card(1, 250, 0, CardState::New);
    let time: i64 = 1_700_000_000;
    let review = score_card(card, time, ReviewScore::Easy);
    assert_eq!(review.state, CardState::Graduated, "Review card state doesn't match");
    assert_eq!(review.due - time, 4 * DAY, "Duration to next review doesn't match");
    assert_eq!(review.interval, 4, "Interval doesn't match");
    assert_eq!(review.ease, 250, "Ease factor doesn't match");
    assert_eq!(review.steps, 0, "Review steps don't match");
}

#[test]
fn new_card_scored_again() {
    let card = test_card(1, 250, 0, CardState::New);
    let time: i64 = 1_700_000_000;
    let review = score_card(card, time, ReviewScore::Again);
    assert_eq!(review.state, CardState::New, "Review card state doesn't match");
    assert_eq!(review.due - time, MINUTE, "Duration to next review doesn't match");
    assert_eq!(review.interval, 1, "Interval doesn't match");
    assert_eq!(review.ease, 250, "Ease factor doesn't match");
    assert_eq!(review.steps, 2, "Review steps don't match");
}

#[test]
fn new_card_scored_hard() {
    let card = test_card(1, 250, 0, CardState::New);
    let time: i64 = 1_700_000_000;
    let review = score_card(card, time, ReviewScore::Hard);
    assert_eq!(review.state, CardState::New, "Review card state doesn't match");
    assert_eq!(review.due - time, MINUTE, "Duration to next review doesn't match");
    assert_eq!(review.interval, 1, "Interval doesn't match");
    assert_eq!(review.ease, 250, "Ease factor doesn't match");
    assert_eq!(review.steps, 2, "Review steps don't match");
}

#[test]
fn new_card_scored_good() {
    let time: i64 = 1_700_000_000;

    let card = test_card(1, 250, 0, CardState::New);
    let review = score_card(card, time, ReviewScore::Good);
    assert_eq!(review.state, CardState::Graduated, "Review card state doesn't match");
    assert_eq!(review.due - time, DAY, "Duration to next review doesn't match");
    assert_eq!(review.interval, 1, "Interval doesn't match");
    assert_eq!(review.ease, 250, "Ease factor doesn't match");
    assert_eq!(review.steps, 0, "Review steps don't match");

    let card = test_card(1, 250, 1, CardState::New);
    let review = score_card(card, time, ReviewScore::Good);
    assert_eq!(review.state, CardState::Graduated, "Review card state doesn't match");
    assert_eq!(review.due - time, DAY, "Duration to next review doesn't match");
    assert_eq!(review.interval, 1, "Interval doesn't match");
    assert_eq!(review.ease, 250, "Ease factor doesn't match");
    assert_eq!(review.steps, 0, "Review steps don't match");

    let card = test_card(1, 250, 2, CardState::New);
    let review = score_card(card, time, ReviewScore::Good);
    assert_eq!(review.state, CardState::New, "Review card state doesn't match");
    assert_eq!(review.due - time, MINUTE, "Duration to next review doesn't match");
    assert_eq!(review.interval, 1, "Interval doesn't match");
    assert_eq!(review.ease, 250, "Ease factor doesn't match");
    assert_eq!(review.steps, 1, "Review steps don't match");
}

#[test]
fn easy_review_records_full_outcome() {
    let t: i64 = 1_600_000_000;
    let card = test_card(1, 250, 0, CardState::New);
    let review = score_card(card, t, ReviewScore::Easy);
    assert_eq!(review.note_id, "test");
    assert_eq!(review.card_num, 1);
    assert_eq!(review.interval, 4);
    assert_eq!(review.ease, 250);
    assert_eq!(review.steps, 0);
    assert_eq!(review.state, CardState::Graduated);
    assert_eq!(review.due, t + 4 * DAY);
    assert_eq!(review.last_interval, 1);
    assert_eq!(review.score, ReviewScore::Easy);
}

#[test]
fn non_new_card_passes_through() {
    let t: i64 = 1_700_000_123;
    let card = test_card(7, 210, 3, CardState::Graduated);
    let review = score_card(card, t, ReviewScore::Again);
    assert_eq!(review.state, CardState::Graduated);
    assert_eq!(review.interval, 7);
    assert_eq!(review.ease, 210);
    assert_eq!(review.steps, 3);
    assert_eq!(review.due, t);
    assert_eq!(review.last_interval, 7);
}

#[test]
fn due_time_overflow_falls_back_to_now() {
    let t: i64 = i64::MAX - 10;
    let card = test_card(1, 250, 0, CardState::New);
    let review = score_card(card, t, ReviewScore::Easy);
    assert_eq!(review.due, t);
    assert_eq!(review.state, CardState::Graduated);
    assert_eq!(review.interval, 4);
}
