use cardbox::cards::Card;
use cardbox::cards::CardState;
use cardbox::cards::Note;
use cardbox::enumerate::cards_from_filenames;
use cardbox::enumerate::due_cards_from_filenames;
use cardbox::enumerate::filter_due;
use cardbox::enumerate::notes_from_filenames;
use cardbox::enumerate::parse_filename;
use cardbox::paths::get_note_path;
use cardbox::paths::get_review_path;
use cardbox::paths::make_note_id;
use cardbox::paths::u64_to_dec;

#[test]
fn filename_splits_into_id_and_template() {
    let (id, t) = parse_filename("1700000000_basic.md").expect("should split");
    assert_eq!(id, "1700000000");
    assert_eq!(t, "basic");
    let (id, t) = parse_filename("x_y_z.md").expect("should split");
    assert_eq!(id, "x");
    assert_eq!(t, "y_z");
}

#[test]
fn filename_without_extension_is_skipped() {
    assert!(parse_filename("notes.txt").is_none());
    assert!(parse_filename("md").is_none());
    assert!(parse_filename("").is_none());
}

#[test]
fn empty_captures_fall_back_to_basic() {
    let (id, t) = parse_filename("_cloze.md").expect("should split");
    assert_eq!(id, "basic");
    assert_eq!(t, "cloze");
    let (id, t) = parse_filename("123_.md").expect("should split");
    assert_eq!(id, "123");
    assert_eq!(t, "basic");
    let (id, t) = parse_filename("plain.md").expect("should split");
    assert_eq!(id, "plain");
    assert_eq!(t, "basic");
    let (id, t) = parse_filename(".md").expect("should split");
    assert_eq!(id, "basic");
    assert_eq!(t, "basic");
}

#[test]
fn notes_come_from_matching_filenames_in_order() {
    let names = vec![
        String::from("100_basic.md"),
        String::from("skipme.txt"),
        String::from("200_cloze.md"),
    ];
    let notes = notes_from_filenames("spanish", &names);
    assert_eq!(notes.len(), 2);
    assert_eq!(notes[0].note_id, "100");
    assert_eq!(notes[0].deck_id, "spanish");
    assert_eq!(notes[0].template, "basic");
    assert_eq!(notes[1].note_id, "200");
    assert_eq!(notes[1].template, "cloze");
}

#[test]
fn scanned_cards_are_fresh() {
    let names = vec![String::from("100_basic.md")];
    let cards = cards_from_filenames("spanish", &names);
    assert_eq!(cards.len(), 1);
    let c = &cards[0];
    assert_eq!(c.note_id, "100");
    assert_eq!(c.deck_id, "spanish");
    assert_eq!(c.card_num, 1);
    assert_eq!(c.interval, 100);
    assert_eq!(c.ease, 200);
    assert_eq!(c.due, None);
    assert_eq!(c.state, CardState::New);
    assert_eq!(c.steps, 0);
    assert_eq!(c.template, "basic");
}

fn card_due(due: Option<i64>) -> Card {
    Card {
        note_id: String::from("n"),
        deck_id: String::from("d"),
        card_num: 1,
        interval: 1,
        due,
        ease: 250,
        state: CardState::New,
        steps: 0,
        template: String::from("basic"),
    }
}

#[test]
fn due_filter_keeps_unscheduled_and_past_cards() {
    let now: i64 = 1_000_000;
    let cards = vec![card_due(None), card_due(Some(999_999)), card_due(Some(1_000_001))];
    let due = filter_due(cards, now);
    assert_eq!(due.len(), 2);
    assert_eq!(due[0].due, None);
    assert_eq!(due[1].due, Some(999_999));
}

#[test]
fn due_filter_excludes_card_due_exactly_now() {
    let now: i64 = 500;
    let due = filter_due(vec![card_due(Some(500))], now);
    assert_eq!(due.len(), 0);
}

#[test]
fn every_scanned_card_is_due() {
    let names = vec![String::from("100_basic.md"), String::from("200_basic.md")];
    let due = due_cards_from_filenames("d", &names, 0);
    assert_eq!(due.len(), 2);
}

#[test]
fn note_path_follows_the_layout() {
    let note = Note {
        note_id: String::from("1700000000_basic"),
        deck_id: String::from("spanish"),
        template: String::from("basic"),
    };
    assert_eq!(get_note_path(note), "spanish/1700000000_basic_basic.md");
}

#[test]
fn review_path_follows_the_layout() {
    let note = Note {
        note_id: String::from("1700000000_basic"),
        deck_id: String::from("spanish"),
        template: String::from("basic"),
    };
    assert_eq!(get_review_path(note), "spanish/reviews/1700000000_basic.jsonl");
}

#[test]
fn decimal_rendering_is_exact() {
    assert_eq!(u64_to_dec(0), "0");
    assert_eq!(u64_to_dec(7), "7");
    assert_eq!(u64_to_dec(10), "10");
    assert_eq!(u64_to_dec(1_700_000_000), "1700000000");
    assert_eq!(u64_to_dec(u64::MAX), "18446744073709551615");
}

#[test]
fn note_id_joins_time_and_template() {
    assert_eq!(make_note_id(1_700_000_000, "basic"), "1700000000_basic");
}
