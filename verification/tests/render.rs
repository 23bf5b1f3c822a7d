use cardbox::fields::Fields;
use cardbox::render::get_card_from_fields;
use cardbox::render::parse_card;
use cardbox::render::preview_note;
use cardbox::render::render_back;
use cardbox::render::render_front;

fn basic_fields() -> Fields {
    let mut fields = Fields::new();
    fields.put(String::from("Front"), String::from("2+2?"));
    fields.put(String::from("Back"), String::from("4"));
    fields
}

#[test]
fn front_face_is_rendered_markdown() {
    let html = render_front(&basic_fields(), String::from("basic"), 1);
    assert_eq!(html, "<p>2+2?</p>\n");
}

#[test]
fn back_face_joins_front_and_back_with_a_break() {
    let html = render_back(&basic_fields(), String::from("basic"), 1);
    assert!(html.contains("2+2?"));
    assert!(html.contains("<hr"));
    assert!(html.contains("4"));
}

#[test]
fn preview_switches_between_faces() {
    let front = preview_note(&basic_fields(), String::from("basic"), 1, false);
    let back = preview_note(&basic_fields(), String::from("basic"), 1, true);
    assert_eq!(front, "<p>2+2?</p>\n");
    assert!(back.contains("<hr"));
    assert_ne!(front, back);
}

#[test]
fn emphasis_markup_is_rendered() {
    let mut fields = Fields::new();
    fields.put(String::from("Front"), String::from("*hi*"));
    let html = render_front(&fields, String::from("basic"), 1);
    assert_eq!(html, "<p><em>hi</em></p>\n");
}

#[test]
fn card_faces_come_from_front_and_back_fields() {
    let card = get_card_from_fields(&basic_fields(), String::from("basic"), 1);
    assert_eq!(card.front, "2+2?");
    assert_eq!(card.back, "4");
}

#[test]
fn missing_fields_degrade_to_empty_content() {
    let card = get_card_from_fields(&Fields::new(), String::from("basic"), 1);
    assert_eq!(card.front, "");
    assert_eq!(card.back, "");
}

#[test]
fn parse_card_reads_faces_from_a_document() {
    let card = parse_card("# Front\n2+2?\n# Back\n4\n", String::from("basic"), 1);
    assert_eq!(card.front, "2+2?");
    assert_eq!(card.back, "4");
}
