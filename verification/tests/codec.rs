use cardbox::fields::Fields;
use cardbox::fields::get_note_md;
use cardbox::fields::parse_note_into_fields;

fn body(fields: &Fields, name: &str) -> String {
    fields.get(name).expect("field missing").clone()
}

#[test]
fn basic_fields_serialize() {
    let mut fields = Fields::new();
    fields.put(String::from("Front"), String::from("2+2?"));
    fields.put(String::from("Back"), String::from("4"));
    assert_eq!(get_note_md(&fields), "# Front\n2+2?\n# Back\n4\n");
}

#[test]
fn basic_fields_parse() {
    let fields = parse_note_into_fields("# Front\n2+2?\n# Back\n4\n");
    assert_eq!(fields.len(), 2);
    assert_eq!(body(&fields, "Front"), "2+2?");
    assert_eq!(body(&fields, "Back"), "4");
}

#[test]
fn serialize_parse_round_trip() {
    let mut fields = Fields::new();
    fields.put(String::from("Front"), String::from("a question"));
    fields.put(String::from("Back"), String::from("line one\nline two"));
    fields.put(String::from("Extra"), String::from("x"));
    let reparsed = parse_note_into_fields(get_note_md(&fields).as_str());
    assert_eq!(reparsed.len(), 3);
    assert_eq!(body(&reparsed, "Front"), "a question");
    assert_eq!(body(&reparsed, "Back"), "line one\nline two");
    assert_eq!(body(&reparsed, "Extra"), "x");
}

#[test]
fn normalization_is_idempotent() {
    let messy = "ignored preamble\n# Front\n\n  2+2?  \n\n# Back\n4\n\n\n";
    let once = get_note_md(&parse_note_into_fields(messy));
    let twice = get_note_md(&parse_note_into_fields(once.as_str()));
    assert_eq!(once, twice);
}

#[test]
fn empty_document_yields_no_fields() {
    assert_eq!(parse_note_into_fields("").len(), 0);
    assert_eq!(parse_note_into_fields("no headings\nat all").len(), 0);
}

#[test]
fn text_before_first_heading_is_dropped() {
    let fields = parse_note_into_fields("preamble\n# Front\nhi");
    assert_eq!(fields.len(), 1);
    assert_eq!(body(&fields, "Front"), "hi");
}

#[test]
fn duplicate_heading_overwrites_in_place() {
    let fields = parse_note_into_fields("# A\nfirst\n# B\nmiddle\n# A\nsecond\n");
    assert_eq!(fields.len(), 2);
    assert_eq!(body(&fields, "A"), "second");
    assert_eq!(body(&fields, "B"), "middle");
    // The overwritten field keeps its place in mapping order.
    assert_eq!(get_note_md(&fields), "# A\nsecond\n# B\nmiddle\n");
}

#[test]
fn bodies_are_joined_and_trimmed() {
    let fields = parse_note_into_fields("# Front\n\n  one\ntwo  \n\n# Back\n\t4\r\n");
    assert_eq!(body(&fields, "Front"), "one\ntwo");
    assert_eq!(body(&fields, "Back"), "4");
}

#[test]
fn heading_needs_hash_and_space_at_line_start() {
    let fields = parse_note_into_fields("# Front\n#NotAHeading\nrest\n# Back\nb");
    assert_eq!(fields.len(), 2);
    assert_eq!(body(&fields, "Front"), "#NotAHeading\nrest");
    assert_eq!(body(&fields, "Back"), "b");
}

#[test]
fn put_and_get_work_like_a_mapping() {
    let mut fields = Fields::new();
    assert!(fields.get("Front").is_none());
    fields.put(String::from("Front"), String::from("a"));
    fields.put(String::from("Front"), String::from("b"));
    assert_eq!(fields.len(), 1);
    assert_eq!(body(&fields, "Front"), "b");
}
