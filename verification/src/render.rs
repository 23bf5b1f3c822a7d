//! Display faces of a card: extract the `Front` and `Back` fields of the
//! basic template and render their markdown to HTML.
//!
//! A missing field degrades to empty content rather than failing. The
//! HTML itself comes from an outside renderer behind one trusted
//! wrapper; its output is named, never restated.

use vstd::prelude::*;

use crate::cards::NoteCard;
use crate::fields::Fields;
use crate::fields::FieldEntry;
use crate::fields::spec_get;
use crate::fields::spec_parse;
use crate::fields::parse_note_into_fields;

verus! {

/// The HTML that the markdown renderer produces for a text. The result
/// depends on the text alone; nothing more is assumed of it.
pub uninterp spec fn html_of(md: Seq<char>) -> Seq<char>;

/// Relies on comrak::markdown_to_html with default options: a pure
/// CommonMark renderer whose output is a function of the input text.
#[verifier::external_body]
fn markdown_html(md: &str) -> (r: String)
    ensures
        r@ == html_of(md@),
{
    comrak::markdown_to_html(md, &comrak::Options::default())
}

/// The body under a name, or empty where the field is missing.
pub open spec fn field_or_empty(m: Seq<FieldEntry>, k: Seq<char>) -> Seq<char> {
    match spec_get(m, k) {
        Some(v) => v,
        None => Seq::<char>::empty(),
    }
}

/// The markdown put through the renderer for a card's back: front and
/// back joined by a thematic break.
pub open spec fn spec_back_md(m: Seq<FieldEntry>) -> Seq<char> {
    field_or_empty(m, "Front"@) + "\n\n---\n\n"@ + field_or_empty(m, "Back"@)
}

/// The two faces of a card under the basic template: the `Front` and
/// `Back` fields, an absent field standing in as empty content.
pub fn get_card_from_fields(fields: &Fields, _template: String, _card_num: u32) -> (r: NoteCard)
    ensures
        r.front@ == field_or_empty(fields@, "Front"@),
        r.back@ == field_or_empty(fields@, "Back"@),
{
    let front = match fields.get("Front") {
        Some(v) => v.clone(),
        None => String::new(),
    };
    let back = match fields.get("Back") {
        Some(v) => v.clone(),
        None => String::new(),
    };
    NoteCard { front, back }
}

/// Parse a note document and extract the faces of one of its cards.
pub fn parse_card(md: &str, template: String, card_num: u32) -> (r: NoteCard)
    ensures
        r.front@ == field_or_empty(spec_parse(md@), "Front"@),
        r.back@ == field_or_empty(spec_parse(md@), "Back"@),
{
    let fields = parse_note_into_fields(md);
    get_card_from_fields(&fields, template, card_num)
}

/// The front face rendered to HTML.
pub fn render_front(fields: &Fields, _template: String, _card_num: u32) -> (r: String)
    ensures
        r@ == html_of(field_or_empty(fields@, "Front"@)),
{
    let front = match fields.get("Front") {
        Some(v) => v.clone(),
        None => String::new(),
    };
    markdown_html(front.as_str())
}

/// Front and back rendered to HTML, joined by a thematic break.
pub fn render_back(fields: &Fields, template: String, card_num: u32) -> (r: String)
    ensures
        r@ == html_of(spec_back_md(fields@)),
{
    let card = get_card_from_fields(fields, template, card_num);
    let mut md = card.front;
    md.append("\n\n---\n\n");
    md.append(card.back.as_str());
    markdown_html(md.as_str())
}

/// Render one face of a card from its fields: the back face joins front
/// and back, the front face stands alone.
pub fn preview_note(fields: &Fields, template: String, card_num: u32, show_back: bool) -> (r:
    String)
    ensures
        show_back ==> r@ == html_of(spec_back_md(fields@)),
        !show_back ==> r@ == html_of(field_or_empty(fields@, "Front"@)),
{
    if show_back {
        render_back(fields, template, card_num)
    } else {
        render_front(fields, template, card_num)
    }
}

} // verus!
