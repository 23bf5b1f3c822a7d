//! The deck's on-disk naming convention: a deck is a directory named by
//! its id, a note lives at `<deck>/<note_id>_<template>.md`, and a note's
//! review log lives at `<deck>/reviews/<note_id>.jsonl`. Fresh note ids
//! join the creation time in Unix seconds with the template name.

use vstd::prelude::*;

use crate::cards::Note;

verus! {

/// The path of the file backing a note.
pub open spec fn spec_note_path(deck_id: Seq<char>, note_id: Seq<char>, template: Seq<char>) -> Seq<
    char,
> {
    deck_id + seq!['/'] + note_id + seq!['_'] + template + seq!['.', 'm', 'd']
}

/// The path of the append-only review log of a note.
pub open spec fn spec_review_path(deck_id: Seq<char>, note_id: Seq<char>) -> Seq<char> {
    deck_id + seq!['/', 'r', 'e', 'v', 'i', 'e', 'w', 's', '/'] + note_id + seq![
        '.',
        'j',
        's',
        'o',
        'n',
        'l',
    ]
}

/// Where a note's content is stored: the deck directory joined with
/// `<note_id>_<template>.md`. This encoding is the durable identity of
/// the note; the card enumerator reverses it.
pub fn get_note_path(note: Note) -> (r: String)
    ensures
        r@ == spec_note_path(note.deck_id@, note.note_id@, note.template@),
{
    let mut r = String::new();
    r.append(note.deck_id.as_str());
    r.append("/");
    r.append(note.note_id.as_str());
    r.append("_");
    r.append(note.template.as_str());
    r.append(".md");
    proof {
        reveal_strlit("/");
        reveal_strlit("_");
        reveal_strlit(".md");
        assert("/"@ =~= seq!['/']);
        assert("_"@ =~= seq!['_']);
        assert(".md"@ =~= seq!['.', 'm', 'd']);
        assert(r@ =~= spec_note_path(note.deck_id@, note.note_id@, note.template@));
    }
    r
}

/// Where a note's review log is stored: the deck's `reviews` directory
/// joined with `<note_id>.jsonl`.
pub fn get_review_path(note: Note) -> (r: String)
    ensures
        r@ == spec_review_path(note.deck_id@, note.note_id@),
{
    let mut r = String::new();
    r.append(note.deck_id.as_str());
    r.append("/reviews/");
    r.append(note.note_id.as_str());
    r.append(".jsonl");
    proof {
        reveal_strlit("/reviews/");
        reveal_strlit(".jsonl");
        assert("/reviews/"@ =~= seq!['/', 'r', 'e', 'v', 'i', 'e', 'w', 's', '/']);
        assert(".jsonl"@ =~= seq!['.', 'j', 's', 'o', 'n', 'l']);
        assert(r@ =~= spec_review_path(note.deck_id@, note.note_id@));
    }
    r
}

/// The decimal digit for a value below ten.
pub open spec fn spec_digit(d: int) -> char {
    if d == 0 {
        '0'
    } else if d == 1 {
        '1'
    } else if d == 2 {
        '2'
    } else if d == 3 {
        '3'
    } else if d == 4 {
        '4'
    } else if d == 5 {
        '5'
    } else if d == 6 {
        '6'
    } else if d == 7 {
        '7'
    } else if d == 8 {
        '8'
    } else {
        '9'
    }
}

/// The decimal notation of a non-negative number, most significant digit
/// first, no leading zeros (a single zero for zero).
pub open spec fn spec_dec(n: int) -> Seq<char>
    decreases n,
{
    if n < 10 {
        seq![spec_digit(n)]
    } else {
        spec_dec(n / 10).push(spec_digit(n % 10))
    }
}

/// The decimal digit character of a value below ten.
fn digit_char(d: u64) -> (r: char)
    requires
        d < 10,
    ensures
        r == spec_digit(d as int),
{
    if d == 0 {
        '0'
    } else if d == 1 {
        '1'
    } else if d == 2 {
        '2'
    } else if d == 3 {
        '3'
    } else if d == 4 {
        '4'
    } else if d == 5 {
        '5'
    } else if d == 6 {
        '6'
    } else if d == 7 {
        '7'
    } else if d == 8 {
        '8'
    } else {
        '9'
    }
}

/// The one-character string of a digit.
fn digit_str(d: u64) -> (r: String)
    requires
        d < 10,
    ensures
        r@ == seq![spec_digit(d as int)],
{
    let c = digit_char(d);
    let r = if c == '0' {
        String::from_str("0")
    } else if c == '1' {
        String::from_str("1")
    } else if c == '2' {
        String::from_str("2")
    } else if c == '3' {
        String::from_str("3")
    } else if c == '4' {
        String::from_str("4")
    } else if c == '5' {
        String::from_str("5")
    } else if c == '6' {
        String::from_str("6")
    } else if c == '7' {
        String::from_str("7")
    } else if c == '8' {
        String::from_str("8")
    } else {
        String::from_str("9")
    };
    proof {
        reveal_strlit("0");
        reveal_strlit("1");
        reveal_strlit("2");
        reveal_strlit("3");
        reveal_strlit("4");
        reveal_strlit("5");
        reveal_strlit("6");
        reveal_strlit("7");
        reveal_strlit("8");
        reveal_strlit("9");
        assert(r@ =~= seq![spec_digit(d as int)]);
    }
    r
}

/// A number in decimal notation.
pub fn u64_to_dec(n: u64) -> (r: String)
    ensures
        r@ == spec_dec(n as int),
    decreases n,
{
    if n < 10 {
        digit_str(n)
    } else {
        let mut r = u64_to_dec(n / 10);
        let d = digit_str(n % 10);
        r.append(d.as_str());
        proof {
            assert(r@ =~= spec_dec((n / 10) as int).push(spec_digit((n % 10) as int)));
        }
        r
    }
}

/// A fresh note id: the creation time in Unix seconds joined with the
/// template name by an underscore.
pub fn make_note_id(unix_secs: u64, template: &str) -> (r: String)
    ensures
        r@ == spec_dec(unix_secs as int) + seq!['_'] + template@,
{
    let mut r = u64_to_dec(unix_secs);
    r.append("_");
    r.append(template);
    proof {
        reveal_strlit("_");
        assert("_"@ =~= seq!['_']);
        assert(r@ =~= spec_dec(unix_secs as int) + seq!['_'] + template@);
    }
    r
}

} // verus!
