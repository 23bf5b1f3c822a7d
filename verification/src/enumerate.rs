//! The card enumerator: turns the filenames found in a deck directory
//! back into notes and cards, and answers the due-card query.
//!
//! A filename `<note_id>_<template>.md` splits at its first underscore;
//! a capture that comes out empty falls back to the literal `basic`, and
//! a name that does not end in `.md` is skipped. Every scanned card is
//! fresh: never scheduled (`due = None`), so it is due immediately.

use vstd::prelude::*;

use crate::cards::Card;
use crate::cards::CardState;
use crate::cards::CardView;
use crate::cards::Note;
use crate::cards::NoteView;
use crate::text::views;

verus! {

/// The position of the first underscore, or the length if none.
pub open spec fn first_uscore(s: Seq<char>) -> int
    decreases s.len(),
{
    if s.len() == 0 {
        0
    } else if s[0] == '_' {
        0
    } else {
        1 + first_uscore(s.drop_first())
    }
}

/// The scan that finds the first underscore matches `first_uscore`.
proof fn lemma_first_uscore_at(s: Seq<char>, i: int)
    requires
        0 <= i <= s.len(),
        forall|j: int| 0 <= j < i ==> s[j] != '_',
        i < s.len() ==> s[i] == '_',
    ensures
        first_uscore(s) == i,
    decreases i,
{
    if i == 0 {
    } else {
        lemma_first_uscore_at(s.drop_first(), i - 1);
    }
}

/// Whether a filename carries the note extension.
pub open spec fn ends_with_md(name: Seq<char>) -> bool {
    name.len() >= 3 && name.subrange(name.len() - 3, name.len() as int) == seq!['.', 'm', 'd']
}

/// Split `<note_id>_<template>.md` into the note id and the template.
/// A name without the extension does not split; an empty capture falls
/// back to `basic`.
pub open spec fn spec_split_filename(name: Seq<char>) -> Option<(Seq<char>, Seq<char>)> {
    if !ends_with_md(name) {
        None
    } else {
        let stem = name.take(name.len() - 3);
        let i = first_uscore(stem);
        let raw_id = stem.take(i);
        let raw_t = if i < stem.len() {
            stem.skip(i + 1)
        } else {
            Seq::<char>::empty()
        };
        Some(
            (
                if raw_id.len() == 0 {
                    "basic"@
                } else {
                    raw_id
                },
                if raw_t.len() == 0 {
                    "basic"@
                } else {
                    raw_t
                },
            ),
        )
    }
}

/// Split a filename into note id and template, or nothing where the
/// name does not parse.
pub fn parse_filename(name: &str) -> (r: Option<(String, String)>)
    ensures
        match r {
            Some(p) => spec_split_filename(name@) == Some((p.0@, p.1@)),
            None => spec_split_filename(name@) == None::<(Seq<char>, Seq<char>)>,
        },
{
    let n = name.unicode_len();
    if n < 3 || name.get_char(n - 3) != '.' || name.get_char(n - 2) != 'm' || name.get_char(
        n - 1,
    ) != 'd' {
        proof {
            assert(ends_with_md(name@) ==> name@.subrange(name@.len() - 3, name@.len() as int)[0]
                == '.' && name@.subrange(name@.len() - 3, name@.len() as int)[1] == 'm'
                && name@.subrange(name@.len() - 3, name@.len() as int)[2] == 'd');
        }
        return None;
    }
    let m = n - 3;
    proof {
        assert(name@.subrange(name@.len() - 3, name@.len() as int) =~= seq!['.', 'm', 'd']);
        assert(ends_with_md(name@));
    }
    let mut i: usize = 0;
    while i < m && name.get_char(i) != '_'
        invariant
            0 <= i <= m,
            m + 3 == n == name@.len(),
            forall|j: int| 0 <= j < i ==> name@[j] != '_',
        decreases m - i,
    {
        i = i + 1;
    }
    let ghost stem = name@.take(m as int);
    proof {
        assert(forall|j: int| 0 <= j < i ==> stem[j] != '_');
        assert(i < m ==> stem[i as int] == '_');
        lemma_first_uscore_at(stem, i as int);
    }
    let id = if i == 0 {
        String::from_str("basic")
    } else {
        String::from_str(name.substring_char(0, i))
    };
    proof {
        assert(stem.take(i as int) =~= name@.subrange(0, i as int));
    }
    let t = if i >= m || i + 1 == m {
        String::from_str("basic")
    } else {
        String::from_str(name.substring_char(i + 1, m))
    };
    proof {
        if i < m {
            assert(stem.skip(i + 1) =~= name@.subrange(i + 1, m as int));
        }
    }
    Some((id, t))
}

/// The views of a sequence of notes.
pub open spec fn note_views(s: Seq<Note>) -> Seq<NoteView> {
    s.map_values(|n: Note| n@)
}

/// The views of a sequence of cards.
pub open spec fn card_views(s: Seq<Card>) -> Seq<CardView> {
    s.map_values(|c: Card| c@)
}

/// The notes of a deck, as read off a list of filenames: one note per
/// name that splits, in order; other names are skipped.
pub open spec fn spec_notes_from(deck: Seq<char>, names: Seq<Seq<char>>) -> Seq<NoteView>
    decreases names.len(),
{
    if names.len() == 0 {
        Seq::<NoteView>::empty()
    } else {
        spec_notes_from(deck, names.drop_last()) + match spec_split_filename(names.last()) {
            None => Seq::<NoteView>::empty(),
            Some(p) => seq![NoteView { note_id: p.0, deck_id: deck, template: p.1 }],
        }
    }
}

/// The fresh card a scan derives from one filename, if the name splits:
/// never scheduled, one card per note, basic template.
pub open spec fn spec_scan_card(deck: Seq<char>, name: Seq<char>) -> Option<CardView> {
    match spec_split_filename(name) {
        None => None,
        Some(p) => Some(
            CardView {
                note_id: p.0,
                deck_id: deck,
                card_num: 1,
                interval: 100,
                due: None,
                ease: 200,
                state: CardState::New,
                steps: 0,
                template: "basic"@,
            },
        ),
    }
}

/// The cards of a deck, as read off a list of filenames.
pub open spec fn spec_cards_from(deck: Seq<char>, names: Seq<Seq<char>>) -> Seq<CardView>
    decreases names.len(),
{
    if names.len() == 0 {
        Seq::<CardView>::empty()
    } else {
        spec_cards_from(deck, names.drop_last()) + match spec_scan_card(deck, names.last()) {
            None => Seq::<CardView>::empty(),
            Some(c) => seq![c],
        }
    }
}

/// Whether a card is due at `now`: never scheduled means due immediately,
/// otherwise its due time must lie in the past.
pub open spec fn is_due(due: Option<i64>, now: i64) -> bool {
    match due {
        None => true,
        Some(d) => d < now,
    }
}

/// The cards due at `now`, in scan order.
pub open spec fn spec_filter_due(cards: Seq<CardView>, now: i64) -> Seq<CardView>
    decreases cards.len(),
{
    if cards.len() == 0 {
        Seq::<CardView>::empty()
    } else {
        spec_filter_due(cards.drop_last(), now) + if is_due(cards.last().due, now) {
            seq![cards.last()]
        } else {
            Seq::<CardView>::empty()
        }
    }
}

/// Derive a deck's notes from the filenames found in its directory.
pub fn notes_from_filenames(deck_id: &str, names: &Vec<String>) -> (r: Vec<Note>)
    ensures
        note_views(r@) == spec_notes_from(deck_id@, views(names@)),
{
    let mut r: Vec<Note> = Vec::new();
    let mut i: usize = 0;
    proof {
        assert(views(names@).take(0) =~~= Seq::<Seq<char>>::empty());
        assert(note_views(r@) =~~= spec_notes_from(deck_id@, views(names@).take(0)));
    }
    while i < names.len()
        invariant
            i <= names@.len(),
            note_views(r@) == spec_notes_from(deck_id@, views(names@).take(i as int)),
        decreases names@.len() - i,
    {
        let ghost pre = views(names@).take(i as int);
        match parse_filename(names[i].as_str()) {
            None => {
                proof {
                    assert(views(names@).take(i + 1).drop_last() =~~= pre);
                    assert(views(names@).take(i + 1).last() == names@[i as int]@);
                    assert(note_views(r@) + Seq::<NoteView>::empty() =~~= note_views(r@));
                }
            },
            Some(p) => {
                let (id, t) = p;
                r.push(Note { note_id: id, deck_id: String::from_str(deck_id), template: t });
                proof {
                    assert(views(names@).take(i + 1).drop_last() =~~= pre);
                    assert(views(names@).take(i + 1).last() == names@[i as int]@);
                    assert(note_views(r@) =~~= note_views(r@.drop_last()) + seq![
                        r@.last()@,
                    ]);
                }
            },
        }
        i = i + 1;
    }
    proof {
        assert(views(names@).take(names@.len() as int) =~~= views(names@));
    }
    r
}

/// Derive a deck's cards from the filenames found in its directory:
/// every scanned card is fresh and unscheduled.
pub fn cards_from_filenames(deck_id: &str, names: &Vec<String>) -> (r: Vec<Card>)
    ensures
        card_views(r@) == spec_cards_from(deck_id@, views(names@)),
{
    let mut r: Vec<Card> = Vec::new();
    let mut i: usize = 0;
    proof {
        assert(views(names@).take(0) =~~= Seq::<Seq<char>>::empty());
        assert(card_views(r@) =~~= spec_cards_from(deck_id@, views(names@).take(0)));
    }
    while i < names.len()
        invariant
            i <= names@.len(),
            card_views(r@) == spec_cards_from(deck_id@, views(names@).take(i as int)),
        decreases names@.len() - i,
    {
        let ghost pre = views(names@).take(i as int);
        match parse_filename(names[i].as_str()) {
            None => {
                proof {
                    assert(views(names@).take(i + 1).drop_last() =~~= pre);
                    assert(views(names@).take(i + 1).last() == names@[i as int]@);
                    assert(card_views(r@) + Seq::<CardView>::empty() =~~= card_views(r@));
                }
            },
            Some(p) => {
                let (id, _t) = p;
                r.push(
                    Card {
                        note_id: id,
                        deck_id: String::from_str(deck_id),
                        card_num: 1,
                        interval: 100,
                        due: None,
                        ease: 200,
                        state: CardState::New,
                        steps: 0,
                        template: String::from_str("basic"),
                    },
                );
                proof {
                    assert(views(names@).take(i + 1).drop_last() =~~= pre);
                    assert(views(names@).take(i + 1).last() == names@[i as int]@);
                    assert(card_views(r@) =~~= card_views(r@.drop_last()) + seq![
                        r@.last()@,
                    ]);
                }
            },
        }
        i = i + 1;
    }
    proof {
        assert(views(names@).take(names@.len() as int) =~~= views(names@));
    }
    r
}

/// Keep exactly the cards due at `now`, in order.
pub fn filter_due(cards: Vec<Card>, now: i64) -> (r: Vec<Card>)
    ensures
        card_views(r@) == spec_filter_due(card_views(cards@), now),
{
    let mut r: Vec<Card> = Vec::new();
    let mut i: usize = 0;
    proof {
        assert(card_views(cards@).take(0) =~~= Seq::<CardView>::empty());
        assert(card_views(r@) =~~= spec_filter_due(card_views(cards@).take(0), now));
    }
    while i < cards.len()
        invariant
            i <= cards@.len(),
            card_views(r@) == spec_filter_due(card_views(cards@).take(i as int), now),
        decreases cards@.len() - i,
    {
        let ghost pre = card_views(cards@).take(i as int);
        let due = match cards[i].due {
            None => true,
            Some(d) => d < now,
        };
        if due {
            r.push(cards[i].duplicate());
        }
        proof {
            assert(card_views(cards@).take(i + 1).drop_last() =~~= pre);
            assert(card_views(cards@).take(i + 1).last() == cards@[i as int]@);
            if due {
                assert(card_views(r@) =~~= card_views(r@.drop_last()) + seq![r@.last()@]);
            } else {
                assert(card_views(r@) + Seq::<CardView>::empty() =~~= card_views(r@));
            }
        }
        i = i + 1;
    }
    proof {
        assert(card_views(cards@).take(cards@.len() as int) =~~= card_views(cards@));
    }
    r
}

/// The due-card query over a deck's filenames: scan, then filter.
pub fn due_cards_from_filenames(deck_id: &str, names: &Vec<String>, now: i64) -> (r: Vec<Card>)
    ensures
        card_views(r@) == spec_filter_due(spec_cards_from(deck_id@, views(names@)), now),
{
    let cards = cards_from_filenames(deck_id, names);
    filter_due(cards, now)
}

/// Due-filter law: a card that was never scheduled, or whose due time
/// lies in the past, is in the filtered sequence; a card whose due time
/// lies in the future is not; and nothing else gets in.
pub proof fn lemma_due_filter(cards: Seq<CardView>, now: i64)
    ensures
        forall|i: int|
            0 <= i < cards.len() && is_due(#[trigger] cards[i].due, now) ==> spec_filter_due(
                cards,
                now,
            ).contains(cards[i]),
        forall|j: int|
            0 <= j < spec_filter_due(cards, now).len() ==> cards.contains(
                #[trigger] spec_filter_due(cards, now)[j],
            ) && is_due(spec_filter_due(cards, now)[j].due, now),
    decreases cards.len(),
{
    if cards.len() == 0 {
    } else {
        lemma_due_filter(cards.drop_last(), now);
        let f = spec_filter_due(cards, now);
        let fp = spec_filter_due(cards.drop_last(), now);
        assert forall|i: int|
            0 <= i < cards.len() && is_due(#[trigger] cards[i].due, now) implies f.contains(
            cards[i],
        ) by {
            if i < cards.len() - 1 {
                assert(cards.drop_last()[i] == cards[i]);
                assert(fp.contains(cards[i]));
                let w = choose|w: int| 0 <= w < fp.len() && fp[w] == cards[i];
                assert(f[w] == cards[i]);
            } else {
                assert(cards.last() == cards[i]);
                assert(f[f.len() - 1] == cards[i]);
            }
        }
        assert forall|j: int| 0 <= j < f.len() implies cards.contains(#[trigger] f[j]) && is_due(
            f[j].due,
            now,
        ) by {
            if j < fp.len() {
                assert(f[j] == fp[j]);
                let w = choose|w: int| 0 <= w < cards.drop_last().len() && cards.drop_last()[w] == fp[j];
                assert(cards[w] == fp[j]);
            } else {
                assert(f[j] == cards.last());
                assert(cards[cards.len() - 1] == cards.last());
            }
        }
    }
}

} // verus!
