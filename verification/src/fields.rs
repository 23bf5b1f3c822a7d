//! The field codec: parses a heading-delimited text into a mapping from
//! field name to field body, and serializes the mapping back.
//!
//! A line beginning with `"# "` introduces a field named by the rest of
//! the line; the lines up to the next heading form the field's body,
//! joined by newlines and trimmed of surrounding whitespace. A repeated
//! heading overwrites the earlier value in place. Parsing never fails:
//! text before the first heading is dropped, and a document with no
//! heading yields an empty mapping.

use vstd::prelude::*;

use crate::text::is_ws;
use crate::text::lines_of;
use crate::text::join_lines;
use crate::text::nl_free;
use crate::text::spec_join;
use crate::text::spec_lines;
use crate::text::spec_trim;
use crate::text::trim_str;
use crate::text::views;

verus! {

/// One field entry: name and body.
pub type FieldEntry = (Seq<char>, Seq<char>);

/// An ordered mapping from field name to field body. Field names are
/// unique; the order records first insertion.
pub struct Fields {
    pub entries: Vec<(String, String)>,
}

impl View for Fields {
    type V = Seq<FieldEntry>;

    open spec fn view(&self) -> Seq<FieldEntry> {
        self.entries@.map_values(|p: (String, String)| (p.0@, p.1@))
    }
}

/// Field names are unique.
pub open spec fn unique_keys(m: Seq<FieldEntry>) -> bool {
    forall|i: int, j: int| 0 <= i < j < m.len() ==> m[i].0 != m[j].0
}

/// The value under a name, if any: the first entry with that name.
pub open spec fn spec_get(m: Seq<FieldEntry>, k: Seq<char>) -> Option<Seq<char>>
    decreases m.len(),
{
    if m.len() == 0 {
        None
    } else if m[0].0 == k {
        Some(m[0].1)
    } else {
        spec_get(m.drop_first(), k)
    }
}

/// Insert or overwrite: replaces the value of an existing name in place,
/// else appends the new entry at the end.
pub open spec fn spec_put(m: Seq<FieldEntry>, k: Seq<char>, v: Seq<char>) -> Seq<FieldEntry>
    decreases m.len(),
{
    if m.len() == 0 {
        seq![(k, v)]
    } else if m[0].0 == k {
        seq![(k, v)] + m.drop_first()
    } else {
        seq![m[0]] + spec_put(m.drop_first(), k, v)
    }
}

/// A heading line: a hash mark, a space, then the field name.
pub open spec fn is_heading(line: Seq<char>) -> bool {
    line.len() >= 2 && line[0] == '#' && line[1] == ' '
}

/// The name a heading line introduces.
pub open spec fn heading_name(line: Seq<char>) -> Seq<char> {
    line.skip(2)
}

/// The view of an optional field name.
pub open spec fn opt_view(c: Option<String>) -> Option<Seq<char>> {
    match c {
        Some(s) => Some(s@),
        None => None,
    }
}

/// Close the field under construction: no field open means nothing to add.
pub open spec fn spec_flush(
    out: Seq<FieldEntry>,
    cur: Option<Seq<char>>,
    acc: Seq<Seq<char>>,
) -> Seq<FieldEntry> {
    match cur {
        None => out,
        Some(name) => spec_put(out, name, spec_trim(spec_join(acc))),
    }
}

/// One linear pass over the lines: headings flush and open fields, other
/// lines accumulate into the open field's body.
pub open spec fn spec_parse_lines(
    lines: Seq<Seq<char>>,
    cur: Option<Seq<char>>,
    acc: Seq<Seq<char>>,
    out: Seq<FieldEntry>,
) -> Seq<FieldEntry>
    decreases lines.len(),
{
    if lines.len() == 0 {
        spec_flush(out, cur, acc)
    } else if is_heading(lines[0]) {
        spec_parse_lines(
            lines.drop_first(),
            Some(heading_name(lines[0])),
            Seq::empty(),
            spec_flush(out, cur, acc),
        )
    } else {
        spec_parse_lines(lines.drop_first(), cur, acc.push(lines[0]), out)
    }
}

/// What parsing a document means.
pub open spec fn spec_parse(text: Seq<char>) -> Seq<FieldEntry> {
    spec_parse_lines(spec_lines(text), None, Seq::empty(), Seq::empty())
}

/// What serializing a mapping means: `"# <name>\n<body>\n"` per field,
/// in mapping order.
pub open spec fn spec_serialize(m: Seq<FieldEntry>) -> Seq<char>
    decreases m.len(),
{
    if m.len() == 0 {
        Seq::empty()
    } else {
        seq!['#', ' '] + m[0].0 + seq!['\n'] + m[0].1 + seq!['\n'] + spec_serialize(m.drop_first())
    }
}

impl Fields {
    /// An empty mapping.
    pub fn new() -> (r: Fields)
        ensures
            r@ == Seq::<FieldEntry>::empty(),
    {
        let r = Fields { entries: Vec::new() };
        proof {
            assert(r@ =~= Seq::<FieldEntry>::empty());
        }
        r
    }

    /// How many fields the mapping holds.
    pub fn len(&self) -> (n: usize)
        ensures
            n == self@.len(),
    {
        self.entries.len()
    }

    /// The value stored under `name`, if any.
    pub fn get(&self, name: &str) -> (r: Option<&String>)
        ensures
            match r {
                Some(v) => spec_get(self@, name@) == Some(v@),
                None => spec_get(self@, name@) == None::<Seq<char>>,
            },
    {
        let key = String::from_str(name);
        let mut i: usize = 0;
        proof {
            assert(self@.skip(0) =~~= self@);
        }
        while i < self.entries.len()
            invariant
                i <= self.entries@.len(),
                key@ == name@,
                spec_get(self@, name@) == spec_get(self@.skip(i as int), name@),
            decreases self.entries@.len() - i,
        {
            proof {
                assert(self@.skip(i as int)[0] == self@[i as int]);
                assert(self@.skip(i as int).drop_first() =~= self@.skip(i + 1));
            }
            if self.entries[i].0.eq(&key) {
                return Some(&self.entries[i].1);
            }
            i = i + 1;
        }
        proof {
            assert(self@.skip(self@.len() as int) =~= Seq::<FieldEntry>::empty());
        }
        None
    }

    /// The position of the entry carrying `name`, if any.
    fn find_key(&self, name: &String) -> (r: Option<usize>)
        ensures
            match r {
                Some(j) => j < self@.len() && self@[j as int].0 == name@ && forall|k: int|
                    0 <= k < j ==> self@[k].0 != name@,
                None => forall|k: int| 0 <= k < self@.len() ==> self@[k].0 != name@,
            },
    {
        let mut i: usize = 0;
        while i < self.entries.len()
            invariant
                i <= self.entries@.len(),
                forall|k: int| 0 <= k < i ==> self@[k].0 != name@,
            decreases self.entries@.len() - i,
        {
            if self.entries[i].0.eq(name) {
                return Some(i);
            }
            i = i + 1;
        }
        None
    }

    /// Insert or overwrite the value under `name`.
    pub fn put(&mut self, name: String, value: String)
        ensures
            final(self)@ == spec_put(old(self)@, name@, value@),
    {
        let ghost k = name@;
        let ghost v = value@;
        match self.find_key(&name) {
            Some(j) => {
                self.entries.set(j, (name, value));
                proof {
                    assert(self@ =~~= old(self)@.update(j as int, (k, v)));
                    lemma_put_at(old(self)@, self@, k, v, j as int);
                }
            },
            None => {
                self.entries.push((name, value));
                proof {
                    lemma_put_absent(old(self)@, k, v);
                    assert(self@ =~~= old(self)@.push((k, v)));
                }
            },
        }
    }
}

/// Overwriting the first entry that carries a name rewrites the sequence
/// exactly as `spec_put` says.
proof fn lemma_put_at(
    orig: Seq<FieldEntry>,
    upd: Seq<FieldEntry>,
    k: Seq<char>,
    v: Seq<char>,
    i: int,
)
    requires
        0 <= i < orig.len(),
        upd == orig.update(i, (k, v)),
        orig[i].0 == k,
        forall|j: int| 0 <= j < i ==> orig[j].0 != k,
    ensures
        upd == spec_put(orig, k, v),
    decreases i,
{
    if i == 0 {
        assert(upd =~~= seq![(k, v)] + orig.drop_first());
    } else {
        assert(upd.drop_first() =~~= orig.drop_first().update(i - 1, (k, v)));
        lemma_put_at(orig.drop_first(), upd.drop_first(), k, v, i - 1);
        assert(upd =~~= seq![orig[0]] + upd.drop_first());
    }
}

/// Appending an entry whose name is absent is what `spec_put` does.
proof fn lemma_put_absent(m: Seq<FieldEntry>, k: Seq<char>, v: Seq<char>)
    requires
        forall|j: int| 0 <= j < m.len() ==> m[j].0 != k,
    ensures
        spec_put(m, k, v) == m.push((k, v)),
    decreases m.len(),
{
    if m.len() == 0 {
        assert(spec_put(m, k, v) =~~= m.push((k, v)));
    } else {
        lemma_put_absent(m.drop_first(), k, v);
        assert(seq![m[0]] + m.drop_first().push((k, v)) =~~= m.push((k, v)));
    }
}

/// Whether a line introduces a field.
pub fn line_is_heading(line: &String) -> (b: bool)
    ensures
        b == is_heading(line@),
{
    let n = line.as_str().unicode_len();
    n >= 2 && line.as_str().get_char(0) == '#' && line.as_str().get_char(1) == ' '
}

/// Parse a heading-delimited document into its field mapping. Never
/// fails: the result is exactly `spec_parse` of the text.
pub fn parse_note_into_fields(md: &str) -> (r: Fields)
    ensures
        r@ == spec_parse(md@),
{
    let lines = lines_of(md);
    let mut fields = Fields::new();
    let mut cur: Option<String> = None;
    let mut acc: Vec<String> = Vec::new();
    let mut i: usize = 0;
    proof {
        assert(views(lines@).skip(0) =~~= views(lines@));
        assert(views(acc@) =~~= Seq::<Seq<char>>::empty());
    }
    while i < lines.len()
        invariant
            i <= lines@.len(),
            spec_parse(md@) == spec_parse_lines(
                views(lines@).skip(i as int),
                opt_view(cur),
                views(acc@),
                fields@,
            ),
        decreases lines@.len() - i,
    {
        proof {
            assert(views(lines@).skip(i as int)[0] == lines@[i as int]@);
            assert(views(lines@).skip(i as int).drop_first() =~~= views(lines@).skip(i + 1));
        }
        let ghost lv = views(lines@).skip(i as int);
        let ghost cur0 = opt_view(cur);
        let ghost acc0 = views(acc@);
        let ghost out0 = fields@;
        proof {
            assert(lv[0] == lines@[i as int]@);
        }
        let line = &lines[i];
        if line_is_heading(line) {
            flush_field(&mut fields, &cur, &acc);
            let n = line.as_str().unicode_len();
            cur = Some(String::from_str(line.as_str().substring_char(2, n)));
            acc = Vec::new();
            proof {
                assert(views(acc@) =~~= Seq::<Seq<char>>::empty());
                assert(lines@[i as int]@.subrange(2, n as int) =~= heading_name(
                    lines@[i as int]@,
                ));
                assert(spec_parse_lines(lv, cur0, acc0, out0) == spec_parse_lines(
                    lv.drop_first(),
                    Some(heading_name(lv[0])),
                    Seq::empty(),
                    spec_flush(out0, cur0, acc0),
                ));
                assert(opt_view(cur) == Some(heading_name(lv[0])));
            }
        } else {
            acc.push(line.clone());
            proof {
                assert(views(acc@) =~~= acc0.push(lines@[i as int]@));
                assert(spec_parse_lines(lv, cur0, acc0, out0) == spec_parse_lines(
                    lv.drop_first(),
                    cur0,
                    acc0.push(lv[0]),
                    out0,
                ));
            }
        }
        i = i + 1;
    }
    proof {
        assert(views(lines@).skip(lines@.len() as int) =~~= Seq::<Seq<char>>::empty());
    }
    flush_field(&mut fields, &cur, &acc);
    fields
}

/// Close the field under construction: trim the joined body and store it.
fn flush_field(fields: &mut Fields, cur: &Option<String>, acc: &Vec<String>)
    ensures
        final(fields)@ == spec_flush(old(fields)@, opt_view(*cur), views(acc@)),
{
    match cur {
        None => {},
        Some(name) => {
            let joined = join_lines(acc);
            let body = trim_str(joined.as_str());
            fields.put(name.clone(), body);
        },
    }
}

/// Serialize a field mapping back to its document: `"# <name>\n<body>\n"`
/// for each field, in mapping order.
pub fn get_note_md(fields: &Fields) -> (r: String)
    ensures
        r@ == spec_serialize(fields@),
{
    let mut r = String::new();
    let mut i: usize = 0;
    proof {
        assert(fields@.take(0) =~~= Seq::<FieldEntry>::empty());
    }
    while i < fields.entries.len()
        invariant
            i <= fields.entries@.len(),
            r@ == spec_serialize(fields@.take(i as int)),
        decreases fields.entries@.len() - i,
    {
        r.append("# ");
        r.append(fields.entries[i].0.as_str());
        r.append("\n");
        r.append(fields.entries[i].1.as_str());
        r.append("\n");
        proof {
            reveal_strlit("# ");
            reveal_strlit("\n");
            assert("# "@ =~= seq!['#', ' ']);
            assert("\n"@ =~= seq!['\n']);
            lemma_serialize_push(fields@.take(i as int), fields@[i as int]);
            assert(fields@.take(i + 1) =~~= fields@.take(i as int).push(fields@[i as int]));
        }
        i = i + 1;
    }
    proof {
        assert(fields@.take(fields@.len() as int) =~~= fields@);
    }
    r
}

/// Serialization emits entries left to right.
proof fn lemma_serialize_push(m: Seq<FieldEntry>, e: FieldEntry)
    ensures
        spec_serialize(m.push(e)) == spec_serialize(m) + seq!['#', ' '] + e.0 + seq!['\n'] + e.1
            + seq!['\n'],
    decreases m.len(),
{
    if m.len() == 0 {
        assert(m.push(e)[0] == e);
        assert(m.push(e).drop_first() =~~= m);
        assert(spec_serialize(m.push(e)) =~= seq!['#', ' '] + e.0 + seq!['\n'] + e.1 + seq!['\n']);
        assert(spec_serialize(m) + seq!['#', ' '] + e.0 + seq!['\n'] + e.1 + seq!['\n'] =~= seq![
            '#',
            ' ',
        ] + e.0 + seq!['\n'] + e.1 + seq!['\n']);
    } else {
        assert(m.push(e)[0] == m[0]);
        assert(m.push(e).drop_first() =~~= m.drop_first().push(e));
        lemma_serialize_push(m.drop_first(), e);
        assert(spec_serialize(m.push(e)) =~= spec_serialize(m) + seq!['#', ' '] + e.0 + seq!['\n']
            + e.1 + seq!['\n']);
    }
}

} // verus!
