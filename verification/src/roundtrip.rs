//! Laws of the field codec: serializing and re-parsing a well-formed
//! mapping reconstructs it exactly, and one parse-serialize pass is a
//! fixed point of normalization.

use vstd::prelude::*;

use crate::fields::FieldEntry;
use crate::fields::heading_name;
use crate::fields::is_heading;
use crate::fields::spec_flush;
use crate::fields::spec_parse;
use crate::fields::spec_parse_lines;
use crate::fields::spec_put;
use crate::fields::spec_serialize;
use crate::fields::unique_keys;
use crate::text::nl_free;
use crate::text::lemma_join_lines;
use crate::text::lemma_join_push;
use crate::text::lemma_lines_concat;
use crate::text::lemma_lines_len;
use crate::text::lemma_lines_nl_free;
use crate::text::lemma_lines_of_nl_free;
use crate::text::lemma_trim_idempotent;
use crate::text::lemma_trim_push_ws;
use crate::text::spec_join;
use crate::text::spec_lines;
use crate::text::spec_trim;

verus! {

/// No line of the body would be read back as a heading.
pub open spec fn body_heading_free(b: Seq<char>) -> bool {
    forall|i: int| 0 <= i < spec_lines(b).len() ==> !is_heading(#[trigger] spec_lines(b)[i])
}

/// Some entry carries this name.
pub open spec fn has_key(m: Seq<FieldEntry>, k: Seq<char>) -> bool {
    exists|j: int| 0 <= j < m.len() && m[j].0 == k
}

/// A mapping as the parser itself builds it: unique newline-free names,
/// trimmed bodies.
pub open spec fn canonical_fields(m: Seq<FieldEntry>) -> bool {
    &&& unique_keys(m)
    &&& forall|i: int| 0 <= i < m.len() ==> nl_free(#[trigger] m[i].0)
    &&& forall|i: int| 0 <= i < m.len() ==> spec_trim(#[trigger] m[i].1) == m[i].1
}

/// `spec_put` keeps a mapping canonical and adds no name but the one put.
proof fn lemma_put_canonical(m: Seq<FieldEntry>, k: Seq<char>, v: Seq<char>)
    requires
        canonical_fields(m),
        nl_free(k),
        spec_trim(v) == v,
    ensures
        canonical_fields(spec_put(m, k, v)),
        forall|i: int| 0 <= i < spec_put(m, k, v).len() ==> (#[trigger] spec_put(m, k, v)[i].0
            == k || has_key(m, spec_put(m, k, v)[i].0)),
    decreases m.len(),
{
    let p = spec_put(m, k, v);
    if m.len() == 0 {
    } else if m[0].0 == k {
        assert(p == seq![(k, v)] + m.drop_first());
        assert forall|i: int, j: int| 0 <= i < j < p.len() implies p[i].0 != p[j].0 by {
            if i == 0 {
                assert(p[j] == m[j]);
            } else {
                assert(p[i] == m[i] && p[j] == m[j]);
            }
        }
        assert forall|i: int| 0 <= i < p.len() implies (#[trigger] p[i].0 == k || has_key(
            m,
            p[i].0,
        )) by {
            if i > 0 {
                assert(p[i] == m[i]);
            }
        }
    } else {
        let q = spec_put(m.drop_first(), k, v);
        assert(p == seq![m[0]] + q);
        assert(canonical_fields(m.drop_first())) by {
            assert forall|i: int, j: int|
                0 <= i < j < m.drop_first().len() implies m.drop_first()[i].0
                != m.drop_first()[j].0 by {
                assert(m.drop_first()[i] == m[i + 1] && m.drop_first()[j] == m[j + 1]);
            }
            assert forall|i: int| 0 <= i < m.drop_first().len() implies nl_free(
                #[trigger] m.drop_first()[i].0,
            ) && spec_trim(m.drop_first()[i].1) == m.drop_first()[i].1 by {
                assert(m.drop_first()[i] == m[i + 1]);
            }
        }
        lemma_put_canonical(m.drop_first(), k, v);
        assert forall|i: int| 0 <= i < p.len() implies (#[trigger] p[i].0 == k || has_key(
            m,
            p[i].0,
        )) by {
            if i == 0 {
                assert(has_key(m, m[0].0));
            } else {
                assert(p[i] == q[i - 1]);
                if q[i - 1].0 != k {
                    let j = choose|j: int|
                        0 <= j < m.drop_first().len() && m.drop_first()[j].0 == q[i - 1].0;
                    assert(m[j + 1].0 == q[i - 1].0);
                }
            }
        }
        assert forall|i: int, j: int| 0 <= i < j < p.len() implies p[i].0 != p[j].0 by {
            if i == 0 {
                assert(p[j] == q[j - 1]);
                if q[j - 1].0 == k {
                } else {
                    let w = choose|w: int|
                        0 <= w < m.drop_first().len() && m.drop_first()[w].0 == q[j - 1].0;
                    assert(m[w + 1].0 == q[j - 1].0);
                }
            }
        }
        assert forall|i: int| 0 <= i < p.len() implies nl_free(#[trigger] p[i].0) && spec_trim(
            p[i].1,
        ) == p[i].1 by {
            if i > 0 {
                assert(p[i] == q[i - 1]);
            }
        }
    }
}

/// Lines that are not headings only accumulate into the open body.
proof fn lemma_consume_body(
    l1: Seq<Seq<char>>,
    l2: Seq<Seq<char>>,
    cur: Option<Seq<char>>,
    acc: Seq<Seq<char>>,
    out: Seq<FieldEntry>,
)
    requires
        forall|i: int| 0 <= i < l1.len() ==> !is_heading(#[trigger] l1[i]),
    ensures
        spec_parse_lines(l1 + l2, cur, acc, out) == spec_parse_lines(l2, cur, acc + l1, out),
    decreases l1.len(),
{
    if l1.len() == 0 {
        assert(l1 + l2 =~~= l2);
        assert(acc + l1 =~~= acc);
    } else {
        assert((l1 + l2)[0] == l1[0]);
        assert((l1 + l2).drop_first() =~~= l1.drop_first() + l2);
        lemma_consume_body(l1.drop_first(), l2, cur, acc.push(l1[0]), out);
        assert(acc.push(l1[0]) + l1.drop_first() =~~= acc + l1);
    }
}

/// The engine of the round trip: with the field `k`, body `b`, already
/// open and accumulated, parsing the serialization of the remaining
/// entries appends `(k, b)` and then those entries.
proof fn lemma_roundtrip_main(m: Seq<FieldEntry>, k: Seq<char>, b: Seq<char>, out: Seq<FieldEntry>)
    requires
        forall|i: int| 0 <= i < m.len() ==> nl_free(#[trigger] m[i].0),
        forall|i: int| 0 <= i < m.len() ==> spec_trim(#[trigger] m[i].1) == m[i].1,
        forall|i: int| 0 <= i < m.len() ==> body_heading_free(#[trigger] m[i].1),
        unique_keys(m),
        forall|j: int| 0 <= j < out.len() ==> (#[trigger] out[j].0) != k,
        forall|j: int, i: int|
            0 <= j < out.len() && 0 <= i < m.len() ==> (#[trigger] out[j].0) != (
            #[trigger] m[i].0),
        forall|i: int| 0 <= i < m.len() ==> (#[trigger] m[i].0) != k,
        spec_trim(b) == b,
    ensures
        spec_parse_lines(spec_lines(spec_serialize(m)), Some(k), spec_lines(b), out) == out + seq![
            (k, b),
        ] + m,
    decreases m.len(),
{
    lemma_join_lines(b);
    lemma_lines_len(b);
    lemma_put_absent_keys(out, k, b);
    if m.len() == 0 {
        let e = Seq::<char>::empty();
        assert(spec_serialize(m) == e);
        assert(spec_lines(e) == seq![e]);
        assert(!is_heading(e));
        let acc2 = spec_lines(b).push(e);
        assert(seq![e].drop_first() =~~= Seq::<Seq<char>>::empty());
        assert(seq![e][0] == e);
        assert(spec_parse_lines(seq![e], Some(k), spec_lines(b), out) == spec_parse_lines(
            Seq::<Seq<char>>::empty(),
            Some(k),
            acc2,
            out,
        ));
        assert(spec_parse_lines(Seq::<Seq<char>>::empty(), Some(k), acc2, out) == spec_flush(
            out,
            Some(k),
            acc2,
        ));
        lemma_join_push(spec_lines(b), e);
        assert(spec_join(acc2) =~= b.push('\n'));
        lemma_trim_push_ws(b, '\n');
        assert(out.push((k, b)) =~~= out + seq![(k, b)] + m);
    } else {
        let k0 = m[0].0;
        let b0 = m[0].1;
        let rest = m.drop_first();
        let hd = seq!['#', ' '] + k0;
        let tail = b0 + seq!['\n'] + spec_serialize(rest);
        assert(spec_serialize(m) =~= hd + seq!['\n'] + tail);
        assert(nl_free(hd)) by {
            assert forall|j: int| 0 <= j < hd.len() implies hd[j] != '\n' by {
                if j >= 2 {
                    assert(hd[j] == k0[j - 2]);
                }
            }
        }
        lemma_lines_concat(hd, tail);
        lemma_lines_of_nl_free(hd);
        lemma_lines_concat(b0, spec_serialize(rest));
        let ls = spec_lines(spec_serialize(m));
        assert(ls =~~= seq![hd] + (spec_lines(b0) + spec_lines(spec_serialize(rest))));
        assert(ls[0] == hd);
        assert(is_heading(hd));
        assert(heading_name(hd) =~= k0);
        assert(ls.drop_first() =~~= spec_lines(b0) + spec_lines(spec_serialize(rest)));
        let out2 = out.push((k, b));
        assert(spec_flush(out, Some(k), spec_lines(b)) == out2);
        assert(spec_parse_lines(ls, Some(k), spec_lines(b), out) == spec_parse_lines(
            ls.drop_first(),
            Some(k0),
            Seq::empty(),
            out2,
        ));
        lemma_consume_body(
            spec_lines(b0),
            spec_lines(spec_serialize(rest)),
            Some(k0),
            Seq::empty(),
            out2,
        );
        assert(Seq::<Seq<char>>::empty() + spec_lines(b0) =~~= spec_lines(b0));
        assert(forall|i: int| 0 <= i < rest.len() ==> #[trigger] rest[i] == m[i + 1]);
        assert forall|j: int, i: int|
            0 <= j < out2.len() && 0 <= i < rest.len() implies (#[trigger] out2[j].0) != (
        #[trigger] rest[i].0) by {
            assert(rest[i] == m[i + 1]);
            if j < out.len() {
                assert(out2[j] == out[j]);
            }
        }
        assert forall|j: int| 0 <= j < out2.len() implies (#[trigger] out2[j].0) != k0 by {
            if j < out.len() {
                assert(out2[j] == out[j]);
                assert(out[j].0 != m[0].0);
            }
        }
        lemma_roundtrip_main(rest, k0, b0, out2);
        assert(out2 + seq![(k0, b0)] + rest =~~= out + seq![(k, b)] + m);
    }
}

/// When the name is absent, putting appends.
proof fn lemma_put_absent_keys(m: Seq<FieldEntry>, k: Seq<char>, v: Seq<char>)
    requires
        forall|j: int| 0 <= j < m.len() ==> (#[trigger] m[j].0) != k,
    ensures
        spec_put(m, k, v) == m.push((k, v)),
    decreases m.len(),
{
    if m.len() == 0 {
        assert(spec_put(m, k, v) =~~= m.push((k, v)));
    } else {
        assert forall|j: int| 0 <= j < m.drop_first().len() implies (#[trigger] m.drop_first()[j].0)
            != k by {
            assert(m.drop_first()[j] == m[j + 1]);
        }
        lemma_put_absent_keys(m.drop_first(), k, v);
        assert(seq![m[0]] + m.drop_first().push((k, v)) =~~= m.push((k, v)));
    }
}

/// Parsing the serialization of a canonical mapping with heading-free
/// bodies reconstructs the mapping exactly, entry for entry.
pub proof fn lemma_parse_serialize_general(m: Seq<FieldEntry>)
    requires
        canonical_fields(m),
        forall|i: int| 0 <= i < m.len() ==> body_heading_free(#[trigger] m[i].1),
    ensures
        spec_parse(spec_serialize(m)) == m,
{
    if m.len() == 0 {
        let e = Seq::<char>::empty();
        assert(spec_lines(e) == seq![e]);
        assert(!is_heading(e));
        assert(seq![e].drop_first() =~~= Seq::<Seq<char>>::empty());
        assert(seq![e][0] == e);
        assert(spec_parse_lines(seq![e], None, Seq::empty(), Seq::empty())
            == spec_parse_lines(
            Seq::<Seq<char>>::empty(),
            None,
            Seq::<Seq<char>>::empty().push(e),
            Seq::empty(),
        ));
        assert(spec_parse(spec_serialize(m)) =~~= m);
    } else {
        let k0 = m[0].0;
        let b0 = m[0].1;
        let rest = m.drop_first();
        let hd = seq!['#', ' '] + k0;
        let tail = b0 + seq!['\n'] + spec_serialize(rest);
        assert(spec_serialize(m) =~= hd + seq!['\n'] + tail);
        assert(nl_free(hd)) by {
            assert forall|j: int| 0 <= j < hd.len() implies hd[j] != '\n' by {
                if j >= 2 {
                    assert(hd[j] == k0[j - 2]);
                }
            }
        }
        lemma_lines_concat(hd, tail);
        lemma_lines_of_nl_free(hd);
        lemma_lines_concat(b0, spec_serialize(rest));
        let ls = spec_lines(spec_serialize(m));
        assert(ls =~~= seq![hd] + (spec_lines(b0) + spec_lines(spec_serialize(rest))));
        assert(ls[0] == hd);
        assert(is_heading(hd));
        assert(heading_name(hd) =~= k0);
        assert(ls.drop_first() =~~= spec_lines(b0) + spec_lines(spec_serialize(rest)));
        assert(spec_parse_lines(ls, None, Seq::empty(), Seq::empty()) == spec_parse_lines(
            ls.drop_first(),
            Some(k0),
            Seq::empty(),
            Seq::empty(),
        ));
        lemma_consume_body(
            spec_lines(b0),
            spec_lines(spec_serialize(rest)),
            Some(k0),
            Seq::empty(),
            Seq::<FieldEntry>::empty(),
        );
        assert(Seq::<Seq<char>>::empty() + spec_lines(b0) =~~= spec_lines(b0));
        assert(forall|i: int| 0 <= i < rest.len() ==> #[trigger] rest[i] == m[i + 1]);
        lemma_roundtrip_main(rest, k0, b0, Seq::<FieldEntry>::empty());
        assert(Seq::<FieldEntry>::empty() + seq![(k0, b0)] + rest =~~= m);
    }
}

/// Round-trip law: any mapping with unique, non-empty, newline-free names
/// and already-trimmed bodies none of whose lines begins with `"# "` is
/// reconstructed exactly by parsing its serialization.
pub proof fn lemma_parse_serialize_roundtrip(m: Seq<FieldEntry>)
    requires
        unique_keys(m),
        forall|i: int| 0 <= i < m.len() ==> (#[trigger] m[i].0).len() > 0,
        forall|i: int| 0 <= i < m.len() ==> nl_free(#[trigger] m[i].0),
        forall|i: int| 0 <= i < m.len() ==> spec_trim(#[trigger] m[i].1) == m[i].1,
        forall|i: int| 0 <= i < m.len() ==> body_heading_free(#[trigger] m[i].1),
    ensures
        spec_parse(spec_serialize(m)) == m,
{
    lemma_parse_serialize_general(m);
}

/// Whatever the document, the parser's output is canonical: names are
/// unique and newline-free, bodies are trimmed.
pub proof fn lemma_parse_canonical(t: Seq<char>)
    ensures
        canonical_fields(spec_parse(t)),
{
    lemma_lines_nl_free(t);
    lemma_parse_lines_canonical(spec_lines(t), None, Seq::empty(), Seq::empty());
}

/// The parser's pass keeps the output canonical at every step.
proof fn lemma_parse_lines_canonical(
    ls: Seq<Seq<char>>,
    cur: Option<Seq<char>>,
    acc: Seq<Seq<char>>,
    out: Seq<FieldEntry>,
)
    requires
        canonical_fields(out),
        forall|i: int| 0 <= i < ls.len() ==> nl_free(#[trigger] ls[i]),
        cur is Some ==> nl_free(cur->0),
    ensures
        canonical_fields(spec_parse_lines(ls, cur, acc, out)),
    decreases ls.len(),
{
    if ls.len() == 0 {
        match cur {
            None => {},
            Some(name) => {
                lemma_trim_idempotent(spec_join(acc));
                lemma_put_canonical(out, name, spec_trim(spec_join(acc)));
            },
        }
    } else if is_heading(ls[0]) {
        let out2 = spec_flush(out, cur, acc);
        match cur {
            None => {},
            Some(name) => {
                lemma_trim_idempotent(spec_join(acc));
                lemma_put_canonical(out, name, spec_trim(spec_join(acc)));
            },
        }
        assert(nl_free(heading_name(ls[0]))) by {
            assert forall|j: int| 0 <= j < heading_name(ls[0]).len() implies heading_name(ls[0])[j]
                != '\n' by {
                assert(heading_name(ls[0])[j] == ls[0][j + 2]);
            }
        }
        assert(forall|i: int| 0 <= i < ls.drop_first().len() ==> nl_free(
            #[trigger] ls.drop_first()[i],
        ));
        lemma_parse_lines_canonical(ls.drop_first(), Some(heading_name(ls[0])), Seq::empty(), out2);
    } else {
        assert(forall|i: int| 0 <= i < ls.drop_first().len() ==> nl_free(
            #[trigger] ls.drop_first()[i],
        ));
        lemma_parse_lines_canonical(ls.drop_first(), cur, acc.push(ls[0]), out);
    }
}

/// Idempotence law: one parse-serialize pass normalizes a document, and a
/// second pass changes nothing — provided no parsed body carries a line
/// that trimming has left looking like a heading.
pub proof fn lemma_serialize_parse_idempotent(t: Seq<char>)
    requires
        forall|i: int| 0 <= i < spec_parse(t).len() ==> body_heading_free(
            #[trigger] spec_parse(t)[i].1,
        ),
    ensures
        spec_parse(spec_serialize(spec_parse(t))) == spec_parse(t),
        spec_serialize(spec_parse(spec_serialize(spec_parse(t)))) == spec_serialize(spec_parse(t)),
{
    lemma_parse_canonical(t);
    lemma_parse_serialize_general(spec_parse(t));
}

} // verus!
