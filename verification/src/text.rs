//! Line and whitespace handling for the field codec: splitting a text into
//! its lines, joining lines back with newlines, and trimming leading and
//! trailing whitespace.
//!
//! `spec_lines` and `spec_join` are inverses; the lemmas here state the
//! algebra the codec's round-trip proofs rest on.

use vstd::prelude::*;

verus! {

/// Whitespace as the codec trims it: space, tab, carriage return, newline.
pub open spec fn is_ws(c: char) -> bool {
    c == ' ' || c == '\t' || c == '\r' || c == '\n'
}

/// A text with no newline occupies a single line.
pub open spec fn nl_free(s: Seq<char>) -> bool {
    forall|j: int| 0 <= j < s.len() ==> s[j] != '\n'
}

/// The lines of a text, split on `'\n'`. There is always at least one
/// line; a trailing newline yields a final empty line.
pub open spec fn spec_lines(s: Seq<char>) -> Seq<Seq<char>>
    decreases s.len(),
{
    if s.len() == 0 {
        seq![Seq::<char>::empty()]
    } else if s[0] == '\n' {
        seq![Seq::<char>::empty()] + spec_lines(s.drop_first())
    } else {
        let rest = spec_lines(s.drop_first());
        seq![seq![s[0]] + rest[0]] + rest.drop_first()
    }
}

/// The lines joined back together with single newlines between them.
pub open spec fn spec_join(ls: Seq<Seq<char>>) -> Seq<char>
    decreases ls.len(),
{
    if ls.len() == 0 {
        Seq::<char>::empty()
    } else if ls.len() == 1 {
        ls[0]
    } else {
        ls[0] + seq!['\n'] + spec_join(ls.drop_first())
    }
}

/// The text with leading whitespace removed.
pub open spec fn spec_trim_start(s: Seq<char>) -> Seq<char>
    decreases s.len(),
{
    if s.len() > 0 && is_ws(s[0]) {
        spec_trim_start(s.drop_first())
    } else {
        s
    }
}

/// The text with trailing whitespace removed.
pub open spec fn spec_trim_end(s: Seq<char>) -> Seq<char>
    decreases s.len(),
{
    if s.len() > 0 && is_ws(s.last()) {
        spec_trim_end(s.drop_last())
    } else {
        s
    }
}

/// The text with both leading and trailing whitespace removed.
pub open spec fn spec_trim(s: Seq<char>) -> Seq<char> {
    spec_trim_end(spec_trim_start(s))
}

pub proof fn lemma_lines_len(s: Seq<char>)
    ensures
        spec_lines(s).len() >= 1,
    decreases s.len(),
{
    if s.len() == 0 {
    } else {
        lemma_lines_len(s.drop_first());
    }
}

/// No line of a split contains a newline.
pub proof fn lemma_lines_nl_free(s: Seq<char>)
    ensures
        forall|i: int| 0 <= i < spec_lines(s).len() ==> nl_free(#[trigger] spec_lines(s)[i]),
    decreases s.len(),
{
    if s.len() == 0 {
    } else if s[0] == '\n' {
        lemma_lines_nl_free(s.drop_first());
        assert forall|i: int| 0 <= i < spec_lines(s).len() implies nl_free(
            #[trigger] spec_lines(s)[i],
        ) by {
            if i > 0 {
                assert(spec_lines(s)[i] == spec_lines(s.drop_first())[i - 1]);
            }
        }
    } else {
        lemma_lines_nl_free(s.drop_first());
        lemma_lines_len(s.drop_first());
        let rest = spec_lines(s.drop_first());
        assert forall|i: int| 0 <= i < spec_lines(s).len() implies nl_free(
            #[trigger] spec_lines(s)[i],
        ) by {
            if i == 0 {
                assert(nl_free(rest[0]));
                assert(spec_lines(s)[0] == seq![s[0]] + rest[0]);
            } else {
                assert(spec_lines(s)[i] == rest[i]);
            }
        }
    }
}

/// A newline-free text is its own single line.
pub proof fn lemma_lines_of_nl_free(s: Seq<char>)
    requires
        nl_free(s),
    ensures
        spec_lines(s) == seq![s],
    decreases s.len(),
{
    if s.len() == 0 {
        assert(spec_lines(s) =~~= seq![s]);
    } else {
        assert(nl_free(s.drop_first()));
        lemma_lines_of_nl_free(s.drop_first());
        assert(seq![s[0]] + s.drop_first() =~= s);
        assert(spec_lines(s) =~~= seq![s]);
    }
}

/// Splitting distributes over a newline: the lines of `a + "\n" + b` are
/// the lines of `a` followed by the lines of `b`.
pub proof fn lemma_lines_concat(a: Seq<char>, b: Seq<char>)
    ensures
        spec_lines(a + seq!['\n'] + b) == spec_lines(a) + spec_lines(b),
    decreases a.len(),
{
    let s = a + seq!['\n'] + b;
    if a.len() == 0 {
        assert(s[0] == '\n');
        assert(s.drop_first() =~= b);
        assert(spec_lines(s) =~~= spec_lines(a) + spec_lines(b));
    } else {
        assert(s[0] == a[0]);
        assert(s.drop_first() =~= a.drop_first() + seq!['\n'] + b);
        lemma_lines_concat(a.drop_first(), b);
        lemma_lines_len(a.drop_first());
        lemma_lines_len(b);
        if a[0] == '\n' {
            assert(spec_lines(s) =~~= spec_lines(a) + spec_lines(b));
        } else {
            let rest = spec_lines(a.drop_first()) + spec_lines(b);
            assert(rest[0] == spec_lines(a.drop_first())[0]);
            assert(rest.drop_first() =~~= spec_lines(a.drop_first()).drop_first() + spec_lines(
                b,
            ));
            assert(spec_lines(s) =~~= spec_lines(a) + spec_lines(b));
        }
    }
}

/// Joining the lines of a text gives the text back.
pub proof fn lemma_join_lines(s: Seq<char>)
    ensures
        spec_join(spec_lines(s)) == s,
    decreases s.len(),
{
    if s.len() == 0 {
    } else {
        lemma_join_lines(s.drop_first());
        lemma_lines_len(s.drop_first());
        let rest = spec_lines(s.drop_first());
        if s[0] == '\n' {
            let ls = seq![Seq::<char>::empty()] + rest;
            assert(ls.len() >= 2);
            assert(ls.drop_first() =~~= rest);
            assert(spec_join(ls) =~= s);
        } else {
            let ls = seq![seq![s[0]] + rest[0]] + rest.drop_first();
            if rest.len() == 1 {
                assert(ls.len() == 1);
                assert(spec_join(ls) == seq![s[0]] + rest[0]);
                assert(spec_join(rest) == rest[0]);
                assert(spec_join(ls) =~= s);
            } else {
                assert(ls.len() >= 2);
                assert(ls.drop_first() =~~= rest.drop_first());
                assert(spec_join(rest) == rest[0] + seq!['\n'] + spec_join(rest.drop_first()));
                assert(spec_join(ls) == (seq![s[0]] + rest[0]) + seq!['\n'] + spec_join(
                    rest.drop_first(),
                ));
                assert(spec_join(ls) =~= seq![s[0]] + spec_join(rest));
                assert(seq![s[0]] + s.drop_first() =~= s);
            }
        }
    }
}

/// Appending one line distributes over join.
pub proof fn lemma_join_push(ls: Seq<Seq<char>>, x: Seq<char>)
    ensures
        ls.len() == 0 ==> spec_join(ls.push(x)) == x,
        ls.len() >= 1 ==> spec_join(ls.push(x)) == spec_join(ls) + seq!['\n'] + x,
    decreases ls.len(),
{
    if ls.len() == 0 {
        assert(ls.push(x)[0] == x);
    } else if ls.len() == 1 {
        let p = ls.push(x);
        assert(p.len() == 2);
        assert(p.drop_first() =~~= seq![x]);
        assert(spec_join(p.drop_first()) == x);
        assert(spec_join(p) == ls[0] + seq!['\n'] + x);
        assert(spec_join(ls) == ls[0]);
    } else {
        let p = ls.push(x);
        assert(p.drop_first() =~~= ls.drop_first().push(x));
        lemma_join_push(ls.drop_first(), x);
        assert(spec_join(p) == p[0] + seq!['\n'] + spec_join(ls.drop_first().push(x)));
        assert(spec_join(ls.drop_first().push(x)) == spec_join(ls.drop_first()) + seq!['\n'] + x);
        assert(spec_join(p) =~= spec_join(ls) + seq!['\n'] + x);
    }
}

/// `spec_trim_start` removes exactly the leading run of whitespace.
pub proof fn lemma_trim_start_skip(s: Seq<char>, a: int)
    requires
        0 <= a <= s.len(),
        forall|i: int| 0 <= i < a ==> is_ws(s[i]),
        a < s.len() ==> !is_ws(s[a]),
    ensures
        spec_trim_start(s) == s.skip(a),
    decreases a,
{
    if a == 0 {
        assert(s.skip(0) =~= s);
    } else {
        assert(is_ws(s[0]));
        lemma_trim_start_skip(s.drop_first(), a - 1);
        assert(s.drop_first().skip(a - 1) =~= s.skip(a));
    }
}

/// `spec_trim_end` removes exactly the trailing run of whitespace.
pub proof fn lemma_trim_end_take(s: Seq<char>, b: int)
    requires
        0 <= b <= s.len(),
        forall|i: int| b <= i < s.len() ==> is_ws(s[i]),
        b > 0 ==> !is_ws(s[b - 1]),
    ensures
        spec_trim_end(s) == s.take(b),
    decreases s.len(),
{
    if b == s.len() {
        if s.len() > 0 {
            assert(!is_ws(s.last()));
        }
        assert(s.take(b) =~= s);
    } else {
        assert(is_ws(s.last()));
        lemma_trim_end_take(s.drop_last(), b);
        assert(s.drop_last().take(b) =~= s.take(b));
    }
}

/// The trimmed text is a prefix of the text.
pub proof fn lemma_trim_end_prefix(s: Seq<char>)
    ensures
        spec_trim_end(s).len() <= s.len(),
        spec_trim_end(s) == s.take(spec_trim_end(s).len() as int),
        spec_trim_end(s).len() > 0 ==> !is_ws(spec_trim_end(s).last()),
    decreases s.len(),
{
    if s.len() > 0 && is_ws(s.last()) {
        lemma_trim_end_prefix(s.drop_last());
        let t = spec_trim_end(s);
        assert(t == spec_trim_end(s.drop_last()));
        assert(s.drop_last().take(t.len() as int) =~= s.take(t.len() as int));
    } else {
        assert(s.take(s.len() as int) =~= s);
    }
}

/// The head of the trimmed text is not whitespace.
pub proof fn lemma_trim_start_head(s: Seq<char>)
    ensures
        spec_trim_start(s).len() > 0 ==> !is_ws(spec_trim_start(s)[0]),
    decreases s.len(),
{
    if s.len() > 0 && is_ws(s[0]) {
        lemma_trim_start_head(s.drop_first());
    }
}

/// Trimming is idempotent.
pub proof fn lemma_trim_idempotent(s: Seq<char>)
    ensures
        spec_trim(spec_trim(s)) == spec_trim(s),
{
    let ts = spec_trim_start(s);
    let t = spec_trim_end(ts);
    lemma_trim_start_head(s);
    lemma_trim_end_prefix(ts);
    if t.len() > 0 {
        assert(t[0] == ts[0]);
        assert(!is_ws(t[0]));
        assert(spec_trim_start(t) == t);
        assert(!is_ws(t.last()));
        assert(spec_trim_end(t) == t);
    } else {
        assert(spec_trim_start(t) == t);
        assert(spec_trim_end(t) == t);
    }
}

/// Appending a whitespace character does not change the trim.
pub proof fn lemma_trim_push_ws(s: Seq<char>, c: char)
    requires
        is_ws(c),
    ensures
        spec_trim(s.push(c)) == spec_trim(s),
    decreases s.len(),
{
    if s.len() == 0 {
        assert(s.push(c)[0] == c);
        assert(s.push(c).drop_first() =~= s);
    } else if is_ws(s[0]) {
        assert(s.push(c)[0] == s[0]);
        assert(s.push(c).drop_first() =~= s.drop_first().push(c));
        lemma_trim_push_ws(s.drop_first(), c);
    } else {
        assert(s.push(c)[0] == s[0]);
        assert(spec_trim_start(s.push(c)) == s.push(c));
        assert(spec_trim_start(s) == s);
        assert(s.push(c).last() == c);
        assert(s.push(c).drop_last() =~= s);
        assert(spec_trim_end(s.push(c)) == spec_trim_end(s));
    }
}

/// Whether a character is codec whitespace.
pub fn is_ws_char(c: char) -> (b: bool)
    ensures
        b == is_ws(c),
{
    c == ' ' || c == '\t' || c == '\r' || c == '\n'
}

/// The views of a vector of strings.
pub open spec fn views(ss: Seq<String>) -> Seq<Seq<char>> {
    ss.map_values(|s: String| s@)
}

/// Split a text into its lines at each newline.
pub fn lines_of(s: &str) -> (v: Vec<String>)
    ensures
        views(v@) == spec_lines(s@),
{
    let n = s.unicode_len();
    let mut v: Vec<String> = Vec::new();
    let mut start: usize = 0;
    let mut i: usize = 0;
    proof {
        assert(s@.skip(0) =~= s@);
        assert(views(v@) =~~= Seq::<Seq<char>>::empty());
    }
    while i < n
        invariant
            start <= i <= n,
            n == s@.len(),
            spec_lines(s@) == views(v@) + spec_lines(s@.skip(start as int)),
            forall|k: int| start <= k < i ==> s@[k] != '\n',
        decreases n - i,
    {
        if s.get_char(i) == '\n' {
            let line = s.substring_char(start, i);
            v.push(String::from_str(line));
            proof {
                let a = s@.subrange(start as int, i as int);
                let b = s@.skip(i + 1);
                assert(s@.skip(start as int) =~= a + seq!['\n'] + b);
                lemma_lines_concat(a, b);
                assert(nl_free(a));
                lemma_lines_of_nl_free(a);
                assert(views(v@) =~~= views(v@.drop_last()) + seq![a]);
                assert(views(v@) + spec_lines(s@.skip(i + 1)) =~~= (views(v@.drop_last())
                    + spec_lines(s@.skip(start as int))));
            }
            start = i + 1;
        }
        i = i + 1;
    }
    let line = s.substring_char(start, n);
    v.push(String::from_str(line));
    proof {
        let a = s@.subrange(start as int, n as int);
        assert(a =~= s@.skip(start as int));
        assert(nl_free(a));
        lemma_lines_of_nl_free(a);
        assert(views(v@) =~~= views(v@.drop_last()) + seq![a]);
        assert(views(v@) =~~= spec_lines(s@));
    }
    v
}

/// Join lines with single newlines: the inverse of `lines_of` on
/// newline-free lines.
pub fn join_lines(v: &Vec<String>) -> (r: String)
    ensures
        r@ == spec_join(views(v@)),
{
    let mut r = String::new();
    let mut i: usize = 0;
    proof {
        assert(views(v@).take(0) =~~= Seq::<Seq<char>>::empty());
    }
    while i < v.len()
        invariant
            i <= v@.len(),
            r@ == spec_join(views(v@).take(i as int)),
        decreases v@.len() - i,
    {
        if i > 0 {
            r.append("\n");
        }
        r.append(v[i].as_str());
        proof {
            reveal_strlit("\n");
            assert("\n"@ =~= seq!['\n']);
            let lv = views(v@);
            assert(lv.take(i + 1) =~~= lv.take(i as int).push(lv[i as int]));
            lemma_join_push(lv.take(i as int), lv[i as int]);
            assert(lv.take(i as int).len() == i);
        }
        i = i + 1;
    }
    proof {
        assert(views(v@).take(v@.len() as int) =~~= views(v@));
    }
    r
}

/// Remove leading and trailing whitespace.
pub fn trim_str(s: &str) -> (r: String)
    ensures
        r@ == spec_trim(s@),
{
    let n = s.unicode_len();
    let mut a: usize = 0;
    while a < n && is_ws_char(s.get_char(a))
        invariant
            a <= n,
            n == s@.len(),
            forall|i: int| 0 <= i < a ==> is_ws(s@[i]),
        decreases n - a,
    {
        a = a + 1;
    }
    proof {
        lemma_trim_start_skip(s@, a as int);
    }
    if a == n {
        proof {
            assert(s@.skip(a as int) =~= Seq::<char>::empty());
            assert(spec_trim(s@) =~= Seq::<char>::empty());
        }
        return String::new();
    }
    let mut b: usize = n;
    while b > a && is_ws_char(s.get_char(b - 1))
        invariant
            a <= b <= n,
            n == s@.len(),
            forall|i: int| b <= i < n ==> is_ws(s@[i]),
        decreases b,
    {
        b = b - 1;
    }
    proof {
        assert(!is_ws(s@[a as int]));
        assert(b > a);
        let ts = s@.skip(a as int);
        assert(forall|i: int| b - a <= i < ts.len() ==> is_ws(#[trigger] ts[i]));
        assert(!is_ws(ts[b - a - 1]));
        lemma_trim_end_take(ts, b - a);
        assert(ts.take(b - a) =~= s@.subrange(a as int, b as int));
    }
    String::from_str(s.substring_char(a, b))
}

} // verus!
