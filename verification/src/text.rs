//! Character-level helpers on strings, each proved against a spec over `Seq<char>`.

use vstd::prelude::*;

verus! {

broadcast use vstd::string::group_string_axioms;

/// Appends one character to a string (`String::push`).
#[verifier::external_body]
pub(crate) fn push_char(s: &mut String, c: char)
    ensures
        final(s)@ == old(s)@.push(c),
{
    s.push(c);
}

/// The characters of a string, in order.
pub fn to_chars(s: &str) -> (v: Vec<char>)
    ensures
        v@ == s@,
{
    let mut v: Vec<char> = Vec::new();
    for c in it: s.chars()
        invariant
            it.seq() == s@,
            v@ == it.seq().take(it.index() as int),
    {
        v.push(c);
    }
    v
}

/// The string made of the given characters.
pub fn from_chars(v: &[char]) -> (s: String)
    ensures
        s@ == v@,
{
    let mut s = String::new();
    let mut i: usize = 0;
    while i < v.len()
        invariant
            i <= v.len(),
            s@ == v@.take(i as int),
        decreases v.len() - i,
    {
        push_char(&mut s, v[i]);
        assert(v@.take(i + 1) == v@.take(i as int).push(v@[i as int]));
        i += 1;
    }
    assert(v@.take(v.len() as int) == v@);
    s
}


/// `char::is_whitespace`: the Unicode `White_Space` property.
pub open spec fn is_ws(c: char) -> bool {
    ||| ('\u{9}' <= c && c <= '\u{d}')
    ||| c == ' '
    ||| c == '\u{85}'
    ||| c == '\u{a0}'
    ||| c == '\u{1680}'
    ||| ('\u{2000}' <= c && c <= '\u{200a}')
    ||| c == '\u{2028}'
    ||| c == '\u{2029}'
    ||| c == '\u{202f}'
    ||| c == '\u{205f}'
    ||| c == '\u{3000}'
}

/// `c.is_whitespace()`.
pub fn is_whitespace(c: char) -> (b: bool)
    ensures
        b == is_ws(c),
{
    ('\u{9}' <= c && c <= '\u{d}') || c == ' ' || c == '\u{85}' || c == '\u{a0}' || c == '\u{1680}'
        || ('\u{2000}' <= c && c <= '\u{200a}') || c == '\u{2028}' || c == '\u{2029}'
        || c == '\u{202f}' || c == '\u{205f}' || c == '\u{3000}'
}

/// The number of leading characters of `s` that satisfy `p`.
pub open spec fn lead_count(s: Seq<char>, p: spec_fn(char) -> bool) -> nat
    decreases s.len(),
{
    if s.len() > 0 && p(s[0]) {
        1 + lead_count(s.drop_first(), p)
    } else {
        0
    }
}

/// The number of trailing characters of `s` that satisfy `p`.
pub open spec fn trail_count(s: Seq<char>, p: spec_fn(char) -> bool) -> nat
    decreases s.len(),
{
    if s.len() > 0 && p(s.last()) {
        1 + trail_count(s.drop_last(), p)
    } else {
        0
    }
}

pub open spec fn ws_pred() -> spec_fn(char) -> bool {
    |c: char| is_ws(c)
}

/// `s.trim()`: without leading and trailing whitespace.
pub open spec fn trim_spec(s: Seq<char>) -> Seq<char> {
    let a = s.skip(lead_count(s, ws_pred()) as int);
    a.take(a.len() - trail_count(a, ws_pred()))
}

/// `s.trim_end_matches(c)`: without the trailing run of `c`.
pub open spec fn trim_end_char_spec(s: Seq<char>, c: char) -> Seq<char> {
    s.take(s.len() - trail_count(s, char_pred(c)))
}

pub open spec fn char_pred(c: char) -> spec_fn(char) -> bool {
    |x: char| x == c
}

pub proof fn lemma_lead_count(s: Seq<char>, p: spec_fn(char) -> bool, i: int)
    requires
        0 <= i <= s.len(),
        forall|j: int| 0 <= j < i ==> p(s[j]),
        i == s.len() || !p(s[i]),
    ensures
        lead_count(s, p) == i,
    decreases i,
{
    if i > 0 {
        lemma_lead_count(s.drop_first(), p, i - 1);
    }
}

pub proof fn lemma_trail_count(s: Seq<char>, p: spec_fn(char) -> bool, i: int)
    requires
        0 <= i <= s.len(),
        forall|j: int| i <= j < s.len() ==> p(s[j]),
        i == 0 || !p(s[i - 1]),
    ensures
        trail_count(s, p) == s.len() - i,
    decreases s.len() - i,
{
    if i < s.len() {
        lemma_trail_count(s.drop_last(), p, i);
    }
}

/// The string of the characters `v[from..to]`.
pub fn chars_range(v: &Vec<char>, from: usize, to: usize) -> (s: String)
    requires
        from <= to <= v.len(),
    ensures
        s@ == v@.subrange(from as int, to as int),
{
    let mut s = String::new();
    let mut i: usize = from;
    while i < to
        invariant
            from <= i <= to <= v.len(),
            s@ == v@.subrange(from as int, i as int),
        decreases to - i,
    {
        push_char(&mut s, v[i]);
        assert(v@.subrange(from as int, i + 1) =~= v@.subrange(from as int, i as int).push(v@[i as int]));
        i += 1;
    }
    s
}

/// `s.trim()`.
pub fn trim(s: &str) -> (r: String)
    ensures
        r@ == trim_spec(s@),
{
    let v = to_chars(s);
    let mut i: usize = 0;
    while i < v.len() && is_whitespace(v[i])
        invariant
            v@ == s@,
            i <= v.len(),
            forall|j: int| 0 <= j < i ==> is_ws(v@[j]),
        decreases v.len() - i,
    {
        i += 1;
    }
    proof {
        lemma_lead_count(s@, ws_pred(), i as int);
    }
    let mut e: usize = v.len();
    while e > i && is_whitespace(v[e - 1])
        invariant
            v@ == s@,
            i <= e <= v.len(),
            forall|j: int| e <= j < v.len() ==> is_ws(v@[j]),
        decreases e,
    {
        e -= 1;
    }
    proof {
        let a = s@.skip(i as int);
        lemma_trail_count(a, ws_pred(), (e - i) as int);
        assert(a.take(a.len() - trail_count(a, ws_pred())) =~= v@.subrange(i as int, e as int));
    }
    chars_range(&v, i, e)
}

/// `s.trim_end_matches(c)`.
pub fn trim_end_char(s: &str, c: char) -> (r: String)
    ensures
        r@ == trim_end_char_spec(s@, c),
{
    let v = to_chars(s);
    let mut e: usize = v.len();
    while e > 0 && v[e - 1] == c
        invariant
            v@ == s@,
            e <= v.len(),
            forall|j: int| e <= j < v.len() ==> v@[j] == c,
        decreases e,
    {
        e -= 1;
    }
    proof {
        lemma_trail_count(s@, char_pred(c), e as int);
        assert(s@.take(s@.len() - trail_count(s@, char_pred(c))) =~= v@.subrange(0, e as int));
    }
    chars_range(&v, 0, e)
}

/// `s.replace(pat, with)` for a non-empty pattern: each leftmost
/// non-overlapping occurrence of `pat` is replaced by `with`.
pub open spec fn replace_spec(s: Seq<char>, pat: Seq<char>, with: Seq<char>) -> Seq<char>
    decreases s.len(),
{
    if s.len() == 0 || pat.len() == 0 {
        s
    } else if pat.len() <= s.len() && s.take(pat.len() as int) == pat {
        with + replace_spec(s.skip(pat.len() as int), pat, with)
    } else {
        seq![s[0]] + replace_spec(s.drop_first(), pat, with)
    }
}

fn matches_at(v: &Vec<char>, i: usize, p: &Vec<char>) -> (b: bool)
    requires
        i <= v.len(),
    ensures
        b == (p.len() <= v.len() - i && v@.skip(i as int).take(p.len() as int) == p@),
{
    if p.len() > v.len() - i {
        return false;
    }
    let mut j: usize = 0;
    while j < p.len()
        invariant
            p.len() <= v.len() - i,
            j <= p.len(),
            forall|k: int| 0 <= k < j ==> v@[i + k] == p@[k],
        decreases p.len() - j,
    {
        if v[i + j] != p[j] {
            assert(v@.skip(i as int).take(p.len() as int)[j as int] != p@[j as int]);
            return false;
        }
        j += 1;
    }
    assert(v@.skip(i as int).take(p.len() as int) =~= p@);
    true
}

/// `s.replace(pat, with)` for a non-empty `pat`.
pub fn replace(s: &str, pat: &str, with: &str) -> (r: String)
    requires
        pat@.len() > 0,
    ensures
        r@ == replace_spec(s@, pat@, with@),
{
    let v = to_chars(s);
    let p = to_chars(pat);
    let mut out = String::new();
    let mut i: usize = 0;
    assert(v@.skip(0) =~= v@);
    assert(out@ + replace_spec(v@, p@, with@) =~= replace_spec(v@, p@, with@));
    while i < v.len()
        invariant
            v@ == s@,
            p@ == pat@,
            p@.len() > 0,
            i <= v.len(),
            out@ + replace_spec(v@.skip(i as int), p@, with@) == replace_spec(v@, p@, with@),
        decreases v.len() - i,
    {
        let ghost rest = v@.skip(i as int);
        if matches_at(&v, i, &p) {
            assert(rest.skip(p@.len() as int) =~= v@.skip(i + p@.len()));
            out.append(with);
            i += p.len();
        } else {
            assert(rest.drop_first() =~= v@.skip(i + 1));
            push_char(&mut out, v[i]);
            i += 1;
        }
    }
    assert(v@.skip(i as int).len() == 0);
    assert(out@ + replace_spec(v@.skip(i as int), p@, with@) =~= out@);
    out
}


pub open spec fn non_ws_pred() -> spec_fn(char) -> bool {
    |c: char| !is_ws(c)
}

pub proof fn lemma_lead_count_stop(s: Seq<char>, p: spec_fn(char) -> bool)
    ensures
        lead_count(s, p) <= s.len(),
        lead_count(s, p) < s.len() ==> !p(s[lead_count(s, p) as int]),
        forall|j: int| 0 <= j < lead_count(s, p) ==> p(#[trigger] s[j]),
    decreases s.len(),
{
    if s.len() > 0 && p(s[0]) {
        lemma_lead_count_stop(s.drop_first(), p);
        assert forall|j: int| 0 <= j < lead_count(s, p) implies p(#[trigger] s[j]) by {
            if j > 0 {
                assert(s[j] == s.drop_first()[j - 1]);
            }
        }
    }
}

/// `s.split_whitespace()`: the maximal runs of non-whitespace characters.
pub open spec fn ws_tokens(s: Seq<char>) -> Seq<Seq<char>>
    decreases s.len(),
{
    let t = s.skip(lead_count(s, ws_pred()) as int);
    if lead_count(s, ws_pred()) >= s.len() {
        seq![]
    } else {
        let k = lead_count(t, non_ws_pred());
        if k == 0 {
            seq![]
        } else {
            proof {
                lemma_lead_count_stop(t, non_ws_pred());
            }
            seq![t.take(k as int)] + ws_tokens(t.skip(k as int))
        }
    }
}

/// The first whitespace-separated token of `v[i..]` as `(start, end)`, if any.
fn next_token(v: &Vec<char>, i: usize) -> (r: Option<(usize, usize)>)
    requires
        i <= v.len(),
    ensures
        r is None <==> ws_tokens(v@.skip(i as int)).len() == 0,
        r matches Some((a, b)) ==> i <= a < b <= v.len() && ws_tokens(v@.skip(i as int)) == seq![
            v@.subrange(a as int, b as int),
        ] + ws_tokens(v@.skip(b as int)),
{
    let ghost s = v@.skip(i as int);
    let mut a: usize = i;
    while a < v.len() && is_whitespace(v[a])
        invariant
            i <= a <= v.len(),
            forall|j: int| i <= j < a ==> is_ws(v@[j]),
        decreases v.len() - a,
    {
        a += 1;
    }
    proof {
        lemma_lead_count(s, ws_pred(), a - i);
    }
    if a == v.len() {
        return None;
    }
    let mut b: usize = a;
    while b < v.len() && !is_whitespace(v[b])
        invariant
            a <= b <= v.len(),
            forall|j: int| a <= j < b ==> !is_ws(v@[j]),
        decreases v.len() - b,
    {
        b += 1;
    }
    proof {
        let t = s.skip(a - i);
        assert(t =~= v@.skip(a as int));
        lemma_lead_count(t, non_ws_pred(), b - a);
        assert(t.take(b - a) =~= v@.subrange(a as int, b as int));
        assert(t.skip(b - a) =~= v@.skip(b as int));
    }
    Some((a, b))
}

/// `s.split_whitespace().collect()`.
pub fn split_whitespace(s: &str) -> (r: Vec<String>)
    ensures
        r@.map_values(|x: String| x@) == ws_tokens(s@),
{
    let v = to_chars(s);
    let mut out: Vec<String> = Vec::new();
    let mut i: usize = 0;
    assert(v@.skip(0) =~= v@);
    while i < v.len()
        invariant
            v@ == s@,
            i <= v.len(),
            out@.map_values(|x: String| x@) + ws_tokens(v@.skip(i as int)) == ws_tokens(v@),
        decreases v.len() - i,
    {
        match next_token(&v, i) {
            None => {
                i = v.len();
                assert(ws_tokens(v@.skip(i as int)) =~= Seq::<Seq<char>>::empty()) by {
                    assert(v@.skip(i as int).len() == 0);
                }
                assert(out@.map_values(|x: String| x@) + Seq::<Seq<char>>::empty() =~= out@.map_values(|x: String| x@));
            },
            Some((a, b)) => {
                let t = chars_range(&v, a, b);
                let ghost before = out@.map_values(|x: String| x@);
                out.push(t);
                assert(out@.map_values(|x: String| x@) =~= before.push(t@));
                assert(before + (seq![t@] + ws_tokens(v@.skip(b as int))) =~= before.push(t@) + ws_tokens(v@.skip(b as int)));
                i = b;
            },
        }
    }
    assert(v@.skip(i as int).len() == 0);
    assert(ws_tokens(v@.skip(i as int)) =~= Seq::<Seq<char>>::empty());
    assert(out@.map_values(|x: String| x@) + Seq::<Seq<char>>::empty() =~= out@.map_values(|x: String| x@));
    out
}

/// `s.split_whitespace().next()`.
pub fn first_token(s: &str) -> (r: Option<String>)
    ensures
        r is None <==> ws_tokens(s@).len() == 0,
        r matches Some(t) ==> t@ == ws_tokens(s@)[0],
{
    let v = to_chars(s);
    assert(v@.skip(0) =~= v@);
    match next_token(&v, 0) {
        None => None,
        Some((a, b)) => Some(chars_range(&v, a, b)),
    }
}

/// The strings of `parts` with `sep` between each two.
pub open spec fn join_spec(parts: Seq<Seq<char>>, sep: Seq<char>) -> Seq<char>
    decreases parts.len(),
{
    if parts.len() == 0 {
        seq![]
    } else if parts.len() == 1 {
        parts[0]
    } else {
        join_spec(parts.drop_last(), sep) + sep + parts.last()
    }
}

/// `parts.join(sep)`.
pub fn join(parts: &Vec<String>, sep: &str) -> (r: String)
    ensures
        r@ == join_spec(parts@.map_values(|x: String| x@), sep@),
{
    let ghost ps = parts@.map_values(|x: String| x@);
    let mut out = String::new();
    let mut i: usize = 0;
    while i < parts.len()
        invariant
            i <= parts.len(),
            ps == parts@.map_values(|x: String| x@),
            out@ == join_spec(ps.take(i as int), sep@),
        decreases parts.len() - i,
    {
        if i > 0 {
            out.append(sep);
        }
        out.append(parts[i].as_str());
        proof {
            assert(ps.take(i + 1).drop_last() =~= ps.take(i as int));
            if i == 0 {
                assert(ps.take(1) =~= seq![ps[0]]);
                assert(out@ =~= ps[0]);
            }
        }
        i += 1;
    }
    assert(ps.take(parts.len() as int) =~= ps);
    out
}


/// `a == b` on string contents.
pub fn str_eq(a: &str, b: &str) -> (r: bool)
    ensures
        r == (a@ == b@),
{
    let x = to_chars(a);
    let y = to_chars(b);
    if x.len() != y.len() {
        return false;
    }
    let mut i: usize = 0;
    while i < x.len()
        invariant
            x@ == a@,
            y@ == b@,
            x.len() == y.len(),
            i <= x.len(),
            forall|j: int| 0 <= j < i ==> x@[j] == y@[j],
        decreases x.len() - i,
    {
        if x[i] != y[i] {
            return false;
        }
        i += 1;
    }
    assert(x@ =~= y@);
    true
}


pub open spec fn not_char_pred(c: char) -> spec_fn(char) -> bool {
    |x: char| x != c
}

/// `s.split(c)`: the pieces between occurrences of `c`, empty ones included.
pub open spec fn split_spec(s: Seq<char>, c: char) -> Seq<Seq<char>>
    decreases s.len(),
{
    let k = lead_count(s, not_char_pred(c));
    if k >= s.len() {
        seq![s]
    } else {
        seq![s.take(k as int)] + split_spec(s.skip(k as int + 1), c)
    }
}

/// `s.split(c).collect()`.
pub fn split_char(s: &str, c: char) -> (r: Vec<String>)
    ensures
        r@.map_values(|x: String| x@) == split_spec(s@, c),
{
    let v = to_chars(s);
    let mut out: Vec<String> = Vec::new();
    let mut start: usize = 0;
    assert(v@.skip(0) =~= v@);
    loop
        invariant
            v@ == s@,
            start <= v.len(),
            out@.map_values(|x: String| x@) + split_spec(v@.skip(start as int), c) == split_spec(v@, c),
        decreases v.len() - start,
    {
        let ghost rest = v@.skip(start as int);
        let mut e: usize = start;
        while e < v.len() && v[e] != c
            invariant
                start <= e <= v.len(),
                forall|j: int| start <= j < e ==> v@[j] != c,
            decreases v.len() - e,
        {
            e += 1;
        }
        proof {
            lemma_lead_count(rest, not_char_pred(c), e - start);
            assert(rest.take(e - start) =~= v@.subrange(start as int, e as int));
        }
        let piece = chars_range(&v, start, e);
        let ghost before = out@.map_values(|x: String| x@);
        out.push(piece);
        assert(out@.map_values(|x: String| x@) =~= before.push(piece@));
        if e == v.len() {
            assert(before + seq![piece@] =~= before.push(piece@));
            return out;
        }
        assert(rest.skip(e - start + 1) =~= v@.skip(e + 1));
        assert(before + (seq![piece@] + split_spec(v@.skip(e + 1), c)) =~= before.push(piece@) + split_spec(v@.skip(e + 1), c));
        start = e + 1;
    }
}


/// `s.starts_with(prefix)`.
pub open spec fn starts_with_spec(s: Seq<char>, prefix: Seq<char>) -> bool {
    prefix.len() <= s.len() && s.take(prefix.len() as int) == prefix
}

/// `s.starts_with(prefix)`.
pub fn starts_with(s: &str, prefix: &str) -> (b: bool)
    ensures
        b == starts_with_spec(s@, prefix@),
{
    let v = to_chars(s);
    let p = to_chars(prefix);
    if p.len() > v.len() {
        return false;
    }
    let mut i: usize = 0;
    while i < p.len()
        invariant
            v@ == s@,
            p@ == prefix@,
            p.len() <= v.len(),
            i <= p.len(),
            forall|j: int| 0 <= j < i ==> v@[j] == p@[j],
        decreases p.len() - i,
    {
        if v[i] != p[i] {
            assert(v@.take(p.len() as int)[i as int] != p@[i as int]);
            return false;
        }
        i += 1;
    }
    assert(v@.take(p.len() as int) =~= p@);
    true
}

/// A line without the `\r` of a `\r\n` ending.
pub open spec fn strip_cr(l: Seq<char>) -> Seq<char> {
    if l.len() > 0 && l.last() == '\r' {
        l.drop_last()
    } else {
        l
    }
}

/// `s.lines()`: the lines ended by `\n` or `\r\n`; a last line without an
/// ending is kept unless it is empty.
pub open spec fn lines_spec(s: Seq<char>) -> Seq<Seq<char>> {
    let p = split_spec(s, '\n');
    let init = p.take(p.len() - 1).map_values(|l: Seq<char>| strip_cr(l));
    if p.len() == 0 || p.last().len() == 0 {
        init
    } else {
        init.push(p.last())
    }
}

/// `s.lines().collect()`.
pub fn lines(s: &str) -> (r: Vec<String>)
    ensures
        r@.map_values(|x: String| x@) == lines_spec(s@),
{
    let parts = split_char(s, '\n');
    let ghost ps = parts@.map_values(|x: String| x@);
    let mut out: Vec<String> = Vec::new();
    let n = parts.len();
    if n == 0 {
        assert(ps.take(ps.len() - 1).map_values(|l: Seq<char>| strip_cr(l)) =~= Seq::<Seq<char>>::empty());
        assert(out@.map_values(|x: String| x@) =~= Seq::<Seq<char>>::empty());
        return out;
    }
    let mut i: usize = 0;
    while i + 1 < n
        invariant
            ps == parts@.map_values(|x: String| x@),
            ps == split_spec(s@, '\n'),
            n == parts.len(),
            n > 0,
            i + 1 <= n,
            out@.map_values(|x: String| x@) == ps.take(i as int).map_values(|l: Seq<char>| strip_cr(l)),
        decreases n - i,
    {
        let v = to_chars(parts[i].as_str());
        let line = if v.len() > 0 && v[v.len() - 1] == '\r' {
            chars_range(&v, 0, v.len() - 1)
        } else {
            chars_range(&v, 0, v.len())
        };
        proof {
            assert(ps[i as int] == parts@[i as int]@);
            assert(v@.subrange(0, v.len() - 1) =~= v@.drop_last());
            assert(v@.subrange(0, v.len() as int) =~= v@);
        }
        let ghost before = out@.map_values(|x: String| x@);
        out.push(line);
        proof {
            assert(out@.map_values(|x: String| x@) =~= before.push(line@));
            assert(ps.take(i + 1).map_values(|l: Seq<char>| strip_cr(l)) =~= ps.take(i as int).map_values(
                |l: Seq<char>| strip_cr(l),
            ).push(strip_cr(ps[i as int])));
        }
        i += 1;
    }
    let last = &parts[n - 1];
    assert(ps.last() == last@);
    if last.as_str().unicode_len() == 0 {
        out
    } else {
        let ghost before = out@.map_values(|x: String| x@);
        out.push(last.clone());
        assert(out@.map_values(|x: String| x@) =~= before.push(ps.last()));
        out
    }
}

} // verus!
