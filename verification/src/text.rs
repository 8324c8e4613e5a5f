//! Character-level text model shared by the parsers: whitespace, trimming,
//! splitting on a separator, line breaking, and string building helpers.
use vstd::prelude::*;

verus! {

broadcast use vstd::string::axiom_spec_iter;

/// The Unicode `White_Space` property, which is what `char::is_whitespace`
/// and `str::trim` go by.
pub open spec fn is_whitespace(c: char) -> bool {
    let u = c as u32;
    ||| 0x09 <= u <= 0x0D
    ||| u == 0x20
    ||| u == 0x85
    ||| u == 0xA0
    ||| u == 0x1680
    ||| 0x2000 <= u <= 0x200A
    ||| u == 0x2028
    ||| u == 0x2029
    ||| u == 0x202F
    ||| u == 0x205F
    ||| u == 0x3000
}

/// `s` without its leading whitespace.
pub open spec fn trim_start(s: Seq<char>) -> Seq<char>
    decreases s.len(),
{
    if s.len() > 0 && is_whitespace(s[0]) {
        trim_start(s.drop_first())
    } else {
        s
    }
}

/// `s` without its trailing whitespace.
pub open spec fn trim_end(s: Seq<char>) -> Seq<char>
    decreases s.len(),
{
    if s.len() > 0 && is_whitespace(s.last()) {
        trim_end(s.drop_last())
    } else {
        s
    }
}

/// `s` without leading and trailing whitespace.
pub open spec fn trim(s: Seq<char>) -> Seq<char> {
    trim_end(trim_start(s))
}

/// Splitting `s` at every `sep`, read left to right: the pieces already closed
/// by a separator, and the piece still open at the end of `s`.
pub open spec fn split_state(s: Seq<char>, sep: char) -> (Seq<Seq<char>>, Seq<char>)
    decreases s.len(),
{
    if s.len() == 0 {
        (Seq::empty(), Seq::empty())
    } else {
        let (done, cur) = split_state(s.drop_last(), sep);
        if s.last() == sep {
            (done.push(cur), Seq::empty())
        } else {
            (done, cur.push(s.last()))
        }
    }
}

/// All pieces of `s` between separators, empty ones included (as `str::split`).
pub open spec fn split_pieces(s: Seq<char>, sep: char) -> Seq<Seq<char>> {
    let (done, cur) = split_state(s, sep);
    done.push(cur)
}

/// The lines of `s`: the pieces between line feeds, where a final line feed
/// opens no further line (as `str::lines`; a carriage return before a line
/// feed stays in the line here, and every user of a line trims it away).
pub open spec fn text_lines(s: Seq<char>) -> Seq<Seq<char>> {
    let (done, cur) = split_state(s, '\n');
    if cur.len() == 0 {
        done
    } else {
        done.push(cur)
    }
}

pub open spec fn non_empty(p: Seq<char>) -> bool {
    p.len() > 0
}

/// The non-empty pieces of `s` between single spaces, in order
/// (as `split(' ').filter(|p| !p.is_empty())`).
pub open spec fn space_fields(s: Seq<char>) -> Seq<Seq<char>> {
    split_pieces(s, ' ').filter(|p: Seq<char>| non_empty(p))
}

pub proof fn lemma_split_state_push(s: Seq<char>, sep: char, c: char)
    ensures
        split_state(s.push(c), sep) == (if c == sep {
            (split_state(s, sep).0.push(split_state(s, sep).1), Seq::<char>::empty())
        } else {
            (split_state(s, sep).0, split_state(s, sep).1.push(c))
        }),
{
    assert(s.push(c).drop_last() =~= s);
}

/// Splitting a text joined at one separator: the pieces of the left part
/// (its open piece closed by the separator), then those of the right part.
pub proof fn lemma_split_state_concat(a: Seq<char>, b: Seq<char>, sep: char)
    ensures
        split_state(a + seq![sep] + b, sep) == (split_state(a, sep).0.push(split_state(a, sep).1)
            + split_state(b, sep).0, split_state(b, sep).1),
    decreases b.len(),
{
    let (da, ca) = split_state(a, sep);
    if b.len() == 0 {
        assert(a + seq![sep] + b =~= a.push(sep));
        lemma_split_state_push(a, sep, sep);
        assert(da.push(ca) + Seq::<Seq<char>>::empty() =~= da.push(ca));
    } else {
        let b0 = b.drop_last();
        let c = b.last();
        lemma_split_state_concat(a, b0, sep);
        assert(a + seq![sep] + b =~= (a + seq![sep] + b0).push(c));
        assert(b0.push(c) =~= b);
        lemma_split_state_push(a + seq![sep] + b0, sep, c);
        lemma_split_state_push(b0, sep, c);
        let (d0, c0) = split_state(b0, sep);
        if c == sep {
            assert((da.push(ca) + d0).push(c0) =~= da.push(ca) + d0.push(c0));
        }
    }
}

pub open spec fn all_whitespace(s: Seq<char>) -> bool {
    forall|i: int| 0 <= i < s.len() ==> is_whitespace(#[trigger] s[i])
}

proof fn lemma_trim_start_ws_prefix(p: Seq<char>, r: Seq<char>)
    requires
        all_whitespace(p),
        r.len() == 0 || !is_whitespace(r[0]),
    ensures
        trim_start(p + r) == r,
    decreases p.len(),
{
    if p.len() == 0 {
        assert(p + r =~= r);
    } else {
        assert((p + r).drop_first() =~= p.drop_first() + r);
        assert((p + r)[0] == p[0]);
        lemma_trim_start_ws_prefix(p.drop_first(), r);
    }
}

proof fn lemma_trim_end_ws_suffix(r: Seq<char>, q: Seq<char>)
    requires
        all_whitespace(q),
        r.len() == 0 || !is_whitespace(r.last()),
    ensures
        trim_end(r + q) == r,
    decreases q.len(),
{
    if q.len() == 0 {
        assert(r + q =~= r);
    } else {
        assert((r + q).drop_last() =~= r + q.drop_last());
        assert((r + q).last() == q.last());
        lemma_trim_end_ws_suffix(r, q.drop_last());
    }
}

/// Trimming removes exactly the whitespace around the text: any text that
/// neither starts nor ends with whitespace, surrounded by whitespace on both
/// sides, trims to itself.
pub proof fn lemma_trim_removes_surrounding_whitespace(p: Seq<char>, t: Seq<char>, q: Seq<char>)
    requires
        all_whitespace(p),
        all_whitespace(q),
        t.len() == 0 || (!is_whitespace(t[0]) && !is_whitespace(t.last())),
    ensures
        trim(p + t + q) == t,
{
    if t.len() == 0 {
        assert(p + t + q =~= (p + q) + t);
        assert(all_whitespace(p + q)) by {
            assert forall|i: int| 0 <= i < (p + q).len() implies is_whitespace(#[trigger] (p
                + q)[i]) by {
                if i < p.len() {
                    assert((p + q)[i] == p[i]);
                } else {
                    assert((p + q)[i] == q[i - p.len()]);
                }
            }
        }
        lemma_trim_start_ws_prefix(p + q, t);
    } else {
        assert(p + t + q =~= p + (t + q));
        assert((t + q)[0] == t[0]);
        lemma_trim_start_ws_prefix(p, t + q);
        lemma_trim_end_ws_suffix(t, q);
    }
}

/// Fields are read left to right: the fields of two texts joined by a space
/// are the fields of the first followed by those of the second.
pub proof fn lemma_space_fields_concat(a: Seq<char>, b: Seq<char>)
    ensures
        space_fields(a + seq![' '] + b) == space_fields(a) + space_fields(b),
{
    lemma_split_state_concat(a, b, ' ');
    let (da, ca) = split_state(a, ' ');
    let (db, cb) = split_state(b, ' ');
    assert((da.push(ca) + db).push(cb) =~= da.push(ca) + db.push(cb));
    Seq::filter_distributes_over_add(da.push(ca), db.push(cb), |p: Seq<char>| non_empty(p));
}

/// A text without spaces is one field, unless it is empty.
pub proof fn lemma_space_fields_single(a: Seq<char>)
    requires
        forall|i: int| 0 <= i < a.len() ==> a[i] != ' ',
    ensures
        space_fields(a) == (if a.len() == 0 {
            Seq::<Seq<char>>::empty()
        } else {
            seq![a]
        }),
{
    lemma_split_state_no_sep(a, ' ');
    let e = Seq::<Seq<char>>::empty();
    e.lemma_filter_push(a, |p: Seq<char>| non_empty(p));
    reveal(Seq::filter);
    assert(e.filter(|p: Seq<char>| non_empty(p)) =~= e);
    assert(e.push(a) =~= seq![a]);
}

/// A text without the separator is one open piece.
pub proof fn lemma_split_state_no_sep(s: Seq<char>, sep: char)
    requires
        forall|i: int| 0 <= i < s.len() ==> s[i] != sep,
    ensures
        split_state(s, sep) == (Seq::<Seq<char>>::empty(), s),
    decreases s.len(),
{
    if s.len() > 0 {
        lemma_split_state_no_sep(s.drop_last(), sep);
        assert(s.drop_last().push(s.last()) =~= s);
    }
}

/// The lines of a text joined at a line feed: the left line, then the lines
/// of the rest.
pub proof fn lemma_text_lines_concat(a: Seq<char>, b: Seq<char>)
    requires
        forall|i: int| 0 <= i < a.len() ==> a[i] != '\n',
    ensures
        text_lines(a + seq!['\n'] + b) == seq![a] + text_lines(b),
{
    lemma_split_state_concat(a, b, '\n');
    lemma_split_state_no_sep(a, '\n');
    let (d, c) = split_state(b, '\n');
    assert(Seq::<Seq<char>>::empty().push(a) =~= seq![a]);
    if c.len() != 0 {
        assert((seq![a] + d).push(c) =~= seq![a] + d.push(c));
    }
}

/// A text without a line feed is one line, unless it is empty.
pub proof fn lemma_text_lines_single(a: Seq<char>)
    requires
        forall|i: int| 0 <= i < a.len() ==> a[i] != '\n',
    ensures
        text_lines(a) == (if a.len() == 0 {
            Seq::<Seq<char>>::empty()
        } else {
            seq![a]
        }),
{
    lemma_split_state_no_sep(a, '\n');
    assert(Seq::<Seq<char>>::empty().push(a) =~= seq![a]);
}

/// The characters that count as whitespace are exactly the Unicode
/// `White_Space` ones: tab, line feed, vertical tab, form feed, carriage
/// return, space, next line, no-break space, ogham space mark, the spaces
/// U+2000 to U+200A, line and paragraph separators, narrow no-break space,
/// medium mathematical space and ideographic space; zero-width space and
/// other characters are not.
pub proof fn lemma_whitespace_characters()
    ensures
        is_whitespace('\t') && is_whitespace('\n') && is_whitespace('\u{0B}') && is_whitespace(
            '\u{0C}',
        ) && is_whitespace('\r') && is_whitespace(' '),
        is_whitespace('\u{85}') && is_whitespace('\u{A0}') && is_whitespace('\u{1680}'),
        forall|u: u32| 0x2000 <= u <= 0x200A ==> is_whitespace(#[trigger] char_of(u)),
        is_whitespace('\u{2028}') && is_whitespace('\u{2029}') && is_whitespace('\u{202F}')
            && is_whitespace('\u{205F}') && is_whitespace('\u{3000}'),
        !is_whitespace('\u{200B}') && !is_whitespace('\u{08}') && !is_whitespace('\u{0E}')
            && !is_whitespace('\u{1F}') && !is_whitespace('\u{84}') && !is_whitespace('\u{86}')
            && !is_whitespace('\u{FEFF}') && !is_whitespace('v') && !is_whitespace('0'),
{
}

pub open spec fn char_of(u: u32) -> char {
    u as char
}

pub fn is_whitespace_char(c: char) -> (b: bool)
    ensures
        b == is_whitespace(c),
{
    let u = c as u32;
    (0x09 <= u && u <= 0x0D) || u == 0x20 || u == 0x85 || u == 0xA0 || u == 0x1680 || (0x2000
        <= u && u <= 0x200A) || u == 0x2028 || u == 0x2029 || u == 0x202F || u == 0x205F || u
        == 0x3000
}

/// Bounds `(lo, hi)` such that `chars[lo..hi]` is `chars` trimmed.
pub fn trimmed_bounds(chars: &Vec<char>) -> (r: (usize, usize))
    ensures
        r.0 <= r.1 <= chars.len(),
        chars@.subrange(r.0 as int, r.1 as int) == trim(chars@),
        forall|i: int| 0 <= i < r.0 ==> is_whitespace(#[trigger] chars@[i]),
        forall|i: int| r.1 <= i < chars.len() ==> is_whitespace(#[trigger] chars@[i]),
        r.0 < r.1 ==> !is_whitespace(chars@[r.0 as int]) && !is_whitespace(chars@[r.1 - 1]),
{
    let n = chars.len();
    let mut lo: usize = 0;
    assert(chars@.subrange(0, n as int) =~= chars@);
    while lo < n && is_whitespace_char(chars[lo])
        invariant
            lo <= n == chars.len(),
            trim_start(chars@) == trim_start(chars@.subrange(lo as int, n as int)),
            forall|i: int| 0 <= i < lo ==> is_whitespace(#[trigger] chars@[i]),
        decreases n - lo,
    {
        assert(chars@.subrange(lo as int, n as int).drop_first() =~= chars@.subrange(
            lo + 1,
            n as int,
        ));
        lo = lo + 1;
    }
    let mut hi: usize = n;
    while hi > lo && is_whitespace_char(chars[hi - 1])
        invariant
            lo <= hi <= n == chars.len(),
            trim_start(chars@) == chars@.subrange(lo as int, n as int),
            trim(chars@) == trim_end(chars@.subrange(lo as int, hi as int)),
            forall|i: int| 0 <= i < lo ==> is_whitespace(#[trigger] chars@[i]),
            forall|i: int| hi <= i < n ==> is_whitespace(#[trigger] chars@[i]),
            lo < n ==> !is_whitespace(chars@[lo as int]),
        decreases hi - lo,
    {
        assert(chars@.subrange(lo as int, hi as int).drop_last() =~= chars@.subrange(
            lo as int,
            hi - 1,
        ));
        hi = hi - 1;
    }
    (lo, hi)
}

/// Appends one character to a string.
#[verifier::external_body]
pub(crate) fn push_char(s: &mut String, c: char)
    ensures
        final(s)@ == old(s)@.push(c),
{
    s.push(c);
}

/// Appends `chars[lo..hi]` to `s`.
pub fn push_chars(s: &mut String, chars: &Vec<char>, lo: usize, hi: usize)
    requires
        lo <= hi <= chars.len(),
    ensures
        final(s)@ == old(s)@ + chars@.subrange(lo as int, hi as int),
{
    let ghost start = s@;
    let mut k = lo;
    while k < hi
        invariant
            lo <= k <= hi <= chars.len(),
            s@ == start + chars@.subrange(lo as int, k as int),
        decreases hi - k,
    {
        push_char(s, chars[k]);
        assert(chars@.subrange(lo as int, k + 1) =~= chars@.subrange(lo as int, k as int).push(
            chars@[k as int],
        ));
        k = k + 1;
    }
}

/// Appends the characters of `t` to `s`.
pub fn push_str(s: &mut String, t: &str)
    ensures
        final(s)@ == old(s)@ + t@,
{
    let ghost start = s@;
    for c in it: t.chars()
        invariant
            it.seq() == t@,
            s@ == start + t@.take(it.index() as int),
    {
        push_char(s, c);
        assert(t@.take(it.index() + 1) =~= t@.take(it.index() as int).push(c));
    }
    assert(t@.take(t@.len() as int) =~= t@);
}

/// The characters of `s`.
pub fn chars_of(s: &str) -> (res: Vec<char>)
    ensures
        res@ == s@,
{
    let mut res: Vec<char> = Vec::new();
    for c in it: s.chars()
        invariant
            it.seq() == s@,
            res@ == s@.take(it.index() as int),
    {
        res.push(c);
        assert(s@.take(it.index() + 1) =~= s@.take(it.index() as int).push(c));
    }
    assert(s@.take(s@.len() as int) =~= s@);
    res
}

} // verus!
