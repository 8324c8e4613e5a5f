//! Reading vertex records out of Wavefront OBJ text.
//!
//! A vertex record is a line that, once trimmed, starts with `v` and a space
//! and has at least four space-separated fields; its second to fourth fields
//! are the coordinate texts. What the coordinates mean as numbers is decided
//! by the caller.
use vstd::prelude::*;
use crate::text::{
    lemma_split_state_no_sep, lemma_split_state_push, lemma_text_lines_concat, lemma_text_lines_single, non_empty, push_char, push_chars, space_fields, split_state, text_lines,
    trim, trimmed_bounds,
};

verus! {

broadcast use vstd::string::axiom_spec_iter;

/// One vertex record: the trimmed line and its three coordinate fields.
pub struct VertexLine {
    pub line: String,
    pub x: String,
    pub y: String,
    pub z: String,
}

impl View for VertexLine {
    type V = (Seq<char>, Seq<char>, Seq<char>, Seq<char>);

    open spec fn view(&self) -> Self::V {
        (self.line@, self.x@, self.y@, self.z@)
    }
}

/// What one line of OBJ text contributes: the trimmed line with its first
/// three coordinate fields if it is a vertex record, nothing otherwise.
pub open spec fn vertex_record(line: Seq<char>) -> Option<(Seq<char>, Seq<char>, Seq<char>, Seq<char>)> {
    let t = trim(line);
    if t.len() >= 2 && t[0] == 'v' && t[1] == ' ' {
        let f = space_fields(t);
        if f.len() >= 4 {
            Some((t, f[1], f[2], f[3]))
        } else {
            None
        }
    } else {
        None
    }
}

/// The vertex records of a sequence of lines, in order.
pub open spec fn vertex_records_of(lines: Seq<Seq<char>>) -> Seq<(Seq<char>, Seq<char>, Seq<char>, Seq<char>)>
    decreases lines.len(),
{
    if lines.len() == 0 {
        Seq::empty()
    } else {
        let before = vertex_records_of(lines.drop_last());
        match vertex_record(lines.last()) {
            Some(r) => before.push(r),
            None => before,
        }
    }
}

/// The vertex records of OBJ text, in the order of its lines.
pub open spec fn vertex_records(text: Seq<char>) -> Seq<(Seq<char>, Seq<char>, Seq<char>, Seq<char>)> {
    vertex_records_of(text_lines(text))
}

/// Any line that, trimmed, starts with `v` and a space and has at least four
/// fields is a vertex record, however many fields follow the fourth: the
/// record is the trimmed line and its second, third and fourth fields.
pub proof fn lemma_vertex_line_with_extra_fields(line: Seq<char>)
    requires
        trim(line).len() >= 2,
        trim(line)[0] == 'v',
        trim(line)[1] == ' ',
        space_fields(trim(line)).len() >= 4,
    ensures
        vertex_record(line) == Some(
            (
                trim(line),
                space_fields(trim(line))[1],
                space_fields(trim(line))[2],
                space_fields(trim(line))[3],
            ),
        ),
{
}

/// A line is a vertex record only if, trimmed, it starts with `v` and a
/// space and has at least four fields.
pub proof fn lemma_vertex_record_needs_v_and_four_fields(line: Seq<char>)
    ensures
        vertex_record(line) is Some ==> trim(line).len() >= 2 && trim(line)[0] == 'v' && trim(
            line,
        )[1] == ' ' && space_fields(trim(line)).len() >= 4,
{
}

/// A text of one line ending in a line feed holds exactly that line's vertex
/// record, if it is one, and nothing else.
pub proof fn lemma_one_line_text(line: Seq<char>)
    requires
        forall|i: int| 0 <= i < line.len() ==> line[i] != '\n',
    ensures
        vertex_records(line.push('\n')) == (match vertex_record(line) {
            Some(r) => seq![r],
            None => Seq::empty(),
        }),
{
    lemma_split_state_no_sep(line, '\n');
    lemma_split_state_push(line, '\n', '\n');
    assert(text_lines(line.push('\n')) =~= seq![line]);
    assert(seq![line].drop_last() =~= Seq::<Seq<char>>::empty());
    assert(seq![line].last() == line);
    let none: Seq<(Seq<char>, Seq<char>, Seq<char>, Seq<char>)> = Seq::empty();
    assert(vertex_records_of(Seq::<Seq<char>>::empty()) == none);
    match vertex_record(line) {
        Some(r) => {
            assert(none.push(r) =~= seq![r]);
        },
        None => {},
    }
}

/// The vertex record of one line, as a sequence of none or one record.
pub open spec fn record_of_line(line: Seq<char>) -> Seq<(Seq<char>, Seq<char>, Seq<char>, Seq<char>)> {
    match vertex_record(line) {
        Some(r) => seq![r],
        None => Seq::empty(),
    }
}

proof fn lemma_records_of_concat(
    xs: Seq<Seq<char>>,
    ys: Seq<Seq<char>>,
)
    ensures
        vertex_records_of(xs + ys) == vertex_records_of(xs) + vertex_records_of(ys),
    decreases ys.len(),
{
    if ys.len() == 0 {
        assert(xs + ys =~= xs);
        assert(vertex_records_of(xs) + vertex_records_of(ys) =~= vertex_records_of(xs));
    } else {
        lemma_records_of_concat(xs, ys.drop_last());
        assert((xs + ys).drop_last() =~= xs + ys.drop_last());
        assert((xs + ys).last() == ys.last());
        match vertex_record(ys.last()) {
            Some(r) => {
                assert((vertex_records_of(xs) + vertex_records_of(ys.drop_last())).push(r)
                    =~= vertex_records_of(xs) + vertex_records_of(ys.drop_last()).push(r));
            },
            None => {},
        }
    }
}

proof fn lemma_records_of_single(line: Seq<char>)
    ensures
        vertex_records_of(seq![line]) == record_of_line(line),
{
    assert(seq![line].drop_last() =~= Seq::<Seq<char>>::empty());
    assert(seq![line].last() == line);
    let none: Seq<(Seq<char>, Seq<char>, Seq<char>, Seq<char>)> = Seq::empty();
    assert(vertex_records_of(Seq::<Seq<char>>::empty()) == none);
    match vertex_record(line) {
        Some(r) => {
            assert(none.push(r) =~= seq![r]);
        },
        None => {},
    }
}

/// Text is read line by line: a text made of a first line, a line feed and
/// the rest holds the first line's record (if it is one) followed by the
/// records of the rest.
pub proof fn lemma_records_line_by_line(first: Seq<char>, rest: Seq<char>)
    requires
        forall|i: int| 0 <= i < first.len() ==> first[i] != '\n',
    ensures
        vertex_records(first + seq!['\n'] + rest) == record_of_line(first) + vertex_records(rest),
{
    lemma_text_lines_concat(first, rest);
    lemma_records_of_concat(seq![first], text_lines(rest));
    lemma_records_of_single(first);
}

/// A text without a line feed is a single line, and the last line needs no
/// line feed after it.
pub proof fn lemma_records_of_last_line(line: Seq<char>)
    requires
        forall|i: int| 0 <= i < line.len() ==> line[i] != '\n',
    ensures
        vertex_records(line) == record_of_line(line),
{
    lemma_text_lines_single(line);
    if line.len() == 0 {
        assert(trim(line).len() == 0);
        assert(vertex_records_of(Seq::<Seq<char>>::empty()) =~= record_of_line(line));
    } else {
        lemma_records_of_single(line);
    }
}

pub open spec fn views_of(v: Seq<VertexLine>) -> Seq<(Seq<char>, Seq<char>, Seq<char>, Seq<char>)> {
    v.map_values(|r: VertexLine| r@)
}

pub open spec fn string_views(v: Seq<String>) -> Seq<Seq<char>> {
    v.map_values(|s: String| s@)
}

/// The space-separated fields of `chars[lo..hi]`.
fn fields_between(chars: &Vec<char>, lo: usize, hi: usize) -> (res: Vec<String>)
    requires
        lo <= hi <= chars.len(),
    ensures
        string_views(res@) == space_fields(chars@.subrange(lo as int, hi as int)),
{
    let mut done: Vec<String> = Vec::new();
    let mut cur = String::new();
    let mut k = lo;
    assert(chars@.subrange(lo as int, lo as int) =~= Seq::<char>::empty());
    while k < hi
        invariant
            lo <= k <= hi <= chars.len(),
            string_views(done@) == split_state(chars@.subrange(lo as int, k as int), ' ').0.filter(
                |p: Seq<char>| non_empty(p),
            ),
            cur@ == split_state(chars@.subrange(lo as int, k as int), ' ').1,
        decreases hi - k,
    {
        let ghost prefix = chars@.subrange(lo as int, k as int);
        let c = chars[k];
        proof {
            assert(chars@.subrange(lo as int, k + 1) =~= prefix.push(c));
            lemma_split_state_push(prefix, ' ', c);
            split_state(prefix, ' ').0.lemma_filter_push(
                split_state(prefix, ' ').1,
                |p: Seq<char>| non_empty(p),
            );
        }
        if c == ' ' {
            if !cur.as_str().is_empty() {
                let ghost old_done = done@;
                let piece = cur;
                done.push(piece);
                assert(string_views(done@) =~= string_views(old_done).push(piece@));
            } else {
                assert(cur@.len() == 0);
            }
            cur = String::new();
        } else {
            push_char(&mut cur, c);
        }
        k = k + 1;
    }
    let ghost all = chars@.subrange(lo as int, hi as int);
    proof {
        split_state(all, ' ').0.lemma_filter_push(split_state(all, ' ').1, |p: Seq<char>| non_empty(p));
    }
    if !cur.as_str().is_empty() {
        let ghost old_done = done@;
        let piece = cur;
        done.push(piece);
        assert(string_views(done@) =~= string_views(old_done).push(piece@));
    }
    done
}

/// The vertex record of one line, if it is one.
pub fn vertex_record_of_line(line: &Vec<char>) -> (res: Option<VertexLine>)
    ensures
        res matches Some(r) ==> vertex_record(line@) == Some(r@),
        res is None ==> vertex_record(line@) is None,
{
    let (lo, hi) = trimmed_bounds(line);
    let ghost t = line@.subrange(lo as int, hi as int);
    if hi - lo >= 2 && line[lo] == 'v' && line[lo + 1] == ' ' {
        let fields = fields_between(line, lo, hi);
        if fields.len() >= 4 {
            let mut trimmed = String::new();
            push_chars(&mut trimmed, line, lo, hi);
            assert(trimmed@ =~= t);
            let x = fields[1].clone();
            let y = fields[2].clone();
            let z = fields[3].clone();
            assert(x@ == string_views(fields@)[1]);
            assert(y@ == string_views(fields@)[2]);
            assert(z@ == string_views(fields@)[3]);
            Some(VertexLine { line: trimmed, x, y, z })
        } else {
            None
        }
    } else {
        None
    }
}

/// Every vertex record of `text`, in order (the lines that the mesh converter
/// takes coordinates from).
pub fn scan_vertex_lines(text: &str) -> (res: Vec<VertexLine>)
    ensures
        views_of(res@) == vertex_records(text@),
{
    let mut res: Vec<VertexLine> = Vec::new();
    let mut cur: Vec<char> = Vec::new();
    assert(text@.take(0) =~= Seq::<char>::empty());
    for c in it: text.chars()
        invariant
            it.seq() == text@,
            cur@ == split_state(text@.take(it.index() as int), '\n').1,
            views_of(res@) == vertex_records_of(split_state(text@.take(it.index() as int), '\n').0),
    {
        let ghost prefix = text@.take(it.index() as int);
        proof {
            assert(text@.take(it.index() + 1) =~= prefix.push(c));
            lemma_split_state_push(prefix, '\n', c);
        }
        if c == '\n' {
            let ghost done = split_state(prefix, '\n').0;
            assert(done.push(cur@).drop_last() =~= done);
            match vertex_record_of_line(&cur) {
                Some(r) => {
                    let ghost old_res = res@;
                    res.push(r);
                    assert(views_of(res@) =~= views_of(old_res).push(r@));
                },
                None => {},
            }
            cur = Vec::new();
        } else {
            cur.push(c);
        }
    }
    assert(text@.take(text@.len() as int) =~= text@);
    let ghost done = split_state(text@, '\n').0;
    if cur.len() > 0 {
        assert(done.push(cur@).drop_last() =~= done);
        match vertex_record_of_line(&cur) {
            Some(r) => {
                let ghost old_res = res@;
                res.push(r);
                assert(views_of(res@) =~= views_of(old_res).push(r@));
            },
            None => {},
        }
    }
    res
}

} // verus!
