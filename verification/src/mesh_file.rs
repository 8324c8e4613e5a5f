//! The `.mesh` text format that the converter writes: a version line, the
//! number of complete nine-point groups, then every point as `[x,y,z]`, all
//! on one line.
use vstd::prelude::*;
use crate::text::{push_char, push_str};

verus! {

/// The character of the decimal digit `d`.
pub open spec fn digit_char(d: nat) -> char {
    (48 + d) as char
}

/// The decimal numeral of `n`, without sign or leading zeros.
pub open spec fn decimal(n: nat) -> Seq<char>
    decreases n,
{
    if n < 10 {
        seq![digit_char(n)]
    } else {
        decimal(n / 10).push(digit_char(n % 10))
    }
}

/// One point in the format: `[x,y,z]`.
pub open spec fn point_text(p: (Seq<char>, Seq<char>, Seq<char>)) -> Seq<char> {
    seq!['['] + p.0 + seq![','] + p.1 + seq![','] + p.2 + seq![']']
}

/// All points, one after another.
pub open spec fn points_text(ps: Seq<(Seq<char>, Seq<char>, Seq<char>)>) -> Seq<char>
    decreases ps.len(),
{
    if ps.len() == 0 {
        Seq::empty()
    } else {
        points_text(ps.drop_last()) + point_text(ps.last())
    }
}

/// The count that the header states for `n` points: the number of complete
/// groups of nine.
pub open spec fn header_count(n: nat) -> nat {
    n / 9
}

/// The header count of `n` points is the number of complete groups of nine
/// among them: nine times it is at most `n`, and one more group would exceed
/// `n`.
pub proof fn lemma_header_count_is_complete_groups(n: nat)
    ensures
        9 * header_count(n) <= n < 9 * header_count(n) + 9,
{
}

/// One point is written as `[`, its three coordinates separated by commas,
/// and `]`.
pub proof fn lemma_one_point_text(x: Seq<char>, y: Seq<char>, z: Seq<char>)
    ensures
        points_text(seq![(x, y, z)]) == seq!['['] + x + seq![','] + y + seq![','] + z + seq![']'],
{
    let ps = seq![(x, y, z)];
    assert(ps.drop_last() =~= Seq::<(Seq<char>, Seq<char>, Seq<char>)>::empty());
    assert(ps.last() == (x, y, z));
    assert(points_text(Seq::<(Seq<char>, Seq<char>, Seq<char>)>::empty()) == Seq::<char>::empty());
    assert(Seq::<char>::empty() + point_text((x, y, z)) =~= point_text((x, y, z)));
}

/// Points are written one after another, in order, with nothing between
/// them: the text of two runs of points is the text of the first followed
/// by the text of the second.
pub proof fn lemma_points_text_concat(
    ps: Seq<(Seq<char>, Seq<char>, Seq<char>)>,
    qs: Seq<(Seq<char>, Seq<char>, Seq<char>)>,
)
    ensures
        points_text(ps + qs) == points_text(ps) + points_text(qs),
    decreases qs.len(),
{
    if qs.len() == 0 {
        assert(ps + qs =~= ps);
        assert(points_text(ps) + points_text(qs) =~= points_text(ps));
    } else {
        lemma_points_text_concat(ps, qs.drop_last());
        assert((ps + qs).drop_last() =~= ps + qs.drop_last());
        assert((ps + qs).last() == qs.last());
        assert(points_text(ps) + points_text(qs.drop_last()) + point_text(qs.last()) =~= points_text(
            ps,
        ) + (points_text(qs.drop_last()) + point_text(qs.last())));
    }
}

/// The document is three lines: `version 1.00`, the number of complete
/// groups of nine points in decimal, and all points; each line ends with a
/// line feed.
pub proof fn lemma_document_lines(ps: Seq<(Seq<char>, Seq<char>, Seq<char>)>)
    ensures
        mesh_text(ps) == "version 1.00\n"@ + decimal(ps.len() / 9) + seq!['\n'] + points_text(ps)
            + seq!['\n'],
{
}

/// The decimal numeral of `n` is made of the digit characters `'0'..='9'`
/// only, is never empty, and its first character is `'0'` only for zero.
pub proof fn lemma_decimal_digits(n: nat)
    ensures
        decimal(n).len() > 0,
        forall|i: int| 0 <= i < decimal(n).len() ==> 48 <= (#[trigger] decimal(n)[i] as u32) <= 57,
        n > 0 ==> decimal(n)[0] != '0',
    decreases n,
{
    if n >= 10 {
        lemma_decimal_digits(n / 10);
        let d = decimal(n / 10);
        assert forall|i: int| 0 <= i < decimal(n).len() implies 48 <= (#[trigger] decimal(n)[i]
            as u32) <= 57 by {
            if i < d.len() {
                assert(decimal(n)[i] == d[i]);
            }
        }
    }
}

/// The whole document for the given point texts.
pub open spec fn mesh_text(ps: Seq<(Seq<char>, Seq<char>, Seq<char>)>) -> Seq<char> {
    "version 1.00\n"@ + decimal(header_count(ps.len())) + seq!['\n'] + points_text(ps) + seq!['\n']
}

pub open spec fn point_views(ps: Seq<(String, String, String)>) -> Seq<(Seq<char>, Seq<char>, Seq<char>)> {
    ps.map_values(|p: (String, String, String)| (p.0@, p.1@, p.2@))
}

/// The digit character of `d`.
pub fn digit(d: u8) -> (c: char)
    requires
        d < 10,
    ensures
        c == digit_char(d as nat),
{
    (48u8 + d) as char
}

/// Appends the decimal numeral of `n` to `s`.
pub fn push_decimal(s: &mut String, n: usize)
    ensures
        final(s)@ == old(s)@ + decimal(n as nat),
    decreases n,
{
    if n < 10 {
        push_char(s, digit(n as u8));
        assert(decimal(n as nat) =~= seq![digit_char(n as nat)]);
    } else {
        let ghost start = s@;
        push_decimal(s, n / 10);
        push_char(s, digit((n % 10) as u8));
        assert(s@ =~= start + decimal(n as nat));
    }
}

/// The decimal numeral of `n`.
pub fn decimal_string(n: usize) -> (res: String)
    ensures
        res@ == decimal(n as nat),
{
    let mut s = String::new();
    push_decimal(&mut s, n);
    assert(s@ =~= decimal(n as nat));
    s
}

/// The count written in the header for `n_points` points.
pub fn mesh_header_count(n_points: usize) -> (count: usize)
    ensures
        count == header_count(n_points as nat),
        9 * count <= n_points < 9 * count + 9,
{
    n_points / 9
}

/// The `.mesh` document for the given point texts, and the number of
/// complete nine-point groups that it holds; that number is always the one
/// its header states.
pub fn mesh_document(points: &Vec<(String, String, String)>) -> (res: (String, usize))
    ensures
        res.0@ == mesh_text(point_views(points@)),
        res.1 == header_count(points.len() as nat),
        9 * res.1 <= points.len() < 9 * res.1 + 9,
{
    let ghost ps = point_views(points@);
    let mut text = String::new();
    push_str(&mut text, "version 1.00\n");
    push_decimal(&mut text, mesh_header_count(points.len()));
    push_char(&mut text, '\n');
    let ghost head = text@;
    let mut written: usize = 0;
    let mut i: usize = 0;
    while i < points.len()
        invariant
            i <= points.len(),
            ps == point_views(points@),
            written == i,
            text@ == head + points_text(ps.take(i as int)),
        decreases points.len() - i,
    {
        let ghost before = text@;
        let p = &points[i];
        push_char(&mut text, '[');
        push_str(&mut text, p.0.as_str());
        push_char(&mut text, ',');
        push_str(&mut text, p.1.as_str());
        push_char(&mut text, ',');
        push_str(&mut text, p.2.as_str());
        push_char(&mut text, ']');
        proof {
            assert(ps.take(i + 1).drop_last() =~= ps.take(i as int));
            assert(ps[i as int] == (p.0@, p.1@, p.2@));
            assert(text@ =~= before + point_text(ps[i as int]));
        }
        written = written + 1;
        i = i + 1;
    }
    push_char(&mut text, '\n');
    assert(ps.take(points.len() as int) =~= ps);
    assert(text@ =~= mesh_text(ps));
    proof {
        lemma_header_count_is_complete_groups(points.len() as nat);
    }
    (text, written / 9)
}

/// What the converter was asked to do.
pub struct MeshArgs {
    /// The OBJ file to read.
    pub input: String,
    /// Whether the document goes to the terminal (`-c`) instead of a file.
    pub to_terminal: bool,
}

/// Reads the converter's command line (program name first). `None` when no
/// input file is named, which is when the converter prints its usage.
pub fn parse_mesh_args(args: &Vec<String>) -> (res: Option<MeshArgs>)
    ensures
        res is None <==> args.len() < 2,
        res matches Some(a) ==> a.input@ == args[1]@ && a.to_terminal == (args.len() > 2
            && args[2]@ == "-c"@),
{
    if args.len() < 2 {
        return None;
    }
    let mut flag = String::new();
    push_str(&mut flag, "-c");
    let to_terminal = args.len() > 2 && args[2] == flag;
    Some(MeshArgs { input: args[1].clone(), to_terminal })
}

/// The file that the converter writes for `input`: the same name with
/// `.mesh` appended.
pub fn mesh_output_path(input: &str) -> (res: String)
    ensures
        res@ == input@ + ".mesh"@,
{
    let mut s = String::new();
    push_str(&mut s, input);
    push_str(&mut s, ".mesh");
    assert(s@ =~= input@ + ".mesh"@);
    s
}

} // verus!
