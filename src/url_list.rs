use vstd::prelude::*;
use vstd::string::StrSliceExecFns;

verus! {

/// The lines of a text as `str::lines` yields them.
pub uninterp spec fn lines_of(s: Seq<char>) -> Seq<Seq<char>>;

/// A line without the leading and trailing whitespace that `str::trim` removes.
pub uninterp spec fn trim_of(s: Seq<char>) -> Seq<char>;

/// Relies on `str::lines`: the text cut at each `\n`, a `\r` before it dropped,
/// with no empty line after a final `\n`.
#[verifier::external_body]
fn split_lines(text: &str) -> (r: Vec<String>)
    ensures
        r@.len() == lines_of(text@).len(),
        forall|i: int| 0 <= i < r@.len() ==> (#[trigger] r@[i])@ == lines_of(text@)[i],
{
    text.lines().map(|l| l.to_string()).collect()
}

/// Relies on `str::trim`: the line with its surrounding whitespace removed.
#[verifier::external_body]
fn trim_line(line: &str) -> (r: String)
    ensures
        r@ == trim_of(line@),
{
    line.trim().to_string()
}

/// A line names a URL unless it is empty or a comment starting with `#`.
pub open spec fn is_url_line(l: Seq<char>) -> bool {
    l.len() > 0 && l[0] != '#'
}

/// The URL lines of `lines`, in order.
pub open spec fn url_lines(lines: Seq<Seq<char>>) -> Seq<Seq<char>>
    decreases lines.len(),
{
    if lines.len() == 0 {
        Seq::empty()
    } else {
        let p = url_lines(lines.drop_last());
        if is_url_line(lines.last()) {
            p.push(lines.last())
        } else {
            p
        }
    }
}

pub open spec fn views(v: Seq<String>) -> Seq<Seq<char>> {
    v.map_values(|s: String| s@)
}

/// Keeps the lines, already trimmed, that name a URL: not empty and not a
/// `#` comment.
pub fn select_url_lines(lines: &Vec<String>) -> (r: Vec<String>)
    ensures
        views(r@) == url_lines(views(lines@)),
{
    let mut r: Vec<String> = Vec::new();
    let mut i: usize = 0;
    while i < lines.len()
        invariant
            i <= lines.len(),
            views(r@) == url_lines(views(lines@.take(i as int))),
        decreases lines.len() - i,
    {
        let ghost before = r@;
        assert(views(lines@.take(i as int + 1)).drop_last() =~= views(lines@.take(i as int)));
        assert(views(lines@.take(i as int + 1)).last() == lines@[i as int]@);
        let line = lines[i].as_str();
        if line.unicode_len() > 0 && line.get_char(0) != '#' {
            r.push(lines[i].clone());
            assert(views(r@) =~= views(before).push(lines@[i as int]@));
        }
        i = i + 1;
    }
    assert(lines@.take(lines.len() as int) =~= lines@);
    r
}

/// The URLs listed in a text: each line trimmed, empty lines and `#`
/// comments left out, the rest kept in order.
pub fn url_list_from_text(text: &str) -> (r: Vec<String>)
    ensures
        views(r@) == url_lines(lines_of(text@).map_values(|l: Seq<char>| trim_of(l))),
{
    let lines = split_lines(text);
    let mut trimmed: Vec<String> = Vec::new();
    let mut i: usize = 0;
    while i < lines.len()
        invariant
            i <= lines.len(),
            lines@.len() == lines_of(text@).len(),
            forall|j: int| 0 <= j < lines@.len() ==> (#[trigger] lines@[j])@ == lines_of(text@)[j],
            views(trimmed@) =~= lines_of(text@).take(i as int).map_values(
                |l: Seq<char>| trim_of(l),
            ),
        decreases lines.len() - i,
    {
        let t = trim_line(lines[i].as_str());
        let ghost before = trimmed@;
        trimmed.push(t);
        proof {
            let ls = lines_of(text@);
            assert(views(trimmed@) =~= views(before).push(trim_of(ls[i as int])));
            assert(ls.take(i as int + 1).map_values(|l: Seq<char>| trim_of(l)) =~= ls.take(
                i as int,
            ).map_values(|l: Seq<char>| trim_of(l)).push(trim_of(ls[i as int])));
        }
        i = i + 1;
    }
    assert(lines_of(text@).take(lines@.len() as int) =~= lines_of(text@));
    select_url_lines(&trimmed)
}

} // verus!
