//! Escape-sequence-aware width of a line, and the two-column layout of a
//! logo beside the report lines.
use vstd::prelude::*;
use crate::text::{chars_of, split_chars, split_of, string_of, views};

verus! {

/// Characters counted so far, and whether an escape sequence is open. An
/// escape sequence runs from the escape character to the next `m`, both
/// included, and counts nothing; every other character counts one.
pub open spec fn width_state(s: Seq<char>) -> (nat, bool)
    decreases s.len(),
{
    if s.len() == 0 {
        (0, false)
    } else {
        let st = width_state(s.drop_last());
        let c = s.last();
        if st.1 {
            (st.0, c != 'm')
        } else if c == '\x1b' {
            (st.0, true)
        } else {
            (st.0 + 1, false)
        }
    }
}

/// The number of character cells the text takes on screen.
pub open spec fn visible_width(s: Seq<char>) -> nat {
    width_state(s).0
}

proof fn lemma_width_bound(s: Seq<char>)
    ensures
        width_state(s).0 <= s.len(),
    decreases s.len(),
{
    if s.len() > 0 {
        lemma_width_bound(s.drop_last());
    }
}

/// The visible width of a line, ignoring escape sequences.
pub fn visible_length(s: &str) -> (r: usize)
    ensures
        r == visible_width(s@),
{
    let cs = chars_of(s);
    let mut n: usize = 0;
    let mut in_escape = false;
    let mut i: usize = 0;
    while i < cs.len()
        invariant
            i <= cs@.len(),
            cs@ == s@,
            (n as nat, in_escape) == width_state(cs@.take(i as int)),
        decreases cs@.len() - i,
    {
        assert(cs@.take(i + 1).drop_last() =~= cs@.take(i as int));
        proof {
            lemma_width_bound(cs@.take(i as int));
        }
        let c = cs[i];
        if in_escape {
            if c == 'm' {
                in_escape = false;
            }
        } else if c == '\x1b' {
            in_escape = true;
        } else {
            n += 1;
        }
        i += 1;
    }
    assert(cs@.take(cs@.len() as int) =~= cs@);
    n
}

/// The widest visible width among the lines.
pub open spec fn max_width(ls: Seq<Seq<char>>) -> nat
    decreases ls.len(),
{
    if ls.len() == 0 {
        0
    } else {
        let w = visible_width(ls.last());
        let m = max_width(ls.drop_last());
        if w > m {
            w
        } else {
            m
        }
    }
}

proof fn lemma_max_width(ls: Seq<Seq<char>>, i: int)
    requires
        0 <= i < ls.len(),
    ensures
        visible_width(ls[i]) <= max_width(ls),
    decreases ls.len(),
{
    if i < ls.len() - 1 {
        lemma_max_width(ls.drop_last(), i);
    }
}

/// The views of a sequence of strings.
pub open spec fn string_views(v: Seq<String>) -> Seq<Seq<char>> {
    v.map_values(|x: String| x@)
}

/// Line `i` of a column, or nothing past its end.
pub open spec fn cell(ls: Seq<Seq<char>>, i: int) -> Seq<char> {
    if 0 <= i < ls.len() {
        ls[i]
    } else {
        seq![]
    }
}

pub open spec fn spaces(n: nat) -> Seq<char> {
    Seq::new(n, |k: int| ' ')
}

/// Columns are separated by this many spaces.
pub const GAP: usize = 4;

/// Row `i`: the logo cell padded on the right to the widest logo line plus
/// the gap, then the info cell.
pub open spec fn row(logo: Seq<Seq<char>>, info: Seq<Seq<char>>, i: int) -> Seq<char> {
    cell(logo, i) + spaces((max_width(logo) - visible_width(cell(logo, i)) + GAP) as nat) + cell(
        info,
        i,
    )
}

pub open spec fn row_count(logo: Seq<Seq<char>>, info: Seq<Seq<char>>) -> nat {
    if logo.len() > info.len() {
        logo.len()
    } else {
        info.len()
    }
}

proof fn lemma_width_after_spaces(a: Seq<char>, n: nat)
    requires
        !width_state(a).1,
    ensures
        width_state(a + spaces(n)) == (width_state(a).0 + n, false),
    decreases n,
{
    if n > 0 {
        lemma_width_after_spaces(a, (n - 1) as nat);
        assert((a + spaces(n)).drop_last() =~= a + spaces((n - 1) as nat));
    } else {
        assert(a + spaces(0) =~= a);
    }
}

/// Where no logo line leaves an escape sequence open, the logo cell and its
/// padding take the same visible width on every row: the widest logo line
/// plus the gap.
pub proof fn lemma_left_column_width(logo: Seq<Seq<char>>, i: int)
    requires
        forall|k: int| 0 <= k < logo.len() ==> !(#[trigger] width_state(logo[k])).1,
    ensures
        visible_width(
            cell(logo, i) + spaces((max_width(logo) - visible_width(cell(logo, i)) + GAP) as nat),
        ) == max_width(logo) + GAP,
{
    if 0 <= i < logo.len() {
        lemma_max_width(logo, i);
        assert(!width_state(logo[i]).1);
    } else {
        assert(width_state(cell(logo, i)) == (0nat, false));
    }
    lemma_width_after_spaces(
        cell(logo, i),
        (max_width(logo) - visible_width(cell(logo, i)) + GAP) as nat,
    );
}

fn spaces_string(n: usize) -> (r: String)
    ensures
        r@ == spaces(n as nat),
{
    let mut v: Vec<char> = Vec::new();
    let mut i: usize = 0;
    while i < n
        invariant
            i <= n,
            v@ == spaces(i as nat),
        decreases n - i,
    {
        v.push(' ');
        i += 1;
        assert(v@ =~= spaces(i as nat));
    }
    string_of(v.as_slice())
}

/// Lays the logo and the info lines side by side, one output line per row.
pub fn compose_columns(logo: &Vec<String>, info: &Vec<String>) -> (r: Vec<String>)
    requires
        max_width(string_views(logo@)) + GAP <= usize::MAX,
    ensures
        r@.len() == row_count(string_views(logo@), string_views(info@)),
        forall|i: int|
            0 <= i < r@.len() ==> #[trigger] r@[i]@ == row(
                string_views(logo@),
                string_views(info@),
                i,
            ),
{
    let ghost lv = string_views(logo@);
    let ghost iv = string_views(info@);
    let mut widest: usize = 0;
    let mut k: usize = 0;
    while k < logo.len()
        invariant
            k <= logo@.len(),
            lv == string_views(logo@),
            widest == max_width(lv.take(k as int)),
        decreases logo@.len() - k,
    {
        assert(lv.take(k + 1).drop_last() =~= lv.take(k as int));
        let w = visible_length(logo[k].as_str());
        if w > widest {
            widest = w;
        }
        k += 1;
    }
    assert(lv.take(lv.len() as int) =~= lv);
    let rows = if logo.len() > info.len() {
        logo.len()
    } else {
        info.len()
    };
    let mut out: Vec<String> = Vec::new();
    let mut i: usize = 0;
    while i < rows
        invariant
            i <= rows == row_count(lv, iv),
            lv == string_views(logo@),
            iv == string_views(info@),
            widest == max_width(lv),
            max_width(lv) + GAP <= usize::MAX,
            out@.len() == i,
            forall|j: int| 0 <= j < i ==> #[trigger] out@[j]@ == row(lv, iv, j),
        decreases rows - i,
    {
        let mut line = if i < logo.len() {
            logo[i].clone()
        } else {
            String::new()
        };
        let w = visible_length(line.as_str());
        proof {
            if i < logo@.len() {
                lemma_max_width(lv, i as int);
            }
            assert(line@ == cell(lv, i as int));
        }
        let pad = spaces_string(widest - w + GAP);
        line.append(pad.as_str());
        if i < info.len() {
            line.append(info[i].as_str());
        } else {
            assert(cell(iv, i as int) =~= seq![]);
            assert(line@ + cell(iv, i as int) =~= line@);
        }
        out.push(line);
        i += 1;
    }
    out
}

/// The lines of a logo file: its text split at each newline, with no final
/// empty line after a trailing newline.
pub open spec fn logo_of(content: Seq<char>) -> Seq<Seq<char>> {
    let pieces = split_of(content, '\n');
    if pieces.last().len() == 0 {
        pieces.drop_last()
    } else {
        pieces
    }
}

/// Splits the content of a logo file into lines, keeping escape sequences.
pub fn logo_lines(content: &str) -> (r: Vec<String>)
    ensures
        string_views(r@) == logo_of(content@),
{
    let cs = chars_of(content);
    let mut pieces = split_chars(cs.as_slice(), '\n');
    let ghost p = views(pieces@);
    assert(p.len() == pieces@.len());
    assert(p.last() == pieces@.last()@);
    if pieces[pieces.len() - 1].len() == 0 {
        pieces.pop();
        assert(views(pieces@) =~= p.drop_last());
    }
    let ghost q = views(pieces@);
    let mut out: Vec<String> = Vec::new();
    let mut i: usize = 0;
    while i < pieces.len()
        invariant
            i <= pieces@.len(),
            q == views(pieces@),
            string_views(out@) == q.take(i as int),
        decreases pieces@.len() - i,
    {
        let ghost old_out = out@;
        assert(q[i as int] == pieces@[i as int]@);
        let st = string_of(pieces[i].as_slice());
        out.push(st);
        assert(string_views(out@) =~= string_views(old_out).push(st@));
        assert(string_views(out@) =~= q.take(i + 1));
        i += 1;
    }
    assert(q.take(q.len() as int) =~= q);
    out
}

} // verus!
