//! The bordered sign that carries the wrapped lines.
use vstd::prelude::*;
use crate::chars::{push_char, push_run, run};
use crate::words::views;

verus! {

/// The character count of the longest line, 0 when there are none.
pub open spec fn longest(lines: Seq<Seq<char>>) -> nat
    decreases lines.len(),
{
    if lines.len() == 0 {
        0
    } else {
        let rest = longest(lines.drop_last());
        if lines.last().len() > rest {
            lines.last().len()
        } else {
            rest
        }
    }
}

/// The interior width of the sign for `lines`: the longest line plus `padding`.
pub open spec fn interior_width(lines: Seq<Seq<char>>, padding: nat) -> nat {
    longest(lines) + padding
}

/// Spaces before a line of `len` characters centred in `width` columns.
pub open spec fn left_pad(len: nat, width: nat) -> nat {
    if len < width {
        ((width - len) / 2) as nat
    } else {
        0
    }
}

/// Spaces after a line of `len` characters centred in `width` columns: the
/// odd space, if any, goes here.
pub open spec fn right_pad(len: nat, width: nat) -> nat {
    if len < width {
        (width - len - left_pad(len, width)) as nat
    } else {
        0
    }
}

/// `line` centred in `width` columns; a line wider than that is left as it is.
pub open spec fn centered(line: Seq<char>, width: nat) -> Seq<char> {
    run(' ', left_pad(line.len(), width)) + line + run(' ', right_pad(line.len(), width))
}

/// The top border of a sign with `width` interior columns.
pub open spec fn top_border(width: nat) -> Seq<char> {
    seq!['┌'] + run('─', width) + seq!['┐']
}

/// The bottom border of a sign with `width` interior columns.
pub open spec fn bottom_border(width: nat) -> Seq<char> {
    seq!['└'] + run('─', width) + seq!['┘']
}

/// A content row: `line` centred between two side glyphs.
pub open spec fn sign_row(line: Seq<char>, width: nat) -> Seq<char> {
    seq!['│'] + centered(line, width) + seq!['│']
}

/// The rows of the sign for `lines` with `padding` extra interior columns.
pub open spec fn sign(lines: Seq<Seq<char>>, padding: nat) -> Seq<Seq<char>> {
    let w = interior_width(lines, padding);
    seq![top_border(w)] + lines.map_values(|l: Seq<char>| sign_row(l, w)) + seq![bottom_border(w)]
}

/// The longest line is at least as long as each line.
pub proof fn lemma_longest(lines: Seq<Seq<char>>)
    ensures
        forall|i: int| 0 <= i < lines.len() ==> (#[trigger] lines[i]).len() <= longest(lines),
        lines.len() > 0 ==> exists|i: int| 0 <= i < lines.len() && lines[i].len() == longest(lines),
    decreases lines.len(),
{
    if lines.len() > 0 {
        let p = lines.drop_last();
        lemma_longest(p);
        assert forall|i: int| 0 <= i < lines.len() implies (#[trigger] lines[i]).len() <= longest(lines) by {
            if i < p.len() {
                assert(lines[i] == p[i]);
            }
        }
        if lines.last().len() > longest(p) {
            assert(lines[lines.len() - 1].len() == longest(lines));
        } else if p.len() == 0 {
            assert(lines[0].len() == 0);
        } else {
            let j = choose|j: int| 0 <= j < p.len() && p[j].len() == longest(p);
            assert(lines[j] == p[j]);
        }
    }
}

/// Centring splits the spare columns evenly, the odd one to the right: the
/// two paddings differ by at most one, with the left one never larger.
pub proof fn lemma_centering(len: nat, width: nat)
    requires
        len <= width,
    ensures
        left_pad(len, width) + len + right_pad(len, width) == width,
        left_pad(len, width) <= right_pad(len, width) <= left_pad(len, width) + 1,
{
}

/// The top and bottom borders both span the interior plus the two side
/// glyphs, and share the same horizontal edge between their corners; every
/// content row has that same width, and there is one row per line between
/// the borders.
pub proof fn lemma_border_symmetry(lines: Seq<Seq<char>>, padding: nat)
    ensures
        ({
            let rows = sign(lines, padding);
            let w = interior_width(lines, padding);
            &&& rows.len() == lines.len() + 2
            &&& rows[0] == top_border(w)
            &&& rows.last() == bottom_border(w)
            &&& rows[0].len() == w + 2
            &&& rows.last().len() == w + 2
            &&& rows[0].subrange(1, (w + 1) as int) == rows.last().subrange(1, (w + 1) as int)
            &&& forall|i: int| 0 <= i < rows.len() ==> (#[trigger] rows[i]).len() == w + 2
        }),
{
    let rows = sign(lines, padding);
    let w = interior_width(lines, padding);
    lemma_longest(lines);
    assert(top_border(w).subrange(1, (w + 1) as int) =~= run('─', w));
    assert(bottom_border(w).subrange(1, (w + 1) as int) =~= run('─', w));
    assert forall|i: int| 0 <= i < rows.len() implies (#[trigger] rows[i]).len() == w + 2 by {
        if 1 <= i < rows.len() - 1 {
            let l = lines[i - 1];
            assert(rows[i] == sign_row(l, w));
            assert(l.len() <= longest(lines));
            lemma_centering(l.len(), w);
        }
    }
}

/// With no lines the sign is its two borders alone.
pub proof fn lemma_empty_sign(padding: nat)
    ensures
        sign(seq![], padding) == seq![top_border(padding), bottom_border(padding)],
{
    assert(sign(seq![], padding) =~= seq![top_border(padding), bottom_border(padding)]);
}

/// Builds the sign for `lines`: a top border, each line centred in the
/// interior, and a bottom border.  The interior is as wide as the longest
/// line, counted in characters, plus `padding`.
pub fn build_sign(lines: &[String], padding: usize) -> (rows: Vec<String>)
    requires
        forall|i: int| 0 <= i < lines@.len() ==> (#[trigger] lines@[i]@).len() + padding + 2
            <= usize::MAX,
    ensures
        views(rows@) == sign(views(lines@), padding as nat),
{
    let ghost ls = views(lines@);
    let mut widest: usize = 0;
    let mut i: usize = 0;
    while i < lines.len()
        invariant
            i <= lines@.len(),
            ls == views(lines@),
            widest == longest(ls.take(i as int)),
        decreases lines@.len() - i,
    {
        assert(ls.take(i + 1).drop_last() =~= ls.take(i as int));
        let n = lines[i].as_str().unicode_len();
        if n > widest {
            widest = n;
        }
        i = i + 1;
    }
    assert(ls.take(i as int) =~= ls);
    proof {
        lemma_longest(ls);
        if ls.len() > 0 {
            let j = choose|j: int| 0 <= j < ls.len() && ls[j].len() == longest(ls);
            assert(ls[j] == lines@[j]@);
        }
    }
    let width = widest + padding;
    let mut rows: Vec<String> = Vec::new();
    let mut top = String::new();
    push_char(&mut top, '┌');
    push_run(&mut top, '─', width);
    push_char(&mut top, '┐');
    assert(top@ =~= top_border(width as nat));
    rows.push(top);
    let mut k: usize = 0;
    while k < lines.len()
        invariant
            k <= lines@.len(),
            ls == views(lines@),
            width == interior_width(ls, padding as nat),
            forall|j: int| 0 <= j < ls.len() ==> (#[trigger] ls[j]).len() <= longest(ls),
            views(rows@) == seq![top_border(width as nat)] + ls.take(k as int).map_values(
                |l: Seq<char>| sign_row(l, width as nat),
            ),
        decreases lines@.len() - k,
    {
        let line = lines[k].as_str();
        let n = line.unicode_len();
        assert(ls[k as int] == line@);
        let left = (width - n) / 2;
        let right = width - n - left;
        let mut row = String::new();
        push_char(&mut row, '│');
        push_run(&mut row, ' ', left);
        row.append(line);
        push_run(&mut row, ' ', right);
        push_char(&mut row, '│');
        assert(row@ =~= sign_row(line@, width as nat));
        let ghost before = views(rows@);
        rows.push(row);
        assert(views(rows@) =~= before.push(row@));
        assert(ls.take(k + 1).map_values(|l: Seq<char>| sign_row(l, width as nat)) =~= ls.take(
            k as int,
        ).map_values(|l: Seq<char>| sign_row(l, width as nat)).push(row@));
        k = k + 1;
    }
    assert(ls.take(k as int) =~= ls);
    let mut bottom = String::new();
    push_char(&mut bottom, '└');
    push_run(&mut bottom, '─', width);
    push_char(&mut bottom, '┘');
    assert(bottom@ =~= bottom_border(width as nat));
    let ghost before = views(rows@);
    rows.push(bottom);
    assert(views(rows@) =~= before.push(bottom@));
    rows
}

} // verus!
