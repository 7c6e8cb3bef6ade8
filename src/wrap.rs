//! Greedy word wrapping.
use vstd::prelude::*;
use crate::words::{
    is_space, is_word, lemma_words_blank, lemma_words_of_word, lemma_words_shape, lemma_words_space_word,
    lemma_words_spread, spread,
    split_words, views, words,
};

verus! {

/// Greedy wrapping of the words `ws` to `width` columns, as a pair of the
/// lines already closed and the line still open.  Each word joins the open
/// line, after one space, while the result stays within `width`; otherwise
/// the open line is closed and the word opens the next one.  A word wider
/// than `width` thus stands alone on its line.
pub open spec fn greedy(ws: Seq<Seq<char>>, width: nat) -> (Seq<Seq<char>>, Seq<char>)
    decreases ws.len(),
{
    if ws.len() == 0 {
        (seq![], seq![])
    } else {
        let (done, cur) = greedy(ws.drop_last(), width);
        let w = ws.last();
        if cur.len() == 0 {
            (done, w)
        } else if cur.len() + 1 + w.len() <= width {
            (done, cur.push(' ') + w)
        } else {
            (done.push(cur), w)
        }
    }
}

/// The lines of greedy wrapping of `ws` to `width` columns.
pub open spec fn wrap_words(ws: Seq<Seq<char>>, width: nat) -> Seq<Seq<char>> {
    let (done, cur) = greedy(ws, width);
    if cur.len() == 0 {
        done
    } else {
        done.push(cur)
    }
}

/// The lines of `text` wrapped to `width` columns.
pub open spec fn wrapped(text: Seq<char>, width: nat) -> Seq<Seq<char>> {
    wrap_words(words(text), width)
}

/// The words of each line, one list after the other.
pub open spec fn words_of_lines(lines: Seq<Seq<char>>) -> Seq<Seq<char>> {
    lines.map_values(|l: Seq<char>| words(l)).flatten()
}

/// A line within the width budget, or one of the words `ws` on its own.
pub open spec fn fits_or_lone_word(line: Seq<char>, width: nat, ws: Seq<Seq<char>>) -> bool {
    line.len() <= width || ws.contains(line)
}

proof fn lemma_words_of_lines_push(lines: Seq<Seq<char>>, l: Seq<char>)
    ensures
        words_of_lines(lines.push(l)) == words_of_lines(lines) + words(l),
{
    let f = |x: Seq<char>| words(x);
    assert(lines.push(l).map_values(f) =~= lines.map_values(f).push(words(l)));
    lines.map_values(f).lemma_flatten_push(words(l));
}

proof fn lemma_greedy(ws: Seq<Seq<char>>, width: nat)
    requires
        forall|i: int| 0 <= i < ws.len() ==> is_word(#[trigger] ws[i]),
    ensures
        (greedy(ws, width).1.len() == 0) == (ws.len() == 0),
        words_of_lines(greedy(ws, width).0) + words(greedy(ws, width).1) == ws,
        forall|i: int|
            0 <= i < greedy(ws, width).0.len() ==> fits_or_lone_word(
                #[trigger] greedy(ws, width).0[i],
                width,
                ws,
            ),
        greedy(ws, width).1.len() > 0 ==> fits_or_lone_word(greedy(ws, width).1, width, ws),
    decreases ws.len(),
{
    if ws.len() == 0 {
        assert(words_of_lines(seq![]) =~= seq![]);
        assert(words(seq![]) =~= seq![]);
    } else {
        let p = ws.drop_last();
        let (done, cur) = greedy(p, width);
        let w = ws.last();
        lemma_greedy(p, width);
        assert(is_word(ws[ws.len() - 1]));
        lemma_words_of_word(w);
        assert(ws.contains(w)) by {
            assert(ws[ws.len() - 1] == w);
        }
        assert forall|l: Seq<char>| p.contains(l) implies ws.contains(l) by {
            let k = choose|k: int| 0 <= k < p.len() && p[k] == l;
            assert(ws[k] == l);
        }
        assert(p.push(w) =~= ws);
        if cur.len() == 0 {
            assert(words(cur) =~= seq![]);
            assert(words_of_lines(done) + seq![w] =~= ws);
        } else if cur.len() + 1 + w.len() <= width {
            lemma_words_space_word(cur, w);
            assert(words_of_lines(done) + words(cur).push(w) =~= (words_of_lines(done) + words(
                cur,
            )).push(w));
        } else {
            lemma_words_of_lines_push(done, cur);
            assert(words_of_lines(done) + words(cur) + seq![w] =~= p.push(w));
            assert forall|i: int| 0 <= i < done.push(cur).len() implies fits_or_lone_word(
                #[trigger] done.push(cur)[i],
                width,
                ws,
            ) by {
                if i < done.len() {
                    assert(done.push(cur)[i] == done[i]);
                }
            }
        }
    }
}

proof fn lemma_greedy_spread(ws: Seq<Seq<char>>, width: nat)
    ensures
        forall|i: int|
            0 <= i < greedy(ws, width).0.len() ==> (#[trigger] greedy(ws, width).0[i]).len() + 1
                <= spread(ws),
        greedy(ws, width).1.len() > 0 ==> greedy(ws, width).1.len() + 1 <= spread(ws),
    decreases ws.len(),
{
    if ws.len() > 0 {
        let p = ws.drop_last();
        let (done, cur) = greedy(p, width);
        lemma_greedy_spread(p, width);
        if cur.len() > 0 && cur.len() + 1 + ws.last().len() > width {
            assert forall|i: int| 0 <= i < done.push(cur).len() implies (#[trigger] done.push(
                cur,
            )[i]).len() + 1 <= spread(ws) by {
                if i < done.len() {
                    assert(done.push(cur)[i] == done[i]);
                }
            }
        }
    }
}

/// No line of wrapped text is longer than the text itself.
pub proof fn lemma_wrap_line_len(text: Seq<char>, width: nat)
    ensures
        forall|i: int|
            0 <= i < wrapped(text, width).len() ==> (#[trigger] wrapped(text, width)[i]).len()
                <= text.len(),
{
    let ws = words(text);
    lemma_words_spread(text);
    lemma_greedy_spread(ws, width);
    let (done, cur) = greedy(ws, width);
    assert forall|i: int| 0 <= i < wrapped(text, width).len() implies (#[trigger] wrapped(
        text,
        width,
    )[i]).len() <= text.len() by {
        if i < done.len() {
            assert(wrapped(text, width)[i] == done[i]);
        }
    }
}

/// Every line of wrapped text fits in `width` columns, but for a word wider
/// than that, which stands alone on its line.
pub proof fn lemma_wrap_width(text: Seq<char>, width: nat)
    ensures
        forall|i: int|
            0 <= i < wrapped(text, width).len() ==> {
                let line = #[trigger] wrapped(text, width)[i];
                line.len() <= width || words(text).contains(line)
            },
{
    let ws = words(text);
    lemma_words_shape(text);
    lemma_greedy(ws, width);
    let (done, cur) = greedy(ws, width);
    assert forall|i: int| 0 <= i < wrapped(text, width).len() implies fits_or_lone_word(
        #[trigger] wrapped(text, width)[i],
        width,
        ws,
    ) by {
        if i < done.len() {
            assert(wrapped(text, width)[i] == done[i]);
        }
    }
}

/// Wrapping keeps the words of the text: the words of the lines, read in
/// order, are the words of the text.
pub proof fn lemma_wrap_keeps_words(text: Seq<char>, width: nat)
    ensures
        words_of_lines(wrapped(text, width)) == words(text),
{
    let ws = words(text);
    lemma_words_shape(text);
    lemma_greedy(ws, width);
    let (done, cur) = greedy(ws, width);
    if cur.len() == 0 {
        assert(words(cur) =~= seq![]);
        assert(words_of_lines(done) + seq![] =~= words_of_lines(done));
    } else {
        lemma_words_of_lines_push(done, cur);
    }
}

/// Blank text, empty or whitespace alone, wraps to no lines at all.
pub proof fn lemma_wrap_blank(text: Seq<char>, width: nat)
    requires
        forall|i: int| 0 <= i < text.len() ==> is_space(#[trigger] text[i]),
    ensures
        wrapped(text, width) == Seq::<Seq<char>>::empty(),
{
    lemma_words_blank(text);
}

/// Wraps `text` to lines of at most `max_width` characters, breaking only at
/// whitespace; a word longer than `max_width` gets a line of its own.
pub fn wrap_text(text: &str, max_width: usize) -> (lines: Vec<String>)
    ensures
        views(lines@) == wrapped(text@, max_width as nat),
{
    let ws = split_words(text);
    let mut lines: Vec<String> = Vec::new();
    let mut cur = String::new();
    let mut cur_len: usize = 0;
    let mut i: usize = 0;
    proof {
        reveal_strlit(" ");
        assert(views(ws@).take(0) =~= seq![]);
    }
    while i < ws.len()
        invariant
            i <= ws.len(),
            views(ws@) == words(text@),
            greedy(views(ws@).take(i as int), max_width as nat).0 == views(lines@),
            greedy(views(ws@).take(i as int), max_width as nat).1 == cur@,
            cur_len == cur@.len(),
            " "@ == seq![' '],
        decreases ws.len() - i,
    {
        let ghost done = views(lines@);
        let ghost open = cur@;
        let word = &ws[i];
        let wlen = word.as_str().unicode_len();
        assert(views(ws@).take(i + 1).drop_last() =~= views(ws@).take(i as int));
        assert(views(ws@)[i as int] == word@);
        if cur_len == 0 {
            cur = word.clone();
            cur_len = wlen;
        } else if wlen < max_width && cur_len < max_width - wlen {
            cur.append(" ");
            cur.append(word.as_str());
            cur_len = cur_len + 1 + wlen;
        } else {
            lines.push(cur);
            assert(views(lines@) =~= done.push(open));
            cur = word.clone();
            cur_len = wlen;
        }
        i = i + 1;
    }
    assert(views(ws@).take(i as int) =~= views(ws@));
    if cur_len > 0 {
        let ghost done = views(lines@);
        lines.push(cur);
        assert(views(lines@) =~= done.push(cur@));
    }
    lines
}

} // verus!
