//! Splitting text into words at runs of whitespace.
use vstd::prelude::*;
use crate::chars::push_char;

verus! {

/// The characters that `char::is_whitespace` accepts: those with the
/// Unicode `White_Space` property.
pub open spec fn is_space(c: char) -> bool {
    let u = c as u32;
    ||| 0x09 <= u <= 0x0D
    ||| u == 0x20
    ||| u == 0x85
    ||| u == 0xA0
    ||| u == 0x1680
    ||| 0x2000 <= u <= 0x200A
    ||| u == 0x2028
    ||| u == 0x2029
    ||| u == 0x202F
    ||| u == 0x205F
    ||| u == 0x3000
}

/// Whether `c` separates words.
pub fn is_space_char(c: char) -> (r: bool)
    ensures
        r == is_space(c),
{
    let u = c as u32;
    (0x09 <= u && u <= 0x0D) || u == 0x20 || u == 0x85 || u == 0xA0 || u == 0x1680 || (0x2000
        <= u && u <= 0x200A) || u == 0x2028 || u == 0x2029 || u == 0x202F || u == 0x205F || u
        == 0x3000
}

/// Whether the last character of `s` belongs to a word still being read.
pub open spec fn ends_in_word(s: Seq<char>) -> bool {
    s.len() > 0 && !is_space(s.last())
}

/// The words of `s`, read left to right: a whitespace character ends the
/// word in progress, a character after a word character extends it, and any
/// other character starts a new word.
pub open spec fn words(s: Seq<char>) -> Seq<Seq<char>>
    decreases s.len(),
{
    if s.len() == 0 {
        seq![]
    } else {
        let prev = words(s.drop_last());
        let c = s.last();
        if is_space(c) {
            prev
        } else if ends_in_word(s.drop_last()) {
            prev.update(prev.len() - 1, prev.last().push(c))
        } else {
            prev.push(seq![c])
        }
    }
}

/// A word: non-empty and free of whitespace.
pub open spec fn is_word(w: Seq<char>) -> bool {
    w.len() > 0 && forall|j: int| 0 <= j < w.len() ==> !is_space(#[trigger] w[j])
}

/// The views of a sequence of strings.
pub open spec fn views(v: Seq<String>) -> Seq<Seq<char>> {
    v.map_values(|s: String| s@)
}

/// Text that ends in a word has at least one word, and the whole word list
/// consists of words.
pub proof fn lemma_words_shape(s: Seq<char>)
    ensures
        forall|i: int| 0 <= i < words(s).len() ==> is_word(#[trigger] words(s)[i]),
        ends_in_word(s) ==> words(s).len() > 0,
    decreases s.len(),
{
    if s.len() > 0 {
        let prev = words(s.drop_last());
        let c = s.last();
        lemma_words_shape(s.drop_last());
        if !is_space(c) {
            if ends_in_word(s.drop_last()) {
                let w = prev.last().push(c);
                assert(is_word(w)) by {
                    assert(is_word(prev[prev.len() - 1]));
                    assert forall|j: int| 0 <= j < w.len() implies !is_space(#[trigger] w[j]) by {
                        if j < w.len() - 1 {
                            assert(w[j] == prev.last()[j]);
                        }
                    }
                }
            } else {
                assert(is_word(seq![c]));
            }
        }
    }
}

/// A single word splits into itself.
pub proof fn lemma_words_of_word(b: Seq<char>)
    requires
        is_word(b),
    ensures
        words(b) == seq![b],
    decreases b.len(),
{
    assert(!is_space(b[b.len() - 1]));
    if b.len() == 1 {
        assert(b.drop_last() =~= seq![]);
        assert(words(b.drop_last()) =~= seq![]);
        assert(b =~= seq![b[0]]);
    } else {
        let p = b.drop_last();
        assert(is_word(p)) by {
            assert forall|j: int| 0 <= j < p.len() implies !is_space(#[trigger] p[j]) by {
                assert(p[j] == b[j]);
            }
        }
        lemma_words_of_word(p);
        assert(!is_space(p[p.len() - 1]));
        assert(p.push(b.last()) =~= b);
        assert(seq![p].update(0, p.push(b.last())) =~= seq![b]);
    }
}

/// A space followed by a word adds exactly that word to the words before it.
pub proof fn lemma_words_space_word(a: Seq<char>, b: Seq<char>)
    requires
        is_word(b),
    ensures
        words(a.push(' ') + b) == words(a).push(b),
    decreases b.len(),
{
    let s = a.push(' ') + b;
    assert(is_space(' '));
    assert(!is_space(b[b.len() - 1]));
    assert(s.last() == b.last());
    assert(a.push(' ').drop_last() =~= a);
    if b.len() == 1 {
        assert(s.drop_last() =~= a.push(' '));
        assert(words(a.push(' ')) == words(a));
        assert(b =~= seq![b[0]]);
    } else {
        let p = b.drop_last();
        assert(is_word(p)) by {
            assert forall|j: int| 0 <= j < p.len() implies !is_space(#[trigger] p[j]) by {
                assert(p[j] == b[j]);
            }
        }
        lemma_words_space_word(a, p);
        assert(s.drop_last() =~= a.push(' ') + p);
        assert(!is_space(p[p.len() - 1]));
        assert((a.push(' ') + p).last() == p.last());
        assert(p.push(b.last()) =~= b);
        let prev = words(a).push(p);
        assert(prev.update(prev.len() - 1, prev.last().push(s.last())) =~= words(a).push(b));
    }
}

/// Text made of whitespace alone has no words.
pub proof fn lemma_words_blank(s: Seq<char>)
    requires
        forall|i: int| 0 <= i < s.len() ==> is_space(#[trigger] s[i]),
    ensures
        words(s) == Seq::<Seq<char>>::empty(),
    decreases s.len(),
{
    if s.len() > 0 {
        assert(is_space(s[s.len() - 1]));
        lemma_words_blank(s.drop_last());
    }
}

/// The characters that `ws` take up with one separator after each word.
pub open spec fn spread(ws: Seq<Seq<char>>) -> nat
    decreases ws.len(),
{
    if ws.len() == 0 {
        0
    } else {
        spread(ws.drop_last()) + ws.last().len() + 1
    }
}

/// The words of `s`, each with one separator, take up no more room than `s`
/// itself (plus one, for a final word that no separator follows).
pub proof fn lemma_words_spread(s: Seq<char>)
    ensures
        spread(words(s)) <= s.len() + if ends_in_word(s) {
            1nat
        } else {
            0nat
        },
    decreases s.len(),
{
    if s.len() > 0 {
        let p = s.drop_last();
        let prev = words(p);
        lemma_words_spread(p);
        lemma_words_shape(p);
        if !is_space(s.last()) && ends_in_word(p) {
            let next = prev.update(prev.len() - 1, prev.last().push(s.last()));
            assert(next.drop_last() =~= prev.drop_last());
        } else if !is_space(s.last()) {
            assert(prev.push(seq![s.last()]).drop_last() =~= prev);
        }
    }
}

/// Splits `text` into its words, as `str::split_whitespace` does.
pub fn split_words(text: &str) -> (r: Vec<String>)
    ensures
        views(r@) == words(text@),
{
    let mut out: Vec<String> = Vec::new();
    let mut cur = String::new();
    let ghost mut seen: Seq<char> = seq![];
    for c in it: text.chars()
        invariant
            it.seq() == text@,
            seen == text@.take(it.index() as int),
            ends_in_word(seen) ==> words(seen) == views(out@).push(cur@) && cur@.len() > 0,
            !ends_in_word(seen) ==> words(seen) == views(out@) && cur@.len() == 0,
    {
        let ghost before = seen;
        proof {
            seen = text@.take(it.index() + 1);
            assert(seen.drop_last() == before);
            lemma_words_shape(before);
        }
        if is_space_char(c) {
            if !cur.as_str().is_empty() {
                out.push(cur);
                cur = String::new();
            }
        } else {
            let ghost old_cur = cur@;
            push_char(&mut cur, c);
            proof {
                assert(seen.last() == c);
                if !ends_in_word(before) {
                    assert(cur@ =~= seq![c]);
                }
                if ends_in_word(before) {
                    assert(views(out@).push(old_cur).update(views(out@).len() as int, cur@)
                        =~= views(out@).push(cur@));
                }
            }
        }
        proof {
            assert(views(out@) =~= out@.map_values(|s: String| s@));
        }
    }
    assert(seen =~= text@);
    if !cur.as_str().is_empty() {
        let ghost old_out = out@;
        out.push(cur);
        assert(views(out@) =~= views(old_out).push(cur@));
    }
    out
}

} // verus!
