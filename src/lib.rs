//! Renders a short message on a bordered sign held up by a small rabbit.
//!
//! The message is split into words at whitespace, wrapped greedily to a
//! maximum width, and centred inside a box drawn with box-drawing glyphs.
//! The rabbit figure follows, lined up so that its handle stands under the
//! middle of the sign.
use vstd::prelude::*;

pub mod chars;
pub mod cli;
pub mod rabbit;
pub mod sign;
pub mod text;
pub mod words;
pub mod wrap;

pub use rabbit::{indent_rabbit, RABBIT_HANDLE_POSITION};
pub use sign::build_sign;
pub use wrap::wrap_text;

use chars::{push_char, push_run, run};
use rabbit::rabbit;
use sign::{lemma_border_symmetry, sign};
use words::views;
use wrap::{lemma_wrap_line_len, wrapped};

verus! {

/// How a message is laid out: the width it is wrapped to, and the extra
/// interior columns of the sign.
#[derive(Debug, Clone)]
pub struct Config {
    /// Maximum width for text wrapping
    pub max_width: usize,
    /// Extra columns added to the longest line to form the sign's interior
    pub padding: usize,
}

impl Default for Config {
    /// Wraps at 40 characters with 4 columns of padding.
    fn default() -> (c: Self)
        ensures
            c.max_width == 40,
            c.padding == 4,
    {
        Config { max_width: 40, padding: 4 }
    }
}

/// `a - b`, or 0 where `b` is the larger.
pub open spec fn minus_or_zero(a: nat, b: nat) -> nat {
    if a > b {
        (a - b) as nat
    } else {
        0
    }
}

/// Spaces put before each row of a sign `sign_width` characters wide: a sign
/// narrower than twice the handle column is shifted so that its middle stands
/// over the handle.
pub open spec fn sign_indent(sign_width: nat) -> nat {
    if sign_width < 2 * RABBIT_HANDLE_POSITION {
        minus_or_zero(RABBIT_HANDLE_POSITION as nat, sign_width / 2)
    } else {
        0
    }
}

/// Spaces put before each line of the rabbit under a sign `sign_width`
/// characters wide: where the sign was not shifted, the rabbit is, so that
/// its handle stands under the middle of the sign.
pub open spec fn rabbit_indent(sign_width: nat) -> nat {
    if sign_indent(sign_width) > 0 {
        0
    } else {
        minus_or_zero(sign_width / 2, RABBIT_HANDLE_POSITION as nat)
    }
}

/// `rows` joined with line breaks between them.
pub open spec fn join_lines(rows: Seq<Seq<char>>) -> Seq<char>
    decreases rows.len(),
{
    if rows.len() == 0 {
        seq![]
    } else if rows.len() == 1 {
        rows[0]
    } else {
        join_lines(rows.drop_last()).push('\n') + rows.last()
    }
}

/// The whole picture for `message`: the sign for its lines wrapped to
/// `max_width`, each row indented, and the rabbit below.
pub open spec fn picture(message: Seq<char>, max_width: nat, padding: nat) -> Seq<char> {
    let rows = sign(wrapped(message, max_width), padding);
    let width = rows[0].len();
    let indent = sign_indent(width);
    join_lines(rows.map_values(|r: Seq<char>| run(' ', indent) + r)) + rabbit(
        rabbit_indent(width),
    )
}

/// The picture for `message` with the default layout: 40 columns of text,
/// 4 of padding.
pub fn say(message: &str) -> (r: String)
    requires
        message@.len() + 6 <= usize::MAX,
    ensures
        r@ == picture(message@, 40, 4),
{
    say_with(message, Config::default())
}

/// The picture for `message` laid out as `config` says.
pub fn say_with(message: &str, config: Config) -> (r: String)
    requires
        message@.len() + config.padding + 2 <= usize::MAX,
    ensures
        r@ == picture(message@, config.max_width as nat, config.padding as nat),
{
    let lines = wrap_text(message, config.max_width);
    proof {
        lemma_wrap_line_len(message@, config.max_width as nat);
        assert forall|i: int| 0 <= i < lines@.len() implies (#[trigger] lines@[i]@).len()
            + config.padding + 2 <= usize::MAX by {
            assert(views(lines@)[i] == lines@[i]@);
        }
    }
    let rows = build_sign(lines.as_slice(), config.padding);
    let ghost rs = views(rows@);
    proof {
        lemma_border_symmetry(views(lines@), config.padding as nat);
    }
    assert(rs[0] == rows@[0]@);
    let sign_width = rows[0].as_str().unicode_len();
    let sign_indent: usize = if sign_width < RABBIT_HANDLE_POSITION * 2 {
        RABBIT_HANDLE_POSITION.saturating_sub(sign_width / 2)
    } else {
        0
    };
    let rabbit_indent: usize = if sign_indent > 0 {
        0
    } else {
        (sign_width / 2).saturating_sub(RABBIT_HANDLE_POSITION)
    };
    let ghost shifted = rs.map_values(|r: Seq<char>| run(' ', sign_indent as nat) + r);
    let mut out = String::new();
    let mut i: usize = 0;
    while i < rows.len()
        invariant
            i <= rows@.len(),
            rows@.len() >= 2,
            rs == views(rows@),
            shifted == rs.map_values(|r: Seq<char>| run(' ', sign_indent as nat) + r),
            out@ == join_lines(shifted.take(i as int)),
        decreases rows@.len() - i,
    {
        assert(shifted.take(i + 1).drop_last() =~= shifted.take(i as int));
        assert(rs[i as int] == rows@[i as int]@);
        if i > 0 {
            push_char(&mut out, '\n');
        }
        push_run(&mut out, ' ', sign_indent);
        out.append(rows[i].as_str());
        i = i + 1;
        assert(out@ =~= join_lines(shifted.take(i as int)));
    }
    assert(shifted.take(i as int) =~= shifted);
    let figure = indent_rabbit(rabbit_indent);
    out.append(figure.as_str());
    out
}

} // verus!
