//! The rabbit that holds up the sign.
use vstd::prelude::*;
use crate::chars::{push_char, push_run, run};

verus! {

/// Column of the centre of the rabbit's handle (`||`) in the figure.
pub const RABBIT_HANDLE_POSITION: usize = 8;

/// The figure's ears and the top of the handle.
pub const RABBIT_EARS: &'static str = "(\\__/) ||";

/// The figure's face and the bottom of the handle.
pub const RABBIT_FACE: &'static str = "(•ㅅ•) ||";

/// The figure's paws.
pub const RABBIT_PAWS: &'static str = "/ 　 づ ";

/// The figure, each of its three lines after a line break and `indent` spaces.
pub open spec fn rabbit(indent: nat) -> Seq<char> {
    let pad = run(' ', indent);
    seq!['\n'] + pad + RABBIT_EARS@ + seq!['\n'] + pad + RABBIT_FACE@ + seq!['\n'] + pad
        + RABBIT_PAWS@
}

/// The rabbit figure with every line indented by `indent` spaces.  It starts
/// with a line break, so that it can follow the sign directly.
pub fn indent_rabbit(indent: usize) -> (r: String)
    ensures
        r@ == rabbit(indent as nat),
{
    let mut r = String::new();
    push_char(&mut r, '\n');
    push_run(&mut r, ' ', indent);
    r.append(RABBIT_EARS);
    push_char(&mut r, '\n');
    push_run(&mut r, ' ', indent);
    r.append(RABBIT_FACE);
    push_char(&mut r, '\n');
    push_run(&mut r, ' ', indent);
    r.append(RABBIT_PAWS);
    r
}

} // verus!
