//! The settings that the command line gathers.
use vstd::prelude::*;
use crate::Config;

verus! {

/// What the command line supplies: the message, the wrap width and the
/// spacing around the message.
#[derive(Debug, Clone)]
pub struct Args {
    /// message on the rabbit's sign
    pub message: String,
    /// maximum width of the rabbit's sign
    pub max_width: usize,
    /// spacing around the message
    pub spacing: usize,
}

impl Args {
    /// The layout these settings ask for: the spacing becomes the padding.
    pub fn config(&self) -> (c: Config)
        ensures
            c.max_width == self.max_width,
            c.padding == self.spacing,
    {
        Config { max_width: self.max_width, padding: self.spacing }
    }
}

} // verus!
