//! The kind of progress bar a command asks for.
use vstd::prelude::*;

verus! {

pub enum ProgressBarType<'a> {
    SizedProgressBar(usize, &'a str),
    UnsizedProgressBar(&'a str),
}

impl<'a> ProgressBarType<'a> {
    /// The bar's template.
    pub fn template(&self) -> (r: &'a str)
        ensures
            r@ == match self {
                ProgressBarType::SizedProgressBar(_, t) => t@,
                ProgressBarType::UnsizedProgressBar(t) => t@,
            },
    {
        match self {
            ProgressBarType::SizedProgressBar(_, t) => t,
            ProgressBarType::UnsizedProgressBar(t) => t,
        }
    }

    /// The bar's length, where it has one.
    pub fn size(&self) -> (r: Option<usize>)
        ensures
            r == match self {
                ProgressBarType::SizedProgressBar(n, _) => Some(*n),
                ProgressBarType::UnsizedProgressBar(_) => None,
            },
    {
        match self {
            ProgressBarType::SizedProgressBar(n, _) => Some(*n),
            ProgressBarType::UnsizedProgressBar(_) => None,
        }
    }
}

/// A bar is drawn only on a terminal, and not while debug output is on.
pub fn progress_visible(stdout_is_tty: bool, debug_level: i32) -> (r: bool)
    ensures
        r == (stdout_is_tty && debug_level < 1),
{
    stdout_is_tty && debug_level < 1
}

} // verus!
