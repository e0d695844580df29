//! Color-output policy: the pure decision of whether to colorize, given the
//! chosen mode and whether the stream is a terminal.  Probing the terminal
//! itself is I/O and stays with the caller.

use vstd::prelude::*;

verus! {

/// An output stream whose terminal-ness the caller may probe.
#[derive(Clone, Copy, PartialEq, Eq, Structural, Debug)]
pub enum Stream {
    Stdout,
}

/// When to use colors on the output.
#[derive(Clone, Copy, PartialEq, Eq, Structural, Debug)]
pub enum ColorMode {
    /// Always use colors.
    Always,
    /// Never use colors.
    Never,
    /// Use colors exactly when the stream is a terminal.
    Auto,
}

/// Decide color use from the mode and the probed terminal-ness.
pub fn use_colors(mode: &ColorMode, is_tty: bool) -> (r: bool)
    ensures
        r == match *mode {
            ColorMode::Always => true,
            ColorMode::Never => false,
            ColorMode::Auto => is_tty,
        },
{
    match mode {
        ColorMode::Always => true,
        ColorMode::Never => false,
        ColorMode::Auto => is_tty,
    }
}

} // verus!
