//! Colors for printing to the terminal.
//!
//! Colors are named by concept (package name, success, failure) rather than by visible color, so
//! that each concept is colored consistently and the mapping lives in one place.
use vstd::prelude::*;

verus! {

/// A concept that is printed in its own color.
#[derive(Clone, Copy, Debug, PartialEq, Eq, Structural)]
pub enum Color {
    Default,
    Success,
    Error,
    Glue,
    Deemphasize,
    Match,
    Upgrade,
    Downgrade,
    Create,
    Remove,
    PkgName,
    PkgVer,
    Arch,
    Field,
    File,
    Url,
    Warn,
    Timestamp,
}

/// The terminal escape sequence of each concept.
pub open spec fn color_code(c: Color) -> &'static str {
    match c {
        Color::Default => "\x1b[0m",
        Color::Success => "\x1b[0;32m",
        Color::Error => "\x1b[1;31m",
        Color::Glue => "\x1b[0;90m",
        Color::Deemphasize => "\x1b[0;90m",
        Color::Match => "\x1b[0;32m",
        Color::Upgrade => "\x1b[0;36m",
        Color::Downgrade => "\x1b[0;33m",
        Color::Create => "\x1b[0;32m",
        Color::Remove => "\x1b[1;31m",
        Color::PkgName => "\x1b[0;36m",
        Color::PkgVer => "\x1b[0;33m",
        Color::Arch => "\x1b[0;95m",
        Color::Field => "\x1b[0;32m",
        Color::File => "\x1b[0;32m",
        Color::Url => "\x1b[0;38;5;33m",
        Color::Warn => "\x1b[0;93m",
        Color::Timestamp => "\x1b[0;90m",
    }
}

impl Color {
    /// The terminal escape sequence that switches to this concept's color.
    pub fn code(&self) -> (r: &'static str)
        ensures
            r == color_code(*self),
    {
        match self {
            Color::Default => "\x1b[0m",
            Color::Success => "\x1b[0;32m",
            Color::Error => "\x1b[1;31m",
            Color::Glue => "\x1b[0;90m",
            Color::Deemphasize => "\x1b[0;90m",
            Color::Match => "\x1b[0;32m",
            Color::Upgrade => "\x1b[0;36m",
            Color::Downgrade => "\x1b[0;33m",
            Color::Create => "\x1b[0;32m",
            Color::Remove => "\x1b[1;31m",
            Color::PkgName => "\x1b[0;36m",
            Color::PkgVer => "\x1b[0;33m",
            Color::Arch => "\x1b[0;95m",
            Color::Field => "\x1b[0;32m",
            Color::File => "\x1b[0;32m",
            Color::Url => "\x1b[0;38;5;33m",
            Color::Warn => "\x1b[0;93m",
            Color::Timestamp => "\x1b[0;90m",
        }
    }

    /// What is printed for this color: its escape sequence when colors are printed (output to a
    /// terminal, or forced), nothing otherwise.
    pub fn render(&self, print_color: bool) -> (r: &'static str)
        ensures
            print_color ==> r == color_code(*self),
            !print_color ==> r@ == Seq::<char>::empty(),
    {
        if print_color {
            self.code()
        } else {
            proof {
                reveal_strlit("");
            }
            ""
        }
    }
}

} // verus!
