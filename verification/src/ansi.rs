//! Terminal colours: text wrapped in an ANSI escape and a reset, unless
//! colour is switched off (`NO_COLOR`).
use vstd::prelude::*;

use crate::text::{push_str, string_of};

verus! {

/// `s` in the escape `code`, followed by a reset; `s` itself when colour
/// is off.
pub open spec fn coloured(code: Seq<char>, s: Seq<char>, color: bool) -> Seq<char> {
    if color {
        code + s + "\x1b[0m"@
    } else {
        s
    }
}

fn colorize(code: &str, s: &str, color: bool) -> (r: String)
    ensures
        r@ == coloured(code@, s@, color),
{
    if !color {
        return s.to_owned();
    }
    let mut v: Vec<char> = Vec::new();
    push_str(&mut v, code);
    push_str(&mut v, s);
    push_str(&mut v, "\x1b[0m");
    string_of(v.as_slice())
}

/// Green text.
pub fn green(s: &str, color: bool) -> (r: String)
    ensures
        r@ == coloured("\x1b[32m"@, s@, color),
{
    colorize("\x1b[32m", s, color)
}

/// Yellow text.
pub fn yellow(s: &str, color: bool) -> (r: String)
    ensures
        r@ == coloured("\x1b[33m"@, s@, color),
{
    colorize("\x1b[33m", s, color)
}

/// Red text.
pub fn red(s: &str, color: bool) -> (r: String)
    ensures
        r@ == coloured("\x1b[31m"@, s@, color),
{
    colorize("\x1b[31m", s, color)
}

/// Bold text.
pub fn bold(s: &str, color: bool) -> (r: String)
    ensures
        r@ == coloured("\x1b[1m"@, s@, color),
{
    colorize("\x1b[1m", s, color)
}

/// Dim text.
pub fn dim(s: &str, color: bool) -> (r: String)
    ensures
        r@ == coloured("\x1b[2m"@, s@, color),
{
    colorize("\x1b[2m", s, color)
}

} // verus!
