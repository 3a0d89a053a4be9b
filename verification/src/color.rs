//! ANSI colour escapes and the colourising wrapper used by all renderers.

use vstd::prelude::*;
use vstd::string::*;
use crate::bytes::push_all;

verus! {

/// A terminal colour; `Empty` renders nothing and stands for "colour off".
pub enum Color {
    Black,
    Blue,
    Cyan,
    Green,
    Magenta,
    Red,
    Reset,
    White,
    Yellow,
    Empty,
}

/// The empty string encodes to no bytes.
pub proof fn lemma_empty_str_bytes()
    ensures
        "".spec_bytes() == Seq::<u8>::empty(),
{
    reveal_strlit("");
    assert("".spec_bytes() =~= Seq::<u8>::empty());
}

/// The escape-code bytes of a colour.
pub open spec fn color_code(c: &Color) -> Seq<u8> {
    match c {
        Color::Black => "\x1b[030m".spec_bytes(),
        Color::Blue => "\x1b[034m".spec_bytes(),
        Color::Cyan => "\x1b[036m".spec_bytes(),
        Color::Green => "\x1b[032m".spec_bytes(),
        Color::Magenta => "\x1b[035m".spec_bytes(),
        Color::Red => "\x1b[031m".spec_bytes(),
        Color::Reset => "\x1b[0m".spec_bytes(),
        Color::White => "\x1b[037m".spec_bytes(),
        Color::Yellow => "\x1b[033m".spec_bytes(),
        Color::Empty => Seq::empty(),
    }
}

impl Color {
    /// The escape code of this colour.
    pub fn as_str(&self) -> (r: &'static str)
        ensures
            r.spec_bytes() == color_code(self),
    {
        match self {
            Color::Black => "\x1b[030m",
            Color::Blue => "\x1b[034m",
            Color::Cyan => "\x1b[036m",
            Color::Green => "\x1b[032m",
            Color::Magenta => "\x1b[035m",
            Color::Red => "\x1b[031m",
            Color::Reset => "\x1b[0m",
            Color::White => "\x1b[037m",
            Color::Yellow => "\x1b[033m",
            Color::Empty => {
                proof {
                    lemma_empty_str_bytes();
                }
                ""
            },
        }
    }
}

/// `s` wrapped in the colour's escape code and a reset; `s` itself under
/// `Empty`.
pub open spec fn spec_colorize(s: Seq<u8>, c: &Color) -> Seq<u8> {
    if c is Empty {
        s
    } else {
        color_code(c) + s + "\x1b[0m".spec_bytes()
    }
}

/// Wrap `s` in the colour's escape code.
pub fn colorize(s: &[u8], c: &Color) -> (r: Vec<u8>)
    ensures
        r@ == spec_colorize(s@, c),
{
    let mut r: Vec<u8> = Vec::new();
    if let Color::Empty = c {
        push_all(&mut r, s);
        assert(r@ =~= spec_colorize(s@, c));
        return r;
    }
    push_all(&mut r, c.as_str().as_bytes());
    push_all(&mut r, s);
    push_all(&mut r, "\x1b[0m".as_bytes());
    assert(r@ =~= spec_colorize(s@, c));
    r
}

/// Append `s` wrapped in the colour's escape code onto `out`.
pub fn push_colorized(out: &mut Vec<u8>, s: &[u8], c: &Color)
    ensures
        final(out)@ == old(out)@ + spec_colorize(s@, c),
{
    if let Color::Empty = c {
        push_all(out, s);
        assert(out@ =~= old(out)@ + spec_colorize(s@, c));
        return ;
    }
    push_all(out, c.as_str().as_bytes());
    push_all(out, s);
    push_all(out, "\x1b[0m".as_bytes());
    assert(out@ =~= old(out)@ + spec_colorize(s@, c));
}

} // verus!
