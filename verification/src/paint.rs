//! ANSI colouring of terminal text, switched on or off as a whole.
use vstd::prelude::*;
use crate::text::push_str;

verus! {

/// Colours text with ANSI escape sequences when `on`, and leaves it plain otherwise.
pub struct Paint {
    pub on: bool,
}

/// `s` wrapped in the SGR sequence `code` and a reset when `on`; `s` itself otherwise.
pub open spec fn painted(on: bool, code: Seq<char>, s: Seq<char>) -> Seq<char> {
    if on {
        "\x1b["@ + code + "m"@ + s + "\x1b[0m"@
    } else {
        s
    }
}

impl Paint {
    /// `s` in the SGR style `code`.
    pub fn wrap(&self, code: &str, s: &str) -> (r: String)
        ensures
            r@ == painted(self.on, code@, s@),
    {
        let mut r = String::new();
        if self.on {
            push_str(&mut r, "\x1b[");
            push_str(&mut r, code);
            push_str(&mut r, "m");
            push_str(&mut r, s);
            push_str(&mut r, "\x1b[0m");
        } else {
            push_str(&mut r, s);
        }
        r
    }

    /// `s` in bold.
    pub fn bold(&self, s: &str) -> (r: String)
        ensures
            r@ == painted(self.on, "1"@, s@),
    {
        self.wrap("1", s)
    }

    /// `s` dimmed.
    pub fn dim(&self, s: &str) -> (r: String)
        ensures
            r@ == painted(self.on, "2"@, s@),
    {
        self.wrap("2", s)
    }

    /// `s` in red.
    pub fn red(&self, s: &str) -> (r: String)
        ensures
            r@ == painted(self.on, "31"@, s@),
    {
        self.wrap("31", s)
    }

    /// `s` in green.
    pub fn green(&self, s: &str) -> (r: String)
        ensures
            r@ == painted(self.on, "32"@, s@),
    {
        self.wrap("32", s)
    }

    /// `s` in yellow.
    pub fn yellow(&self, s: &str) -> (r: String)
        ensures
            r@ == painted(self.on, "33"@, s@),
    {
        self.wrap("33", s)
    }

    /// `s` in cyan.
    pub fn cyan(&self, s: &str) -> (r: String)
        ensures
            r@ == painted(self.on, "36"@, s@),
    {
        self.wrap("36", s)
    }

    /// `s` in magenta.
    pub fn magenta(&self, s: &str) -> (r: String)
        ensures
            r@ == painted(self.on, "35"@, s@),
    {
        self.wrap("35", s)
    }
}

/// With colour off, painting leaves text as it is.
pub proof fn law_plain_when_off(code: Seq<char>, s: Seq<char>)
    ensures
        painted(false, code, s) == s,
{
}

} // verus!
