//! An on/off switch read from user text.
use vstd::prelude::*;
use crate::text::text_equals;

verus! {

/// A switch as the user writes it: enable, disable, or anything else.
#[derive(Clone, Copy, Debug, PartialEq, Eq, Structural)]
pub enum Toggle {
    /// Enable this thing
    Enable,
    /// Disable this thing
    Disable,
    /// Anything else
    Invalid,
}

/// The lower-case form of a text, as `str::to_lowercase` gives it (Unicode's mapping).
pub uninterp spec fn lowercase(s: Seq<char>) -> Seq<char>;

/// Calls `str::to_lowercase`.
#[verifier::external_body]
fn to_lowercase(s: &str) -> (r: String)
    ensures
        r@ == lowercase(s@),
{
    s.to_lowercase()
}

/// The switch that a lower-case word names: `enable`, `e`, `true`, `t` and `1` enable;
/// `disable`, `d`, `false`, `f` and `0` disable; anything else is invalid.
pub open spec fn toggle_of_word(w: Seq<char>) -> Toggle {
    if w == seq!['e', 'n', 'a', 'b', 'l', 'e'] || w == seq!['e'] || w == seq!['t', 'r', 'u', 'e']
        || w == seq!['t'] || w == seq!['1'] {
        Toggle::Enable
    } else if w == seq!['d', 'i', 's', 'a', 'b', 'l', 'e'] || w == seq!['d'] || w == seq![
        'f',
        'a',
        'l',
        's',
        'e',
    ] || w == seq!['f'] || w == seq!['0'] {
        Toggle::Disable
    } else {
        Toggle::Invalid
    }
}

impl Toggle {
    /// Reads a switch from text, ignoring case.
    pub fn parse(s: &str) -> (r: Toggle)
        ensures
            r == toggle_of_word(lowercase(s@)),
    {
        let low = to_lowercase(s);
        let w = low.as_str();
        proof {
            reveal_strlit("enable");
            reveal_strlit("e");
            reveal_strlit("true");
            reveal_strlit("t");
            reveal_strlit("1");
            reveal_strlit("disable");
            reveal_strlit("d");
            reveal_strlit("false");
            reveal_strlit("f");
            reveal_strlit("0");
            assert("enable"@ =~= seq!['e', 'n', 'a', 'b', 'l', 'e']);
            assert("e"@ =~= seq!['e']);
            assert("true"@ =~= seq!['t', 'r', 'u', 'e']);
            assert("t"@ =~= seq!['t']);
            assert("1"@ =~= seq!['1']);
            assert("disable"@ =~= seq!['d', 'i', 's', 'a', 'b', 'l', 'e']);
            assert("d"@ =~= seq!['d']);
            assert("false"@ =~= seq!['f', 'a', 'l', 's', 'e']);
            assert("f"@ =~= seq!['f']);
            assert("0"@ =~= seq!['0']);
        }
        if text_equals(w, "enable") || text_equals(w, "e") || text_equals(w, "true")
            || text_equals(w, "t") || text_equals(w, "1") {
            Toggle::Enable
        } else if text_equals(w, "disable") || text_equals(w, "d") || text_equals(w, "false")
            || text_equals(w, "f") || text_equals(w, "0") {
            Toggle::Disable
        } else {
            Toggle::Invalid
        }
    }

    /// Whether the switch is on: only `Enable` is.
    pub fn is_enabled(self) -> (r: bool)
        ensures
            r == (self == Toggle::Enable),
    {
        match self {
            Toggle::Enable => true,
            Toggle::Disable => false,
            Toggle::Invalid => false,
        }
    }
}

impl std::str::FromStr for Toggle {
    type Err = std::string::ParseError;

    fn from_str(s: &str) -> (r: Result<Self, Self::Err>)
        ensures
            r matches Ok(t) && t == toggle_of_word(lowercase(s@)),
    {
        Ok(Toggle::parse(s))
    }
}

impl From<bool> for Toggle {
    fn from(b: bool) -> (r: Toggle) {
        match b {
            true => Toggle::Enable,
            false => Toggle::Disable,
        }
    }
}

impl vstd::std_specs::convert::FromSpecImpl<bool> for Toggle {
    open spec fn obeys_from_spec() -> bool {
        true
    }

    open spec fn from_spec(b: bool) -> Toggle {
        if b {
            Toggle::Enable
        } else {
            Toggle::Disable
        }
    }
}

impl From<Toggle> for bool {
    fn from(t: Toggle) -> (r: bool) {
        match t {
            Toggle::Enable => true,
            Toggle::Disable => false,
            Toggle::Invalid => false,
        }
    }
}

impl vstd::std_specs::convert::FromSpecImpl<Toggle> for bool {
    open spec fn obeys_from_spec() -> bool {
        true
    }

    open spec fn from_spec(t: Toggle) -> bool {
        t == Toggle::Enable
    }
}

} // verus!
