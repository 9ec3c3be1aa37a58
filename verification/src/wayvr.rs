//! Compositor-wide plain data: the listening-endpoint name and the abstract
//! mouse-button enumeration.

use vstd::prelude::*;
use vstd::string::StringExecFns;

verus! {

/// The three mouse buttons that the host can inject.
#[derive(Clone, Copy, PartialEq, Eq, Structural, Debug)]
pub enum MouseIndex {
    Left,
    Center,
    Right,
}

/// The compositor's own listening endpoint, identified by its display number.
#[derive(Clone, Copy)]
pub struct WaylandEnv {
    pub display_num: u32,
}

/// The errors the compositor core surfaces.
#[derive(Debug)]
pub enum WayVrError {
    /// Every candidate listening address was already in use.
    SocketExhausted,
    /// A client launch failed; carries the message naming the executable
    /// path and the underlying error.
    SpawnFailed(String),
    /// The driver enumerated no memory-layout modifier for the chosen
    /// export format, so the format is unusable.
    NoModifiers,
}

impl WayVrError {
    /// A human-readable description of the error.
    pub fn message(&self) -> (r: String)
        ensures
            match self {
                WayVrError::SocketExhausted => r@ == "Failed to create wayland-server socket"@,
                WayVrError::SpawnFailed(m) => r@ == m@,
                WayVrError::NoModifiers => r@
                    == "No memory-layout modifiers available for the export format"@,
            },
    {
        match self {
            WayVrError::SocketExhausted => String::from_str(
                "Failed to create wayland-server socket",
            ),
            WayVrError::SpawnFailed(m) => m.clone(),
            WayVrError::NoModifiers => String::from_str(
                "No memory-layout modifiers available for the export format",
            ),
        }
    }
}

/// The character for a single decimal digit.
pub open spec fn digit_char(d: nat) -> char {
    if d == 0 {
        '0'
    } else if d == 1 {
        '1'
    } else if d == 2 {
        '2'
    } else if d == 3 {
        '3'
    } else if d == 4 {
        '4'
    } else if d == 5 {
        '5'
    } else if d == 6 {
        '6'
    } else if d == 7 {
        '7'
    } else if d == 8 {
        '8'
    } else {
        '9'
    }
}

/// The decimal digits of `n`, most significant first, with no leading zeros
/// (a single `'0'` for zero itself).
pub open spec fn spec_decimal(n: nat) -> Seq<char>
    decreases n,
{
    if n < 10 {
        seq![digit_char(n)]
    } else {
        spec_decimal(n / 10).push(digit_char(n % 10))
    }
}

/// The name of the listening endpoint with display number `n`.
pub open spec fn spec_display_name(n: nat) -> Seq<char> {
    "wayland-"@ + spec_decimal(n)
}

/// A one-character string slice holding the decimal digit `d`.
fn digit_str(d: u32) -> (r: &'static str)
    requires
        d < 10,
    ensures
        r@ =~= seq![digit_char(d as nat)],
{
    if d == 0 {
        proof {
            reveal_strlit("0");
        }
        "0"
    } else if d == 1 {
        proof {
            reveal_strlit("1");
        }
        "1"
    } else if d == 2 {
        proof {
            reveal_strlit("2");
        }
        "2"
    } else if d == 3 {
        proof {
            reveal_strlit("3");
        }
        "3"
    } else if d == 4 {
        proof {
            reveal_strlit("4");
        }
        "4"
    } else if d == 5 {
        proof {
            reveal_strlit("5");
        }
        "5"
    } else if d == 6 {
        proof {
            reveal_strlit("6");
        }
        "6"
    } else if d == 7 {
        proof {
            reveal_strlit("7");
        }
        "7"
    } else if d == 8 {
        proof {
            reveal_strlit("8");
        }
        "8"
    } else {
        proof {
            reveal_strlit("9");
        }
        "9"
    }
}

/// Appends the decimal digits of `n` to `s`.
fn push_decimal(s: &mut String, n: u32)
    ensures
        final(s)@ == old(s)@ + spec_decimal(n as nat),
    decreases n,
{
    if n >= 10 {
        push_decimal(s, n / 10);
    }
    let d: u32 = n % 10;
    s.append(digit_str(d));
    proof {
        assert(final(s)@ =~= old(s)@ + spec_decimal(n as nat));
    }
}

impl WaylandEnv {
    /// The endpoint name, e.g. `"wayland-20"` for display number 20.
    pub fn display_num_string(&self) -> (r: String)
        ensures
            r@ == spec_display_name(self.display_num as nat),
    {
        let mut s = String::from_str("wayland-");
        push_decimal(&mut s, self.display_num);
        s
    }
}

} // verus!
