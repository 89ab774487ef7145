//! The mechanical arm's operation: four independent flags and their
//! token grammar.

use vstd::prelude::*;

verus! {

use crate::rie::Register;

/// A token that is not an arm operation; carries the offending text.
#[derive(Debug, Clone, PartialEq, Eq)]
pub struct BadArmCmd(pub String);

/// The arm's four flags, in the fixed order push, flip-retract,
/// bend, read.
#[derive(Debug, Clone, Copy, PartialEq, Eq, PartialOrd, Ord)]
pub struct ArmCmd(pub [bool; 4]);

impl ArmCmd {
    /// Index of the push flag.
    pub const PUSH: usize = 0;

    /// Index of the flip-retract flag.
    pub const FLIP_RETRACT: usize = 1;

    /// Index of the bend flag; a bend acts as a flip-retract while
    /// push is active.
    pub const BEND: usize = 2;

    /// Index of the read flag.
    pub const READ: usize = 3;
}

/// What an arm token denotes: a subsequence of the four ordered
/// markers `<`, `>`, `C`, `?` (push, flip-retract, bend, read), each
/// present marker setting its flag; any other character, or a marker
/// out of order, denotes no operation at all.
pub open spec fn spec_parse_arm(s: Seq<char>) -> Option<Seq<bool>> {
    let p = s.len() > 0 && s[0] == '<';
    let i1: int = if p {
        1int
    } else {
        0int
    };
    let f = s.len() > i1 && s[i1] == '>';
    let i2: int = i1 + (if f {
        1int
    } else {
        0int
    });
    let b = s.len() > i2 && s[i2] == 'C';
    let i3: int = i2 + (if b {
        1int
    } else {
        0int
    });
    let r = s.len() > i3 && s[i3] == '?';
    let i4: int = i3 + (if r {
        1int
    } else {
        0int
    });
    if s.len() == i4 {
        Some(seq![p, f, b, r])
    } else {
        None
    }
}

impl Register for ArmCmd {
    open spec fn spec_assemble(&self) -> Seq<bool> {
        self.0@
    }

    fn assemble(&self) -> (r: [bool; 4]) {
        self.0
    }
}

impl Default for ArmCmd {
    /// The arm operation with every flag off.
    fn default() -> (r: Self)
        ensures
            r.0@ =~= seq![false, false, false, false],
    {
        let r = ArmCmd([false, false, false, false]);
        proof {
            assert(r.0@ =~= seq![false, false, false, false]);
        }
        r
    }
}

impl ArmCmd {
    /// Reads one arm token, as `spec_parse_arm` describes; a failure
    /// carries the offending text.
    pub fn parse(s: &str) -> (r: Result<ArmCmd, BadArmCmd>)
        ensures
            (match r {
                Ok(a) => spec_parse_arm(s@) == Some(a.0@),
                Err(e) => spec_parse_arm(s@) is None && e.0@ == s@,
            }),
    {
        let cs = crate::helpers::chars_of(s);
        let n = cs.len();
        let mut i: usize = 0;
        let p = i < n && cs[i] == '<';
        if p {
            i = i + 1;
        }
        let f = i < n && cs[i] == '>';
        if f {
            i = i + 1;
        }
        let b = i < n && cs[i] == 'C';
        if b {
            i = i + 1;
        }
        let r = i < n && cs[i] == '?';
        if r {
            i = i + 1;
        }
        if i == n {
            let a = ArmCmd([p, f, b, r]);
            proof {
                assert(a.0@ =~= seq![p, f, b, r]);
            }
            Ok(a)
        } else {
            Err(BadArmCmd(s.to_owned()))
        }
    }
}

} // verus!
