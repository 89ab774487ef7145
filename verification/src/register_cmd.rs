//! The per-register stack operations and their 4-bit encodings.

use vstd::prelude::*;

verus! {

use crate::rie::Register;

/// A token that is not a register operation; carries the offending
/// text.
#[derive(Debug, Clone, PartialEq, Eq)]
pub struct BadRegisterCmd(pub String);

/// One operation on one register column.
#[derive(Debug, Clone, Copy, PartialEq, Eq, PartialOrd, Ord, Structural)]
pub enum RegisterCmd {
    Noop,
    Push,
    Pull,
    Flip,
    FlipPull,
    Read,
}

/// The fixed 4-bit pattern of each register operation.
pub open spec fn spec_register_bits(c: RegisterCmd) -> Seq<bool> {
    match c {
        RegisterCmd::Noop => seq![false, false, false, false],
        RegisterCmd::Push => seq![false, true, false, false],
        RegisterCmd::Pull => seq![false, false, true, false],
        RegisterCmd::Flip => seq![false, true, true, true],
        RegisterCmd::FlipPull => seq![false, false, true, true],
        RegisterCmd::Read => seq![true, false, false, true],
    }
}

/// What a register-operation token denotes: `>` pushes, `<` pulls,
/// `%` flips, `%<` flips then pulls, `?` reads, the empty token does
/// nothing, and any other text denotes no operation at all.
pub open spec fn spec_parse_register(s: Seq<char>) -> Option<RegisterCmd> {
    if s == seq!['>'] {
        Some(RegisterCmd::Push)
    } else if s == seq!['<'] {
        Some(RegisterCmd::Pull)
    } else if s == seq!['%'] {
        Some(RegisterCmd::Flip)
    } else if s == seq!['%', '<'] {
        Some(RegisterCmd::FlipPull)
    } else if s == seq!['?'] {
        Some(RegisterCmd::Read)
    } else if s.len() == 0 {
        Some(RegisterCmd::Noop)
    } else {
        None
    }
}

impl Register for RegisterCmd {
    open spec fn spec_assemble(&self) -> Seq<bool> {
        spec_register_bits(*self)
    }

    fn assemble(&self) -> (r: [bool; 4]) {
        let r: [bool; 4] = match self {
            RegisterCmd::Noop => [false, false, false, false],
            RegisterCmd::Push => [false, true, false, false],
            RegisterCmd::Pull => [false, false, true, false],
            RegisterCmd::Flip => [false, true, true, true],
            RegisterCmd::FlipPull => [false, false, true, true],
            RegisterCmd::Read => [true, false, false, true],
        };
        proof {
            assert(r@ =~= spec_register_bits(*self));
        }
        r
    }
}

impl Default for RegisterCmd {
    /// The operation that leaves the register alone.
    fn default() -> (r: Self)
        ensures
            r == RegisterCmd::Noop,
    {
        RegisterCmd::Noop
    }
}

impl RegisterCmd {
    /// Reads one register-operation token, as `spec_parse_register`
    /// describes; a failure carries the offending text.
    pub fn parse(s: &str) -> (r: Result<RegisterCmd, BadRegisterCmd>)
        ensures
            (match r {
                Ok(c) => spec_parse_register(s@) == Some(c),
                Err(e) => spec_parse_register(s@) is None && e.0@ == s@,
            }),
    {
        let cs = crate::helpers::chars_of(s);
        let n = cs.len();
        if n == 0 {
            proof {
                assert(cs@.len() == 0);
                assert(cs@ != seq!['>'] && cs@ != seq!['<'] && cs@ != seq!['%'] && cs@ != seq![
                    '%',
                    '<',
                ] && cs@ != seq!['?']);
            }
            return Ok(RegisterCmd::Noop);
        }
        if n == 1 {
            let c = cs[0];
            if c == '>' {
                proof {
                    assert(cs@ =~= seq!['>']);
                }
                return Ok(RegisterCmd::Push);
            }
            if c == '<' {
                proof {
                    assert(cs@ =~= seq!['<']);
                }
                return Ok(RegisterCmd::Pull);
            }
            if c == '%' {
                proof {
                    assert(cs@ =~= seq!['%']);
                }
                return Ok(RegisterCmd::Flip);
            }
            if c == '?' {
                proof {
                    assert(cs@ =~= seq!['?']);
                }
                return Ok(RegisterCmd::Read);
            }
        }
        if n == 2 && cs[0] == '%' && cs[1] == '<' {
            proof {
                assert(cs@ =~= seq!['%', '<']);
            }
            return Ok(RegisterCmd::FlipPull);
        }
        proof {
            assert(spec_parse_register(cs@) is None) by {
                if cs@ == seq!['>'] {
                    assert(cs@.len() == 1 && cs@[0] == '>');
                }
                if cs@ == seq!['<'] {
                    assert(cs@.len() == 1 && cs@[0] == '<');
                }
                if cs@ == seq!['%'] {
                    assert(cs@.len() == 1 && cs@[0] == '%');
                }
                if cs@ == seq!['?'] {
                    assert(cs@.len() == 1 && cs@[0] == '?');
                }
                if cs@ == seq!['%', '<'] {
                    assert(cs@.len() == 2 && cs@[0] == '%' && cs@[1] == '<');
                }
            }
        }
        Err(BadRegisterCmd(s.to_owned()))
    }
}

} // verus!
