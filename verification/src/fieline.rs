//! The earlier, armless command-line grammar: the same first four
//! fields, then one register operation per remaining field.

use vstd::prelude::*;

verus! {

use crate::arm_cmd::ArmCmd;
use crate::helpers::spec_next_token;
use crate::helpers::spec_parse_bool;
use crate::helpers::spec_parse_u32;
use crate::helpers::spec_parse_usize;
use crate::helpers::spec_tokens;
use crate::register_cmd::BadRegisterCmd;
use crate::register_cmd::RegisterCmd;
use crate::rie_line::LineV;
use crate::rie_line::spec_parse_regs;
use crate::rie_line::spec_read_sources;
use crate::tm_cmd::TMCmd;

/// Failure kinds of the armless line parser.
#[derive(Debug, Clone, PartialEq, Eq)]
pub enum FieLineErr {
    /// The line has no state field.
    NoState,
    /// The state field is not a non-negative integer.
    BadState(String),
    /// The named state has no arg field.
    NoArg(u32),
    /// The arg field is not a boolean.
    BadArg(String, u32),
    /// The jump field is not a non-negative integer.
    BadJump(String, u32, bool),
    /// The read field is not a boolean.
    BadRead(String, u32, bool),
    /// The register operation in the named column is not valid.
    BadCommand(u32, bool, usize, BadRegisterCmd),
    /// The command tries to read from more than one source.
    MultiRead(u32, bool),
}

/// The ghost form of an armless-line failure.
pub ghost enum FieLineErrV {
    NoState,
    BadState(Seq<char>),
    NoArg(u32),
    BadArg(Seq<char>, u32),
    BadJump(Seq<char>, u32, bool),
    BadRead(Seq<char>, u32, bool),
    BadCommand(u32, bool, nat, Seq<char>),
    MultiRead(u32, bool),
}

/// A parsed armless command line.
#[derive(Debug)]
pub struct FieLine {
    pub state: u32,
    pub arg: bool,
    pub cmd: TMCmd,
}

/// What an armless command line denotes: as the arm-aware grammar,
/// but with every field after the fourth a register operation, and
/// never an arm.
pub open spec fn spec_parse_fieline(toks: Seq<Seq<char>>) -> Result<LineV, FieLineErrV> {
    match spec_next_token(toks, 0) {
        None => Err(FieLineErrV::NoState),
        Some(t0) => match spec_parse_u32(t0) {
            None => Err(FieLineErrV::BadState(toks[0])),
            Some(state) => match spec_next_token(toks, 1) {
                None => Err(FieLineErrV::NoArg(state)),
                Some(t1) => match spec_parse_bool(t1) {
                    None => Err(FieLineErrV::BadArg(toks[1], state)),
                    Some(arg) => {
                        let goto_r = match spec_next_token(toks, 2) {
                            None => Ok(state as usize),
                            Some(t2) => match spec_parse_usize(t2) {
                                None => Err(FieLineErrV::BadJump(toks[2], state, arg)),
                                Some(g) => Ok(g),
                            },
                        };
                        match goto_r {
                            Err(e) => Err(e),
                            Ok(goto) => {
                                let read_r = match spec_next_token(toks, 3) {
                                    None => Ok(None::<bool>),
                                    Some(t3) => match spec_parse_bool(t3) {
                                        None => Err(FieLineErrV::BadRead(toks[3], state, arg)),
                                        Some(b) => Ok(Some(b)),
                                    },
                                };
                                match read_r {
                                    Err(e) => Err(e),
                                    Ok(read) => {
                                        let remaining: nat = if toks.len() > 4 {
                                            (toks.len() - 4) as nat
                                        } else {
                                            0
                                        };
                                        match spec_parse_regs(toks, 4, remaining, 0) {
                                            Err((col, raw)) => Err(
                                                FieLineErrV::BadCommand(state, arg, col, raw),
                                            ),
                                            Ok(regs) => if spec_read_sources(regs, read, false)
                                                > 1 {
                                                Err(FieLineErrV::MultiRead(state, arg))
                                            } else {
                                                Ok(
                                                    LineV {
                                                        state,
                                                        arg,
                                                        goto,
                                                        read,
                                                        regs,
                                                        arm: seq![false, false, false, false],
                                                    },
                                                )
                                            },
                                        }
                                    },
                                }
                            },
                        }
                    },
                },
            },
        },
    }
}

/// Whether the exec error `e` is the ghost error `v`.
pub open spec fn fie_err_is(e: FieLineErr, v: FieLineErrV) -> bool {
    match e {
        FieLineErr::NoState => v == FieLineErrV::NoState,
        FieLineErr::BadState(t) => v == FieLineErrV::BadState(t@),
        FieLineErr::NoArg(s) => v == FieLineErrV::NoArg(s),
        FieLineErr::BadArg(t, s) => v == FieLineErrV::BadArg(t@, s),
        FieLineErr::BadJump(t, s, a) => v == FieLineErrV::BadJump(t@, s, a),
        FieLineErr::BadRead(t, s, a) => v == FieLineErrV::BadRead(t@, s, a),
        FieLineErr::BadCommand(s, a, i, b) => v == FieLineErrV::BadCommand(s, a, i as nat, b.0@),
        FieLineErr::MultiRead(s, a) => v == FieLineErrV::MultiRead(s, a),
    }
}

impl FieLine {
    /// Reads one armless command line, as `spec_parse_fieline`
    /// describes.
    #[verifier::rlimit(100)]
    #[verifier::spinoff_prover]
    #[verifier::loop_isolation(false)]
    pub fn parse(line: &str) -> (r: Result<FieLine, FieLineErr>)
        ensures
            (match r {
                Ok(l) => spec_parse_fieline(spec_tokens(line@)) == Ok::<LineV, FieLineErrV>(
                    crate::rie_line::line_v_fie(l),
                ),
                Err(e) => spec_parse_fieline(spec_tokens(line@)) matches Err(v) && fie_err_is(
                    e,
                    v,
                ),
            }),
    {
        let tokens = crate::helpers::get_tokens(line);
        let ghost toks = spec_tokens(line@);
        proof {
            assert(toks == tokens@.map_values(|t: String| t@));
        }
        let state: u32 = match crate::helpers::next_token(&tokens, 0) {
            None => {
                return Err(FieLineErr::NoState);
            },
            Some(t) => {
                let cs = crate::helpers::chars_of(t.as_str());
                match crate::helpers::parse_u32(&cs) {
                    None => {
                        proof {
                            assert(toks[0] == tokens@[0]@);
                        }
                        return Err(FieLineErr::BadState(tokens[0].clone()));
                    },
                    Some(v) => v,
                }
            },
        };
        let arg: bool = match crate::helpers::next_token(&tokens, 1) {
            None => {
                return Err(FieLineErr::NoArg(state));
            },
            Some(t) => {
                let cs = crate::helpers::chars_of(t.as_str());
                match crate::helpers::parse_bool(&cs) {
                    None => {
                        proof {
                            assert(toks[1] == tokens@[1]@);
                        }
                        return Err(FieLineErr::BadArg(tokens[1].clone(), state));
                    },
                    Some(v) => v,
                }
            },
        };
        let goto: usize = match crate::helpers::next_token(&tokens, 2) {
            None => state as usize,
            Some(t) => {
                let cs = crate::helpers::chars_of(t.as_str());
                match crate::helpers::parse_usize(&cs) {
                    None => {
                        proof {
                            assert(toks[2] == tokens@[2]@);
                        }
                        return Err(FieLineErr::BadJump(tokens[2].clone(), state, arg));
                    },
                    Some(v) => v,
                }
            },
        };
        let read: Option<bool> = match crate::helpers::next_token(&tokens, 3) {
            None => None,
            Some(t) => {
                let cs = crate::helpers::chars_of(t.as_str());
                match crate::helpers::parse_bool(&cs) {
                    None => {
                        proof {
                            assert(toks[3] == tokens@[3]@);
                        }
                        return Err(FieLineErr::BadRead(tokens[3].clone(), state, arg));
                    },
                    Some(v) => Some(v),
                }
            },
        };
        let lim: usize = if tokens.len() > 4 {
            tokens.len() - 4
        } else {
            0
        };
        let mut regs: Vec<RegisterCmd> = Vec::new();
        let mut i: usize = 0;
        while i < lim
            invariant
                0 <= i <= lim,
                regs@.len() == i,
                (match spec_parse_regs(toks, 4, lim as nat, 0) {
                    Ok(all) => spec_parse_regs(
                        toks,
                        4 + i,
                        (lim - i) as nat,
                        i as nat,
                    ) matches Ok(rest) && all == regs@ + rest,
                    Err(e) => spec_parse_regs(toks, 4 + i, (lim - i) as nat, i as nat) == Err::<
                        Seq<RegisterCmd>,
                        (nat, Seq<char>),
                    >(e),
                }),
            decreases lim - i,
        {
            proof {
                assert(toks[4 + i] == tokens@[4 + i]@);
            }
            match RegisterCmd::parse(tokens[4 + i].as_str()) {
                Err(bad) => {
                    return Err(FieLineErr::BadCommand(state, arg, i, bad));
                },
                Ok(c) => {
                    regs.push(c);
                },
            }
            i = i + 1;
        }
        proof {
            assert(spec_parse_regs(toks, 4 + lim, 0, lim as nat) == Ok::<
                Seq<RegisterCmd>,
                (nat, Seq<char>),
            >(Seq::empty()));
            assert(spec_parse_regs(toks, 4, lim as nat, 0) == Ok::<
                Seq<RegisterCmd>,
                (nat, Seq<char>),
            >(regs@ + Seq::empty()));
            assert(regs@ + Seq::<RegisterCmd>::empty() =~= regs@);
        }
        let mut cnt: usize = if read.is_some() {
            1
        } else {
            0
        };
        let mut k: usize = 0;
        proof {
            assert(regs@.take(0) =~= Seq::<RegisterCmd>::empty());
        }
        while k < regs.len()
            invariant
                0 <= k <= regs@.len(),
                cnt <= 1 + k,
                cnt == crate::rie_line::spec_count_reads(regs@.take(k as int)) + (
                if read is Some {
                    1int
                } else {
                    0int
                }),
            decreases regs@.len() - k,
        {
            proof {
                assert(regs@.take(k + 1).drop_last() =~= regs@.take(k as int));
                assert(regs@.take(k + 1).last() == regs@[k as int]);
            }
            if regs[k] == RegisterCmd::Read {
                cnt = cnt + 1;
            }
            k = k + 1;
        }
        proof {
            assert(regs@.take(regs@.len() as int) =~= regs@);
        }
        if cnt > 1 {
            return Err(FieLineErr::MultiRead(state, arg));
        }
        Ok(FieLine { state, arg, cmd: TMCmd { goto, read, register_cmds: regs, arm_cmd: ArmCmd::default() } })
    }
}

} // verus!
