//! One command line: state, arg, jump target, constant read,
//! register operations, arm operation.

use vstd::prelude::*;

verus! {

use crate::arm_cmd::ArmCmd;
use crate::arm_cmd::BadArmCmd;
use crate::arm_cmd::spec_parse_arm;
use crate::header::HeaderFormat;
use crate::helpers::spec_next_token;
use crate::helpers::spec_parse_bool;
use crate::helpers::spec_parse_u32;
use crate::helpers::spec_parse_usize;
use crate::helpers::spec_tokens;
use crate::register_cmd::BadRegisterCmd;
use crate::register_cmd::RegisterCmd;
use crate::register_cmd::spec_parse_register;
use crate::tm_cmd::TMCmd;

/// Failure kinds of the command-line parser; each carries the raw
/// offending text and the state and arg context where known.
#[derive(Debug, Clone, PartialEq, Eq)]
pub enum RieLineErr {
    /// The line has a tab but no state field.
    NoState,
    /// The state field is not a non-negative integer.
    BadState(String),
    /// The named state has no arg field.
    NoArg(u32),
    /// The arg field is not a boolean.
    BadArg(String, u32),
    /// The jump field is not a non-negative integer.
    BadJump(String, u32, bool),
    /// The read field is not a boolean.
    BadRead(String, u32, bool),
    /// The register operation in the named column is not valid.
    BadRegisterCommand(u32, bool, usize, BadRegisterCmd),
    /// The arm operation is not valid.
    BadArmCommand(u32, bool, BadArmCmd),
    /// The command tries to read from more than one source.
    MultiRead(u32, bool),
}

/// The ghost form of a command-line failure, over character
/// sequences.
pub ghost enum RieLineErrV {
    NoState,
    BadState(Seq<char>),
    NoArg(u32),
    BadArg(Seq<char>, u32),
    BadJump(Seq<char>, u32, bool),
    BadRead(Seq<char>, u32, bool),
    BadRegisterCommand(u32, bool, nat, Seq<char>),
    BadArmCommand(u32, bool, Seq<char>),
    MultiRead(u32, bool),
}

/// The ghost form of a parsed command line.
pub ghost struct LineV {
    pub state: u32,
    pub arg: bool,
    pub goto: usize,
    pub read: Option<bool>,
    pub regs: Seq<RegisterCmd>,
    pub arm: Seq<bool>,
}

/// A parsed command line: the command and its (state, arg) address.
#[derive(Debug)]
pub struct RieLine {
    pub state: u32,
    pub arg: bool,
    pub cmd: TMCmd,
}

/// The register-operation fields from `idx` on, at most `remaining`
/// of them; a failure carries the register column `col` and the
/// offending text.
pub open spec fn spec_parse_regs(
    toks: Seq<Seq<char>>,
    idx: int,
    remaining: nat,
    col: nat,
) -> Result<Seq<RegisterCmd>, (nat, Seq<char>)>
    decreases remaining,
{
    if remaining == 0 || !(0 <= idx < toks.len()) {
        Ok(Seq::empty())
    } else {
        match spec_parse_register(toks[idx]) {
            None => Err((col, toks[idx])),
            Some(c) => match spec_parse_regs(toks, idx + 1, (remaining - 1) as nat, col + 1) {
                Ok(rest) => Ok(seq![c] + rest),
                Err(e) => Err(e),
            },
        }
    }
}

/// How many `Read` operations a register list holds.
pub open spec fn spec_count_reads(regs: Seq<RegisterCmd>) -> nat
    decreases regs.len(),
{
    if regs.len() == 0 {
        0
    } else {
        spec_count_reads(regs.drop_last()) + if regs.last() == RegisterCmd::Read {
            1nat
        } else {
            0nat
        }
    }
}

/// How many read sources a command names in all: `Read` register
/// operations, a constant read, and the arm's read flag.
pub open spec fn spec_read_sources(regs: Seq<RegisterCmd>, read: Option<bool>, arm_read: bool) -> nat {
    spec_count_reads(regs) + (if read is Some {
        1nat
    } else {
        0nat
    }) + (if arm_read {
        1nat
    } else {
        0nat
    })
}

/// What a command line denotes, over its tab-separated fields: a
/// state, an arg, an optional jump target defaulting to the state,
/// an optional constant read, one register operation per declared
/// column, and an arm operation when the format has one; a command
/// with more than one read source is rejected.
pub open spec fn spec_parse_line(toks: Seq<Seq<char>>, format: HeaderFormat) -> Result<
    LineV,
    RieLineErrV,
> {
    match spec_next_token(toks, 0) {
        None => Err(RieLineErrV::NoState),
        Some(t0) => match spec_parse_u32(t0) {
            None => Err(RieLineErrV::BadState(toks[0])),
            Some(state) => match spec_next_token(toks, 1) {
                None => Err(RieLineErrV::NoArg(state)),
                Some(t1) => match spec_parse_bool(t1) {
                    None => Err(RieLineErrV::BadArg(toks[1], state)),
                    Some(arg) => {
                        let goto_r = match spec_next_token(toks, 2) {
                            None => Ok(state as usize),
                            Some(t2) => match spec_parse_usize(t2) {
                                None => Err(RieLineErrV::BadJump(toks[2], state, arg)),
                                Some(g) => Ok(g),
                            },
                        };
                        match goto_r {
                            Err(e) => Err(e),
                            Ok(goto) => {
                                let read_r = match spec_next_token(toks, 3) {
                                    None => Ok(None::<bool>),
                                    Some(t3) => match spec_parse_bool(t3) {
                                        None => Err(RieLineErrV::BadRead(toks[3], state, arg)),
                                        Some(b) => Ok(Some(b)),
                                    },
                                };
                                match read_r {
                                    Err(e) => Err(e),
                                    Ok(read) => match spec_parse_regs(
                                        toks,
                                        4,
                                        format.register_count as nat,
                                        0,
                                    ) {
                                        Err((col, raw)) => Err(
                                            RieLineErrV::BadRegisterCommand(state, arg, col, raw),
                                        ),
                                        Ok(regs) => {
                                            let navail: int = if toks.len() > 4 {
                                                toks.len() - 4
                                            } else {
                                                0
                                            };
                                            let consumed: int = if (
                                            format.register_count as int) < navail {
                                                format.register_count as int
                                            } else {
                                                navail
                                            };
                                            let arm_r = if format.has_arm {
                                                match spec_next_token(toks, 4 + consumed) {
                                                    None => Ok(seq![false, false, false, false]),
                                                    Some(ta) => match spec_parse_arm(ta) {
                                                        None => Err(
                                                            RieLineErrV::BadArmCommand(
                                                                state,
                                                                arg,
                                                                ta,
                                                            ),
                                                        ),
                                                        Some(flags) => Ok(flags),
                                                    },
                                                }
                                            } else {
                                                Ok(seq![false, false, false, false])
                                            };
                                            match arm_r {
                                                Err(e) => Err(e),
                                                Ok(arm) => if spec_read_sources(
                                                    regs,
                                                    read,
                                                    arm[3],
                                                ) > 1 {
                                                    Err(RieLineErrV::MultiRead(state, arg))
                                                } else {
                                                    Ok(
                                                        LineV {
                                                            state,
                                                            arg,
                                                            goto,
                                                            read,
                                                            regs,
                                                            arm,
                                                        },
                                                    )
                                                },
                                            }
                                        },
                                    },
                                }
                            },
                        }
                    },
                },
            },
        },
    }
}

/// The ghost form of a parsed line.
pub open spec fn line_v(l: RieLine) -> LineV {
    LineV {
        state: l.state,
        arg: l.arg,
        goto: l.cmd.goto,
        read: l.cmd.read,
        regs: l.cmd.register_cmds@,
        arm: l.cmd.arm_cmd.0@,
    }
}

/// The ghost form of a parsed armless line.
pub open spec fn line_v_fie(l: crate::fieline::FieLine) -> LineV {
    LineV {
        state: l.state,
        arg: l.arg,
        goto: l.cmd.goto,
        read: l.cmd.read,
        regs: l.cmd.register_cmds@,
        arm: l.cmd.arm_cmd.0@,
    }
}

/// Whether the exec error `e` is the ghost error `v`.
pub open spec fn line_err_is(e: RieLineErr, v: RieLineErrV) -> bool {
    match e {
        RieLineErr::NoState => v == RieLineErrV::NoState,
        RieLineErr::BadState(t) => v == RieLineErrV::BadState(t@),
        RieLineErr::NoArg(s) => v == RieLineErrV::NoArg(s),
        RieLineErr::BadArg(t, s) => v == RieLineErrV::BadArg(t@, s),
        RieLineErr::BadJump(t, s, a) => v == RieLineErrV::BadJump(t@, s, a),
        RieLineErr::BadRead(t, s, a) => v == RieLineErrV::BadRead(t@, s, a),
        RieLineErr::BadRegisterCommand(s, a, i, b) => v == RieLineErrV::BadRegisterCommand(
            s,
            a,
            i as nat,
            b.0@,
        ),
        RieLineErr::BadArmCommand(s, a, b) => v == RieLineErrV::BadArmCommand(s, a, b.0@),
        RieLineErr::MultiRead(s, a) => v == RieLineErrV::MultiRead(s, a),
    }
}

impl RieLine {
    /// Reads one command line, as `spec_parse_line` describes.
    #[verifier::rlimit(100)]
    #[verifier::spinoff_prover]
    #[verifier::loop_isolation(false)]
    pub fn parse(line: &str, format: HeaderFormat) -> (r: Result<RieLine, RieLineErr>)
        ensures
            (match r {
                Ok(l) => spec_parse_line(spec_tokens(line@), format) == Ok::<LineV, RieLineErrV>(
                    line_v(l),
                ),
                Err(e) => spec_parse_line(spec_tokens(line@), format) matches Err(v)
                    && line_err_is(e, v),
            }),
            r matches Ok(l) ==> l.cmd.register_cmds@.len() <= format.register_count
                && l.cmd.arm_cmd.0@.len() == 4 && spec_read_sources(
                l.cmd.register_cmds@,
                l.cmd.read,
                l.cmd.arm_cmd.0@[3],
            ) <= 1,
    {
        let tokens = crate::helpers::get_tokens(line);
        let ghost toks = spec_tokens(line@);
        proof {
            assert(toks == tokens@.map_values(|t: String| t@));
        }
        let state: u32 = match crate::helpers::next_token(&tokens, 0) {
            None => {
                return Err(RieLineErr::NoState);
            },
            Some(t) => {
                let cs = crate::helpers::chars_of(t.as_str());
                match crate::helpers::parse_u32(&cs) {
                    None => {
                        proof {
                            assert(toks[0] == tokens@[0]@);
                        }
                        return Err(RieLineErr::BadState(tokens[0].clone()));
                    },
                    Some(v) => v,
                }
            },
        };
        let arg: bool = match crate::helpers::next_token(&tokens, 1) {
            None => {
                return Err(RieLineErr::NoArg(state));
            },
            Some(t) => {
                let cs = crate::helpers::chars_of(t.as_str());
                match crate::helpers::parse_bool(&cs) {
                    None => {
                        proof {
                            assert(toks[1] == tokens@[1]@);
                        }
                        return Err(RieLineErr::BadArg(tokens[1].clone(), state));
                    },
                    Some(v) => v,
                }
            },
        };
        let goto: usize = match crate::helpers::next_token(&tokens, 2) {
            None => state as usize,
            Some(t) => {
                let cs = crate::helpers::chars_of(t.as_str());
                match crate::helpers::parse_usize(&cs) {
                    None => {
                        proof {
                            assert(toks[2] == tokens@[2]@);
                        }
                        return Err(RieLineErr::BadJump(tokens[2].clone(), state, arg));
                    },
                    Some(v) => v,
                }
            },
        };
        let read: Option<bool> = match crate::helpers::next_token(&tokens, 3) {
            None => None,
            Some(t) => {
                let cs = crate::helpers::chars_of(t.as_str());
                match crate::helpers::parse_bool(&cs) {
                    None => {
                        proof {
                            assert(toks[3] == tokens@[3]@);
                        }
                        return Err(RieLineErr::BadRead(tokens[3].clone(), state, arg));
                    },
                    Some(v) => Some(v),
                }
            },
        };
        let navail: usize = if tokens.len() > 4 {
            tokens.len() - 4
        } else {
            0
        };
        let lim: usize = if format.register_count < navail {
            format.register_count
        } else {
            navail
        };
        let mut regs: Vec<RegisterCmd> = Vec::new();
        let mut i: usize = 0;
        while i < lim
            invariant
                0 <= i <= lim,
                regs@.len() == i,
                (match spec_parse_regs(toks, 4, format.register_count as nat, 0) {
                    Ok(all) => spec_parse_regs(
                        toks,
                        4 + i,
                        (format.register_count - i) as nat,
                        i as nat,
                    ) matches Ok(rest) && all == regs@ + rest,
                    Err(e) => spec_parse_regs(
                        toks,
                        4 + i,
                        (format.register_count - i) as nat,
                        i as nat,
                    ) == Err::<Seq<RegisterCmd>, (nat, Seq<char>)>(e),
                }),
            decreases lim - i,
        {
            proof {
                assert(toks[4 + i] == tokens@[4 + i]@);
            }
            match RegisterCmd::parse(tokens[4 + i].as_str()) {
                Err(bad) => {
                    return Err(RieLineErr::BadRegisterCommand(state, arg, i, bad));
                },
                Ok(c) => {
                    proof {
                        let rem = (format.register_count - i) as nat;
                        assert(spec_parse_regs(toks, 4 + i, rem, i as nat) matches Ok(rest)
                            ==> rest == seq![c] + (match spec_parse_regs(
                            toks,
                            4 + i + 1,
                            (rem - 1) as nat,
                            (i + 1) as nat,
                        ) {
                            Ok(r2) => r2,
                            Err(_) => Seq::empty(),
                        }));
                    }
                    regs.push(c);
                },
            }
            i = i + 1;
        }
        proof {
            if lim < format.register_count {
                assert(4 + lim >= toks.len());
                assert(spec_parse_regs(
                    toks,
                    4 + lim,
                    (format.register_count - lim) as nat,
                    lim as nat,
                ) == Ok::<Seq<RegisterCmd>, (nat, Seq<char>)>(Seq::empty()));
            }
            assert(spec_parse_regs(toks, 4, format.register_count as nat, 0) == Ok::<
                Seq<RegisterCmd>,
                (nat, Seq<char>),
            >(regs@ + Seq::empty()));
            assert(regs@ + Seq::<RegisterCmd>::empty() =~= regs@);
        }
        let arm_cmd: ArmCmd = if format.has_arm {
            match crate::helpers::next_token(&tokens, 4 + lim) {
                None => ArmCmd::default(),
                Some(t) => match ArmCmd::parse(t.as_str()) {
                    Err(bad) => {
                        return Err(RieLineErr::BadArmCommand(state, arg, bad));
                    },
                    Ok(a) => a,
                },
            }
        } else {
            ArmCmd::default()
        };
        let mut cnt: usize = if read.is_some() {
            1
        } else {
            0
        };
        if arm_cmd.0[3] {
            cnt = cnt + 1;
        }
        let mut k: usize = 0;
        proof {
            assert(regs@.take(0) =~= Seq::<RegisterCmd>::empty());
        }
        while k < regs.len()
            invariant
                0 <= k <= regs@.len(),
                cnt <= 2 + k,
                cnt == spec_count_reads(regs@.take(k as int)) + (if read is Some {
                    1int
                } else {
                    0int
                }) + (if arm_cmd.0@[3] {
                    1int
                } else {
                    0int
                }),
            decreases regs@.len() - k,
        {
            proof {
                assert(regs@.take(k + 1).drop_last() =~= regs@.take(k as int));
                assert(regs@.take(k + 1).last() == regs@[k as int]);
            }
            if regs[k] == RegisterCmd::Read {
                cnt = cnt + 1;
            }
            k = k + 1;
        }
        proof {
            assert(regs@.take(regs@.len() as int) =~= regs@);
        }
        if cnt > 1 {
            return Err(RieLineErr::MultiRead(state, arg));
        }
        Ok(RieLine { state, arg, cmd: TMCmd { goto, read, register_cmds: regs, arm_cmd } })
    }
}

/// `s` padded on the left with spaces to width `w`.
pub open spec fn spec_rjust(s: Seq<char>, w: nat) -> Seq<char> {
    if s.len() >= w {
        s
    } else {
        Seq::new((w - s.len()) as nat, |i: int| ' ') + s
    }
}

/// `s` padded on the right with spaces to width `w`.
pub open spec fn spec_ljust(s: Seq<char>, w: nat) -> Seq<char> {
    if s.len() >= w {
        s
    } else {
        s + Seq::new((w - s.len()) as nat, |i: int| ' ')
    }
}

/// The words `true` and `false`.
pub open spec fn spec_bool_text(b: bool) -> Seq<char> {
    if b {
        "true"@
    } else {
        "false"@
    }
}

/// The printed name of a register operation.
pub open spec fn spec_reg_name(c: RegisterCmd) -> Seq<char> {
    match c {
        RegisterCmd::Noop => "Noop"@,
        RegisterCmd::Push => "Push"@,
        RegisterCmd::Pull => "Pull"@,
        RegisterCmd::Flip => "Flip"@,
        RegisterCmd::FlipPull => "FlipPull"@,
        RegisterCmd::Read => "Read"@,
    }
}

/// The per-register entries of the printed command, from column `i`
/// on: one entry per operation that neither idles nor reads.
pub open spec fn spec_reg_entries(regs: Seq<RegisterCmd>, i: int) -> Seq<Seq<char>>
    decreases regs.len() - i,
    when 0 <= i <= regs.len()
{
    if i >= regs.len() {
        Seq::empty()
    } else if regs[i] == RegisterCmd::Noop || regs[i] == RegisterCmd::Read {
        spec_reg_entries(regs, i + 1)
    } else {
        seq![spec_reg_name(regs[i]) + " Register "@ + crate::helpers::spec_digits_chars(i as nat)]
            + spec_reg_entries(regs, i + 1)
    }
}

/// The first register column that reads, if any.
pub open spec fn spec_find_read(regs: Seq<RegisterCmd>, i: int) -> Option<int>
    decreases regs.len() - i,
    when 0 <= i <= regs.len()
{
    if i >= regs.len() {
        None
    } else if regs[i] == RegisterCmd::Read {
        Some(i)
    } else {
        spec_find_read(regs, i + 1)
    }
}

/// Where the command reads from, if anywhere: a constant, a
/// register, or the arm.
pub open spec fn spec_read_source(c: crate::tm_cmd::CmdV) -> Option<Seq<char>> {
    match c.read {
        Some(b) => Some("Constant "@ + spec_bool_text(b)),
        None => match spec_find_read(c.regs, 0) {
            Some(i) => Some("Register "@ + crate::helpers::spec_digits_chars(i as nat)),
            None => if c.arm[3] {
                Some("Construction Arm"@)
            } else {
                None
            },
        },
    }
}

/// Entries joined with ` | ` between them.
pub open spec fn spec_join_bar(parts: Seq<Seq<char>>) -> Seq<char>
    decreases parts.len(),
{
    if parts.len() == 0 {
        Seq::empty()
    } else if parts.len() == 1 {
        parts[0]
    } else {
        spec_join_bar(parts.drop_last()) + " | "@ + parts.last()
    }
}

/// The instruction entries of one printed command: the jump target
/// first, then the register operations, then the read source if one
/// exists.
pub open spec fn spec_line_entries(state_digits: nat, c: crate::tm_cmd::CmdV) -> Seq<Seq<char>> {
    let goto_e = seq![
        "Goto "@ + spec_rjust(crate::helpers::spec_digits_chars(c.goto as nat), state_digits),
    ];
    let regs_e = spec_reg_entries(c.regs, 0);
    match spec_read_source(c) {
        None => goto_e + regs_e,
        Some(src) => goto_e + regs_e + seq!["Read from "@ + src],
    }
}

/// One printed command line: the state right-justified to
/// `state_digits`, the arg left-justified to five characters, and
/// the instruction entries.
pub open spec fn spec_line_text(
    state_digits: nat,
    state: u32,
    arg: bool,
    c: crate::tm_cmd::CmdV,
) -> Seq<char> {
    "State "@ + spec_rjust(crate::helpers::spec_digits_chars(state as nat), state_digits)
        + " | "@ + spec_ljust(spec_bool_text(arg), 5) + " = { "@ + spec_join_bar(
        spec_line_entries(state_digits, c),
    ) + " }"@
}

/// The characters of a register operation's printed name.
fn reg_name_chars(c: RegisterCmd) -> (r: Vec<char>)
    ensures
        r@ == spec_reg_name(c),
{
    match c {
        RegisterCmd::Noop => crate::helpers::chars_of("Noop"),
        RegisterCmd::Push => crate::helpers::chars_of("Push"),
        RegisterCmd::Pull => crate::helpers::chars_of("Pull"),
        RegisterCmd::Flip => crate::helpers::chars_of("Flip"),
        RegisterCmd::FlipPull => crate::helpers::chars_of("FlipPull"),
        RegisterCmd::Read => crate::helpers::chars_of("Read"),
    }
}

impl RieLine {
    /// Appends `n` right-justified in `w` characters.
    fn push_rjust_digits(out: &mut Vec<char>, n: usize, w: usize)
        ensures
            final(out)@ == old(out)@ + spec_rjust(
                crate::helpers::spec_digits_chars(n as nat),
                w as nat,
            ),
    {
        let ghost base = out@;
        let d = crate::helpers::count_digits(n);
        proof {
            crate::rle::lemma_digits_chars_len(n as nat);
        }
        let pad: usize = if w > d {
            w - d
        } else {
            0
        };
        let mut k: usize = 0;
        while k < pad
            invariant
                0 <= k <= pad,
                out@ =~= base + Seq::new(k as nat, |i: int| ' '),
            decreases pad - k,
        {
            let ghost kk = k as nat;
            out.push(' ');
            proof {
                assert(Seq::new(kk + 1, |i: int| ' ') =~= Seq::new(kk, |i: int| ' ').push(' '));
            }
            k = k + 1;
        }
        crate::helpers::push_digits(n, out);
        proof {
            assert(out@ =~= base + spec_rjust(
                crate::helpers::spec_digits_chars(n as nat),
                w as nat,
            ));
        }
    }

    /// Prints one command as a diagnostic line, exactly as
    /// `spec_line_text` describes.
    #[verifier::rlimit(100)]
    #[verifier::spinoff_prover]
    #[verifier::loop_isolation(false)]
    pub fn to_string(state_digits: usize, state: u32, arg: bool, cmd: &TMCmd) -> (r: String)
        requires
            spec_read_sources(cmd.register_cmds@, cmd.read, cmd.arm_cmd.0@[3]) <= 1,
        ensures
            r@ == spec_line_text(
                state_digits as nat,
                state,
                arg,
                crate::tm_cmd::cmd_v(*cmd),
            ),
    {
        let ghost cv = crate::tm_cmd::cmd_v(*cmd);
        let mut entries: Vec<Vec<char>> = Vec::new();
        let mut goto_e: Vec<char> = Vec::new();
        crate::helpers::append_str(&mut goto_e, "Goto ");
        Self::push_rjust_digits(&mut goto_e, cmd.goto, state_digits);
        proof {
            assert(goto_e@ =~= "Goto "@ + spec_rjust(
                crate::helpers::spec_digits_chars(cmd.goto as nat),
                state_digits as nat,
            ));
        }
        entries.push(goto_e);
        let ghost regs = cmd.register_cmds@;
        let ghost goto_entry = "Goto "@ + spec_rjust(
            crate::helpers::spec_digits_chars(cmd.goto as nat),
            state_digits as nat,
        );
        proof {
            assert(entries@.map_values(|e: Vec<char>| e@) =~= seq![goto_entry]);
        }
        let mut i: usize = 0;
        while i < cmd.register_cmds.len()
            invariant
                0 <= i <= regs.len(),
                entries@.len() >= 1,
                seq![goto_entry] + spec_reg_entries(regs, 0) =~= entries@.map_values(
                    |e: Vec<char>| e@,
                ) + spec_reg_entries(regs, i as int),
            decreases regs.len() - i,
        {
            let c = cmd.register_cmds[i];
            if !(c == RegisterCmd::Noop) && !(c == RegisterCmd::Read) {
                let mut e: Vec<char> = Vec::new();
                crate::helpers::append_chars(&mut e, &reg_name_chars(c));
                crate::helpers::append_str(&mut e, " Register ");
                crate::helpers::push_digits(i, &mut e);
                proof {
                    assert(e@ =~= spec_reg_name(c) + " Register "@
                        + crate::helpers::spec_digits_chars(i as nat));
                }
                let ghost prev = entries@.map_values(|e2: Vec<char>| e2@);
                let ghost ev = e@;
                entries.push(e);
                proof {
                    assert(entries@.map_values(|e2: Vec<char>| e2@) =~= prev.push(ev));
                    assert(spec_reg_entries(regs, i as int) =~= seq![ev] + spec_reg_entries(
                        regs,
                        i + 1,
                    ));
                    assert(prev + (seq![ev] + spec_reg_entries(regs, i + 1)) =~= prev.push(ev)
                        + spec_reg_entries(regs, i + 1));
                }
            } else {
                proof {
                    assert(spec_reg_entries(regs, i as int) =~= spec_reg_entries(regs, i + 1));
                }
            }
            i = i + 1;
        }
        proof {
            assert(spec_reg_entries(regs, regs.len() as int) =~= Seq::<Seq<char>>::empty());
            assert(entries@.map_values(|e: Vec<char>| e@) =~= seq![goto_entry]
                + spec_reg_entries(regs, 0));
        }
        let mut read_idx: Option<usize> = None;
        let mut j: usize = 0;
        while j < cmd.register_cmds.len()
            invariant
                0 <= j <= regs.len(),
                (match read_idx {
                    Some(x) => 0 <= x < j && regs[x as int] == RegisterCmd::Read
                        && spec_find_read(regs, 0) == Some(x as int),
                    None => spec_find_read(regs, 0) == spec_find_read(regs, j as int),
                }),
            decreases regs.len() - j,
        {
            if read_idx.is_none() && cmd.register_cmds[j] == RegisterCmd::Read {
                read_idx = Some(j);
            }
            j = j + 1;
        }
        proof {
            assert(spec_find_read(regs, regs.len() as int) is None);
        }
        let mut has_src = true;
        let mut src: Vec<char> = Vec::new();
        match cmd.read {
            Some(b) => {
                crate::helpers::append_str(&mut src, "Constant ");
                if b {
                    crate::helpers::append_str(&mut src, "true");
                } else {
                    crate::helpers::append_str(&mut src, "false");
                }
            },
            None => {
                match read_idx {
                    Some(x) => {
                        crate::helpers::append_str(&mut src, "Register ");
                        crate::helpers::push_digits(x, &mut src);
                    },
                    None => {
                        if cmd.arm_cmd.0[3] {
                            crate::helpers::append_str(&mut src, "Construction Arm");
                        } else {
                            has_src = false;
                        }
                    },
                }
            },
        }
        if has_src {
            let mut e: Vec<char> = Vec::new();
            crate::helpers::append_str(&mut e, "Read from ");
            crate::helpers::append_chars(&mut e, &src);
            let ghost prev = entries@.map_values(|e2: Vec<char>| e2@);
            let ghost ev = e@;
            entries.push(e);
            proof {
                assert(spec_read_source(cv) matches Some(s2) && ev == "Read from "@ + s2);
                assert(entries@.map_values(|e2: Vec<char>| e2@) =~= prev.push(ev));
            }
        }
        proof {
            assert(entries@.map_values(|e: Vec<char>| e@) =~= spec_line_entries(
                state_digits as nat,
                cv,
            ));
        }
        let mut out: Vec<char> = Vec::new();
        crate::helpers::append_str(&mut out, "State ");
        Self::push_rjust_digits(&mut out, state as usize, state_digits);
        crate::helpers::append_str(&mut out, " | ");
        if arg {
            crate::helpers::append_str(&mut out, "true");
            out.push(' ');
            proof {
                assert(spec_ljust(spec_bool_text(arg), 5) =~= "true"@ + seq![' ']) by {
                    reveal_strlit("true");
                }
            }
        } else {
            crate::helpers::append_str(&mut out, "false");
            proof {
                assert(spec_ljust(spec_bool_text(arg), 5) =~= "false"@) by {
                    reveal_strlit("false");
                }
            }
        }
        crate::helpers::append_str(&mut out, " = { ");
        let ghost ev = entries@.map_values(|e: Vec<char>| e@);
        let ghost joined_base = out@;
        crate::helpers::append_chars(&mut out, &entries[0]);
        let mut k: usize = 1;
        proof {
            assert(ev[0] == entries@[0]@);
            assert(spec_join_bar(ev.take(1)) == ev.take(1)[0]);
            assert(ev.take(1)[0] == ev[0]);
        }
        while k < entries.len()
            invariant
                1 <= k <= ev.len(),
                out@ =~= joined_base + spec_join_bar(ev.take(k as int)),
            decreases ev.len() - k,
        {
            crate::helpers::append_str(&mut out, " | ");
            proof {
                assert(ev[k as int] == entries@[k as int]@);
            }
            crate::helpers::append_chars(&mut out, &entries[k]);
            proof {
                assert(ev.take(k + 1).drop_last() =~= ev.take(k as int));
                assert(ev.take(k + 1).last() == ev[k as int]);
                assert(spec_join_bar(ev.take(k + 1)) == spec_join_bar(ev.take(k as int)) + " | "@
                    + ev[k as int]);
            }
            k = k + 1;
        }
        proof {
            assert(ev.take(ev.len() as int) =~= ev);
        }
        crate::helpers::append_str(&mut out, " }");
        proof {
            assert(out@ =~= spec_line_text(state_digits as nat, state, arg, cv));
        }
        crate::helpers::chars_to_string(&out)
    }
}

} // verus!
