//! One compiled command and its bit-level column layout.

use vstd::prelude::*;

verus! {

use crate::arm_cmd::ArmCmd;
use crate::header::HeaderFormat;
use crate::register_cmd::RegisterCmd;
use crate::register_cmd::spec_register_bits;
use crate::rie::Register;
use vstd::arithmetic::power2::pow2;

/// The compiled instruction for one (state, arg) address: the jump
/// target, an optional constant read, one operation per declared
/// register column, and the arm operation.
#[derive(Debug, Clone)]
pub struct TMCmd {
    pub goto: usize,
    pub read: Option<bool>,
    pub register_cmds: Vec<RegisterCmd>,
    pub arm_cmd: ArmCmd,
}

/// Bit `i` of `v`, least significant first.
pub open spec fn spec_bit(v: usize, i: nat) -> bool {
    (v as nat / pow2(i)) % 2 == 1
}

/// The jump target written as `n` bits, least significant first.
pub open spec fn spec_goto_bits(goto: usize, n: nat) -> Seq<bool> {
    Seq::new(n, |i: int| spec_bit(goto, i as nat))
}

/// The two read-select bits: `(not value, value)` for a constant
/// read, both clear otherwise.
pub open spec fn spec_read_bits(read: Option<bool>) -> Seq<bool> {
    match read {
        None => seq![false, false],
        Some(b) => seq![!b, b],
    }
}

/// The all-clear 4-bit group.
pub open spec fn spec_noop_bits() -> Seq<bool> {
    seq![false, false, false, false]
}

/// The ghost form of one command, over plain values.
pub ghost struct CmdV {
    pub goto: usize,
    pub read: Option<bool>,
    pub regs: Seq<RegisterCmd>,
    pub arm: Seq<bool>,
}

/// The ghost form of a command value.
pub open spec fn cmd_v(c: TMCmd) -> CmdV {
    CmdV { goto: c.goto, read: c.read, regs: c.register_cmds@, arm: c.arm_cmd.0@ }
}

/// The ordered bit groups of one command: the arm group if the
/// format has an arm, one group per declared register column in
/// reverse declaration order with missing trailing columns as no-op
/// groups first, then the read-select pair, then the jump bits.
pub open spec fn spec_cmd_assemble_v(
    cmd: CmdV,
    state_bits: nat,
    format: HeaderFormat,
) -> Seq<Seq<bool>> {
    let arm_part: Seq<Seq<bool>> = if format.has_arm {
        seq![cmd.arm]
    } else {
        Seq::empty()
    };
    let padn: int = format.register_count - cmd.regs.len();
    let pad_part = Seq::new(
        if padn >= 0 {
            padn as nat
        } else {
            0
        },
        |i: int| spec_noop_bits(),
    );
    let reg_part = cmd.regs.reverse().map_values(|c: RegisterCmd| spec_register_bits(c));
    arm_part + pad_part + reg_part + seq![spec_read_bits(cmd.read)] + seq![
        spec_goto_bits(cmd.goto, state_bits),
    ]
}

/// The ordered bit groups of one command value.
pub open spec fn spec_cmd_assemble(
    cmd: TMCmd,
    state_bits: nat,
    format: HeaderFormat,
) -> Seq<Seq<bool>> {
    spec_cmd_assemble_v(cmd_v(cmd), state_bits, format)
}

impl Default for TMCmd {
    /// The idle command: jump to state zero, no read, no register
    /// operation, no arm operation.
    fn default() -> (r: Self)
        ensures
            r.goto == 0,
            r.read is None,
            r.register_cmds@ == Seq::<RegisterCmd>::empty(),
            r.arm_cmd.0@ =~= seq![false, false, false, false],
    {
        TMCmd { goto: 0, read: None, register_cmds: Vec::new(), arm_cmd: ArmCmd::default() }
    }
}

impl TMCmd {
    /// An identical copy of the command.
    pub fn dup(&self) -> (r: Self)
        ensures
            r.goto == self.goto,
            r.read == self.read,
            r.register_cmds@ == self.register_cmds@,
            r.arm_cmd == self.arm_cmd,
    {
        let mut regs: Vec<RegisterCmd> = Vec::new();
        let mut i: usize = 0;
        while i < self.register_cmds.len()
            invariant
                0 <= i <= self.register_cmds@.len(),
                regs@ =~= self.register_cmds@.take(i as int),
            decreases self.register_cmds@.len() - i,
        {
            regs.push(self.register_cmds[i]);
            i = i + 1;
        }
        proof {
            assert(regs@ =~= self.register_cmds@);
        }
        TMCmd { goto: self.goto, read: self.read, register_cmds: regs, arm_cmd: self.arm_cmd }
    }

    /// The idle command that stays in its own state: a no-op whose
    /// jump target is the state it fills.
    pub fn self_loop(state: usize) -> (r: Self)
        ensures
            r.goto == state,
            r.read is None,
            r.register_cmds@ == Seq::<RegisterCmd>::empty(),
            r.arm_cmd.0@ =~= seq![false, false, false, false],
    {
        TMCmd { goto: state, read: None, register_cmds: Vec::new(), arm_cmd: ArmCmd::default() }
    }

    /// Emits the command's ordered bit groups, as
    /// `spec_cmd_assemble` describes.
    pub fn assemble(&self, state_bit_count: usize, format: HeaderFormat) -> (r: Vec<Vec<bool>>)
        requires
            self.register_cmds@.len() <= format.register_count,
        ensures
            r@.map_values(|g: Vec<bool>| g@) == spec_cmd_assemble(
                *self,
                state_bit_count as nat,
                format,
            ),
    {
        let ghost target = spec_cmd_assemble(*self, state_bit_count as nat, format);
        let mut out: Vec<Vec<bool>> = Vec::new();
        if format.has_arm {
            let a = self.arm_cmd.assemble();
            let g = vec![a[0], a[1], a[2], a[3]];
            proof {
                assert(g@ =~= self.arm_cmd.0@);
            }
            out.push(g);
        }
        let ghost arm_part: Seq<Seq<bool>> = if format.has_arm {
            seq![self.arm_cmd.0@]
        } else {
            Seq::empty()
        };
        proof {
            assert(out@.map_values(|g: Vec<bool>| g@) =~= arm_part);
        }
        let pad = format.register_count - self.register_cmds.len();
        let mut k: usize = 0;
        while k < pad
            invariant
                0 <= k <= pad,
                out@.map_values(|g: Vec<bool>| g@) =~= arm_part + Seq::new(
                    k as nat,
                    |i: int| spec_noop_bits(),
                ),
            decreases pad - k,
        {
            let g = vec![false, false, false, false];
            let ghost prev = out@.map_values(|g2: Vec<bool>| g2@);
            out.push(g);
            proof {
                assert(out@.map_values(|g2: Vec<bool>| g2@) =~= prev.push(spec_noop_bits()));
                assert(arm_part + Seq::new((k + 1) as nat, |i: int| spec_noop_bits()) =~= prev.push(
                    spec_noop_bits(),
                ));
            }
            k = k + 1;
        }
        let ghost pad_part = Seq::new(pad as nat, |i: int| spec_noop_bits());
        let n = self.register_cmds.len();
        let mut k2: usize = 0;
        while k2 < n
            invariant
                0 <= k2 <= n,
                n == self.register_cmds@.len(),
                out@.map_values(|g: Vec<bool>| g@) =~= arm_part + pad_part
                    + self.register_cmds@.reverse().map_values(
                    |c: RegisterCmd| spec_register_bits(c),
                ).take(k2 as int),
            decreases n - k2,
        {
            let cmd = self.register_cmds[n - 1 - k2];
            let a = cmd.assemble();
            let g = vec![a[0], a[1], a[2], a[3]];
            proof {
                assert(g@ =~= spec_register_bits(cmd));
                assert(self.register_cmds@.reverse()[k2 as int] == cmd);
            }
            let ghost prev = out@.map_values(|g2: Vec<bool>| g2@);
            out.push(g);
            proof {
                let rp = self.register_cmds@.reverse().map_values(
                    |c: RegisterCmd| spec_register_bits(c),
                );
                assert(out@.map_values(|g2: Vec<bool>| g2@) =~= prev.push(spec_register_bits(cmd)));
                assert(rp.take(k2 + 1) =~= rp.take(k2 as int).push(spec_register_bits(cmd)));
                assert(arm_part + pad_part + rp.take(k2 + 1) =~= prev.push(
                    spec_register_bits(cmd),
                ));
            }
            k2 = k2 + 1;
        }
        let ghost reg_part = self.register_cmds@.reverse().map_values(
            |c: RegisterCmd| spec_register_bits(c),
        );
        proof {
            assert(reg_part.take(n as int) =~= reg_part);
        }
        let rg = match self.read {
            None => vec![false, false],
            Some(b) => vec![!b, b],
        };
        proof {
            assert(rg@ =~= spec_read_bits(self.read));
        }
        let ghost prev2 = out@.map_values(|g2: Vec<bool>| g2@);
        out.push(rg);
        proof {
            assert(out@.map_values(|g2: Vec<bool>| g2@) =~= prev2.push(spec_read_bits(self.read)));
        }
        let mut goto_bits: Vec<bool> = Vec::new();
        let mut mask = self.goto;
        let mut b: usize = 0;
        proof {
            assert(pow2(0) == 1) by {
                vstd::arithmetic::power2::lemma2_to64();
            }
        }
        while b < state_bit_count
            invariant
                0 <= b <= state_bit_count,
                mask as nat == self.goto as nat / pow2(b as nat),
                goto_bits@ =~= spec_goto_bits(self.goto, state_bit_count as nat).take(b as int),
            decreases state_bit_count - b,
        {
            goto_bits.push(mask % 2 == 1);
            proof {
                let gb = spec_goto_bits(self.goto, state_bit_count as nat);
                assert(gb[b as int] == spec_bit(self.goto, b as nat));
                assert((mask % 2 == 1) == spec_bit(self.goto, b as nat));
                assert(gb.take(b + 1) =~= gb.take(b as int).push(gb[b as int]));
                assert(pow2((b + 1) as nat) == 2 * pow2(b as nat)) by {
                    vstd::arithmetic::power2::lemma_pow2_unfold((b + 1) as nat);
                }
                assert((mask as nat) / 2 == self.goto as nat / pow2((b + 1) as nat)) by {
                    vstd::arithmetic::power2::lemma_pow2_pos(b as nat);
                    vstd::arithmetic::div_mod::lemma_div_denominator(
                        self.goto as int,
                        pow2(b as nat) as int,
                        2,
                    );
                }
            }
            mask = mask / 2;
            b = b + 1;
        }
        proof {
            assert(goto_bits@ =~= spec_goto_bits(self.goto, state_bit_count as nat));
        }
        let ghost prev3 = out@.map_values(|g2: Vec<bool>| g2@);
        out.push(goto_bits);
        proof {
            assert(out@.map_values(|g2: Vec<bool>| g2@) =~= prev3.push(
                spec_goto_bits(self.goto, state_bit_count as nat),
            ));
            assert(out@.map_values(|g2: Vec<bool>| g2@) =~= target);
        }
        out
    }
}

} // verus!
