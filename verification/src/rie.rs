//! The program table and its compilation to a ROM-and-decoder
//! pattern.

use vstd::prelude::*;

verus! {

use crate::header::HeaderErr;
use crate::header::HeaderErrV;
use crate::header::HeaderFormat;
use crate::header::header_err_is;
use crate::header::spec_parse_header;
use crate::helpers::spec_is_space;
use crate::helpers::spec_tokens;
use crate::rie_line::LineV;
use crate::rie_line::RieLine;
use crate::rie_line::RieLineErr;
use crate::rie_line::RieLineErrV;
use crate::rie_line::line_err_is;
use crate::rie_line::spec_parse_line;
use crate::spec_bit_len;
use crate::tm_cmd::CmdV;
use crate::tm_cmd::TMCmd;
use crate::tm_cmd::cmd_v;
use vstd::arithmetic::power2::pow2;

/// An operation that occupies one 4-bit group of a ROM column.
pub trait Register {
    /// The group's bits, highest in the column first.
    spec fn spec_assemble(&self) -> Seq<bool>;

    /// Emits the group's bits.
    fn assemble(&self) -> (r: [bool; 4])
        ensures
            r@ == self.spec_assemble(),
    ;
}

/// The yes/no capability the table builder consults before growing
/// the table past a warning watermark.  The decision never changes
/// the compiled result, only whether compilation proceeds.
pub trait Confirm {
    /// Whether to go on building a table of about `total` commands,
    /// asked for by source line `line`, which sends state `state` to
    /// `goto`.
    fn confirm(&mut self, line: usize, state: u32, goto: usize, total: usize) -> bool;
}

/// Failure kinds of program compilation.
#[derive(Debug, PartialEq, Eq)]
pub enum RieErr {
    /// The source has no whitespace-leading line at all.
    NoHeader,
    /// The header line is malformed.
    BadHeader(HeaderErr),
    /// A command line is malformed; carries its 1-based line number.
    BadLine(usize, RieLineErr),
    /// The size-warning prompt was answered with no.
    Cancelled,
}

/// The ghost form of a compilation failure.
pub ghost enum RieErrV {
    NoHeader,
    BadHeader(HeaderErrV),
    BadLine(int, RieLineErrV),
    Cancelled,
}

/// Whether the exec error `e` is the ghost error `v`.
pub open spec fn rie_err_is(e: RieErr, v: RieErrV) -> bool {
    match e {
        RieErr::NoHeader => v == RieErrV::NoHeader,
        RieErr::BadHeader(he) => v matches RieErrV::BadHeader(hv) && header_err_is(he, hv),
        RieErr::BadLine(n, le) => v matches RieErrV::BadLine(nv, lv) && nv == n && line_err_is(
            le,
            lv,
        ),
        RieErr::Cancelled => v == RieErrV::Cancelled,
    }
}

/// One table slot: the commands for arg false and arg true.
#[derive(Debug)]
pub struct CmdPair {
    pub when_false: TMCmd,
    pub when_true: TMCmd,
}

/// The ghost form of the whole compiled program.
pub ghost struct ProgramV {
    pub format: HeaderFormat,
    pub state_bits: nat,
    pub table: Seq<(CmdV, CmdV)>,
}

/// The ghost form of the table.
pub open spec fn pairs_v(cs: Seq<CmdPair>) -> Seq<(CmdV, CmdV)> {
    cs.map_values(|p: CmdPair| (cmd_v(p.when_false), cmd_v(p.when_true)))
}

/// The compiled program: a dense table of command pairs, the header
/// format, and the derived address width.
#[derive(Debug)]
pub struct RieProgram {
    commands: Vec<CmdPair>,
    format: HeaderFormat,
    state_bits: usize,
}

impl View for RieProgram {
    type V = ProgramV;

    closed spec fn view(&self) -> ProgramV {
        ProgramV {
            format: self.format,
            state_bits: self.state_bits as nat,
            table: pairs_v(self.commands@),
        }
    }
}

/// The idle command that stays in state `i`.
pub open spec fn cmd_v_self_loop(i: usize) -> CmdV {
    CmdV { goto: i, read: None, regs: Seq::empty(), arm: seq![false, false, false, false] }
}

/// The table grown with default self-loop pairs so that index
/// `upto - 1` exists.
pub open spec fn spec_extend_pairs(t: Seq<(CmdV, CmdV)>, upto: int) -> Seq<(CmdV, CmdV)> {
    if upto > t.len() {
        t + Seq::new(
            (upto - t.len()) as nat,
            |k: int| (cmd_v_self_loop((t.len() + k) as usize), cmd_v_self_loop(
                (t.len() + k) as usize,
            )),
        )
    } else {
        t
    }
}

/// The highest index one parsed line touches: its own state or its
/// jump target, whichever is larger.
pub open spec fn spec_extension(lv: LineV) -> int {
    if lv.state as int >= lv.goto as int {
        lv.state as int
    } else {
        lv.goto as int
    }
}

/// One parsed line applied to the table: grow it to cover the
/// line's state and jump target, then set the slot the line
/// addresses.
pub open spec fn spec_apply_line(t: Seq<(CmdV, CmdV)>, lv: LineV) -> Seq<(CmdV, CmdV)> {
    let t2 = spec_extend_pairs(t, spec_extension(lv) + 1);
    let c = CmdV { goto: lv.goto, read: lv.read, regs: lv.regs, arm: lv.arm };
    if lv.arg {
        t2.update(lv.state as int, (t2[lv.state as int].0, c))
    } else {
        t2.update(lv.state as int, (c, t2[lv.state as int].1))
    }
}

/// Whether a source line is a command line: it starts with a tab.
pub open spec fn spec_is_cmd_line(s: Seq<char>) -> bool {
    s.len() > 0 && s[0] == '\t'
}

/// The index of the header: the first whitespace-leading line.
pub open spec fn spec_header_idx(lines: Seq<Seq<char>>) -> Option<int>
    decreases lines.len(),
{
    if lines.len() == 0 {
        None
    } else if lines[0].len() > 0 && spec_is_space(lines[0][0]) {
        Some(0)
    } else {
        match spec_header_idx(lines.drop_first()) {
            Some(i) => Some(i + 1),
            None => None,
        }
    }
}

/// The table the command lines from `i` on build, starting from `t`.
pub open spec fn spec_build_table(
    lines: Seq<Seq<char>>,
    i: int,
    format: HeaderFormat,
    t: Seq<(CmdV, CmdV)>,
) -> Result<Seq<(CmdV, CmdV)>, RieErrV>
    decreases lines.len() - i,
    when 0 <= i <= lines.len()
{
    if i >= lines.len() {
        Ok(t)
    } else if spec_is_cmd_line(lines[i]) {
        match spec_parse_line(spec_tokens(lines[i]), format) {
            Err(e) => Err(RieErrV::BadLine(i + 1, e)),
            Ok(lv) => spec_build_table(lines, i + 1, format, spec_apply_line(t, lv)),
        }
    } else {
        spec_build_table(lines, i + 1, format, t)
    }
}

/// The address width a finished table implies: the bit length of
/// its highest index.
pub open spec fn spec_table_bits(len: nat) -> nat {
    if len == 0 {
        0
    } else {
        spec_bit_len((len - 1) as nat)
    }
}

/// The table size after the final padding: two to the address
/// width, held to the machine's limit.
pub open spec fn spec_pad_target(bits: nat) -> int {
    if pow2(bits) > usize::MAX {
        usize::MAX as int
    } else {
        pow2(bits) as int
    }
}

/// What a source text compiles to: the header's format, the table
/// built by its command lines padded to a power of two, and the
/// derived address width.
pub open spec fn spec_compile(lines: Seq<Seq<char>>) -> Result<ProgramV, RieErrV> {
    match spec_header_idx(lines) {
        None => Err(RieErrV::NoHeader),
        Some(h) => match spec_parse_header(spec_tokens(lines[h])) {
            Err(e) => Err(RieErrV::BadHeader(e)),
            Ok(format) => match spec_build_table(lines, h + 1, format, Seq::empty()) {
                Err(e) => Err(e),
                Ok(t) => {
                    let bits = spec_table_bits(t.len());
                    Ok(
                        ProgramV {
                            format,
                            state_bits: bits,
                            table: spec_extend_pairs(t, spec_pad_target(bits)),
                        },
                    )
                },
            },
        },
    }
}

/// Whether building the table from line `i` on, with the watermark
/// at `warn`, ever asks for confirmation (assuming every earlier
/// question was answered yes).
pub open spec fn spec_scan_alert(
    lines: Seq<Seq<char>>,
    i: int,
    format: HeaderFormat,
    warn: usize,
) -> bool
    decreases lines.len() - i,
    when 0 <= i <= lines.len()
{
    if i >= lines.len() {
        false
    } else if spec_is_cmd_line(lines[i]) {
        match spec_parse_line(spec_tokens(lines[i]), format) {
            Err(e) => false,
            Ok(lv) => spec_extension(lv) > warn || spec_scan_alert(lines, i + 1, format, warn),
        }
    } else {
        spec_scan_alert(lines, i + 1, format, warn)
    }
}

/// Whether compiling this source ever asks for confirmation.
pub open spec fn spec_has_alert(lines: Seq<Seq<char>>) -> bool {
    match spec_header_idx(lines) {
        None => false,
        Some(h) => match spec_parse_header(spec_tokens(lines[h])) {
            Err(e) => false,
            Ok(format) => spec_scan_alert(lines, h + 1, format, 64),
        },
    }
}

/// The ghost views of the source lines.
pub open spec fn lines_v(lines: Seq<String>) -> Seq<Seq<char>> {
    lines.map_values(|s: String| s@)
}

/// Program well-formedness: at least one table entry, an address
/// width a machine word can shift by, and every command's register
/// list within the declared column count with a four-flag arm.
pub open spec fn program_wf(pv: ProgramV) -> bool {
    &&& pv.table.len() >= 1
    &&& pv.state_bits <= 64
    &&& forall|i: int|
        0 <= i < pv.table.len() ==> (#[trigger] pv.table[i]).0.regs.len()
            <= pv.format.register_count && pv.table[i].0.arm.len() == 4
            && pv.table[i].1.regs.len() <= pv.format.register_count && pv.table[i].1.arm.len()
            == 4
    &&& forall|i: int|
        0 <= i < pv.table.len() ==> crate::rie_line::spec_read_sources(
            (#[trigger] pv.table[i]).0.regs,
            pv.table[i].0.read,
            pv.table[i].0.arm[3],
        ) <= 1 && crate::rie_line::spec_read_sources(
            pv.table[i].1.regs,
            pv.table[i].1.read,
            pv.table[i].1.arm[3],
        ) <= 1
}

/// The bit groups of every table entry, in table order.
pub open spec fn spec_assembled(pv: ProgramV) -> Seq<(Seq<Seq<bool>>, Seq<Seq<bool>>)> {
    pv.table.map_values(
        |p: (CmdV, CmdV)|
            (
                crate::tm_cmd::spec_cmd_assemble_v(p.0, pv.state_bits, pv.format),
                crate::tm_cmd::spec_cmd_assemble_v(p.1, pv.state_bits, pv.format),
            ),
    )
}

/// The ghost form of one assembled pair.
pub open spec fn groups_of(p: [Vec<Vec<bool>>; 2]) -> (Seq<Seq<bool>>, Seq<Seq<bool>>) {
    (p@[0]@.map_values(|g: Vec<bool>| g@), p@[1]@.map_values(|g: Vec<bool>| g@))
}

/// Raising the watermark can only silence alerts, never create one.
proof fn lemma_scan_monotone(
    lines: Seq<Seq<char>>,
    i: int,
    format: HeaderFormat,
    w1: usize,
    w2: usize,
)
    requires
        0 <= i <= lines.len(),
        w1 <= w2,
        spec_scan_alert(lines, i, format, w2),
    ensures
        spec_scan_alert(lines, i, format, w1),
    decreases lines.len() - i,
{
    if i < lines.len() {
        if spec_is_cmd_line(lines[i]) {
            match spec_parse_line(spec_tokens(lines[i]), format) {
                Err(_) => {},
                Ok(lv) => {
                    if !(spec_extension(lv) > w2) {
                        lemma_scan_monotone(lines, i + 1, format, w1, w2);
                    }
                },
            }
        } else {
            lemma_scan_monotone(lines, i + 1, format, w1, w2);
        }
    }
}

impl RieProgram {
    /// Compiles the source lines into a program.  The outcome is
    /// `spec_compile` of the lines, except that whenever the growing
    /// table crosses the warning watermark, `confirm` is consulted
    /// and a `no` ends compilation with `Cancelled`; the watermark
    /// never changes a successfully compiled result.  When no line
    /// crosses the watermark, `confirm` is never consulted and the
    /// outcome is exactly `spec_compile`.
    #[verifier::rlimit(100)]
    #[verifier::spinoff_prover]
    #[verifier::loop_isolation(false)]
    pub fn from_lines<C: Confirm>(lines: &Vec<String>, confirm: &mut C) -> (r: Result<
        RieProgram,
        RieErr,
    >)
        ensures
            (match r {
                Ok(p) => spec_compile(lines_v(lines@)) == Ok::<ProgramV, RieErrV>(p@),
                Err(e) => match e {
                    RieErr::Cancelled => spec_has_alert(lines_v(lines@)),
                    _ => spec_compile(lines_v(lines@)) matches Err(v) && rie_err_is(e, v),
                },
            }),
            r matches Ok(p) ==> program_wf(p@),
    {
        let ghost lv_all = lines_v(lines@);
        let mut h: usize = 0;
        let mut found: bool = false;
        proof {
            assert(lv_all.skip(0) =~= lv_all);
        }
        while !found && h < lines.len()
            invariant
                0 <= h <= lines.len(),
                !found ==> (match spec_header_idx(lv_all.skip(h as int)) {
                    None => spec_header_idx(lv_all) is None,
                    Some(k) => spec_header_idx(lv_all) == Some(k + h),
                }),
                found ==> h < lines.len() && spec_header_idx(lv_all) == Some(h as int),
            decreases lines.len() - h + (if found {
                0int
            } else {
                1int
            }),
        {
            let s = lines[h].as_str();
            proof {
                assert(lv_all[h as int] == lines@[h as int]@);
                assert(lv_all.skip(h as int)[0] == lv_all[h as int]);
                assert(lv_all.skip(h as int).drop_first() =~= lv_all.skip(h + 1));
            }
            let mut is_hdr = false;
            if s.unicode_len() > 0 {
                let c = s.get_char(0);
                if crate::helpers::is_space(c) {
                    is_hdr = true;
                }
            }
            if is_hdr {
                found = true;
            } else {
                h = h + 1;
            }
        }
        if !found {
            proof {
                assert(lv_all.skip(h as int).len() == 0);
            }
            return Err(RieErr::NoHeader);
        }
        proof {
            assert(spec_header_idx(lv_all) == Some(h as int));
        }
        let format = match HeaderFormat::parse(lines[h].as_str()) {
            Err(e) => {
                proof {
                    assert(lv_all[h as int] == lines@[h as int]@);
                }
                return Err(RieErr::BadHeader(e));
            },
            Ok(f) => f,
        };
        proof {
            assert(lv_all[h as int] == lines@[h as int]@);
        }
        let mut commands: Vec<CmdPair> = Vec::new();
        let mut warn: usize = 64;
        let mut i: usize = h + 1;
        proof {
            assert(pairs_v(commands@) =~= Seq::<(CmdV, CmdV)>::empty());
        }
        while i < lines.len()
            invariant
                h + 1 <= i <= lines.len(),
                warn >= 64,
                spec_build_table(lv_all, i as int, format, pairs_v(commands@))
                    == spec_build_table(lv_all, h + 1, format, Seq::empty()),
                spec_scan_alert(lv_all, i as int, format, warn) ==> spec_scan_alert(
                    lv_all,
                    h + 1,
                    format,
                    64,
                ),
                forall|k: int|
                    0 <= k < pairs_v(commands@).len() ==> (#[trigger] pairs_v(commands@)[k]).0.regs.len()
                        <= format.register_count && pairs_v(commands@)[k].0.arm.len() == 4
                        && pairs_v(commands@)[k].1.regs.len() <= format.register_count
                        && pairs_v(commands@)[k].1.arm.len() == 4,
                forall|k: int|
                    0 <= k < pairs_v(commands@).len() ==> crate::rie_line::spec_read_sources(
                        (#[trigger] pairs_v(commands@)[k]).0.regs,
                        pairs_v(commands@)[k].0.read,
                        pairs_v(commands@)[k].0.arm[3],
                    ) <= 1 && crate::rie_line::spec_read_sources(
                        pairs_v(commands@)[k].1.regs,
                        pairs_v(commands@)[k].1.read,
                        pairs_v(commands@)[k].1.arm[3],
                    ) <= 1,
            decreases lines.len() - i,
        {
            proof {
                assert(lv_all[i as int] == lines@[i as int]@);
            }
            let s = lines[i].as_str();
            let is_cmd = s.unicode_len() > 0 && s.get_char(0) == '\t';
            if is_cmd {
                let parsed = match RieLine::parse(s, format) {
                    Err(e) => {
                        return Err(RieErr::BadLine(i + 1, e));
                    },
                    Ok(l) => l,
                };
                let ghost lvv = crate::rie_line::line_v(parsed);
                let state = parsed.state;
                let arg = parsed.arg;
                let cmd = parsed.cmd;
                let st_us = state as usize;
                let ext: usize = if st_us >= cmd.goto {
                    st_us
                } else {
                    cmd.goto
                };
                proof {
                    assert(spec_extension(lvv) == ext as int);
                }
                if ext > warn {
                    let mut w: usize = warn;
                    while w <= ext && w <= usize::MAX / 2
                        invariant
                            warn <= w,
                        decreases usize::MAX - w,
                    {
                        w = w * 2;
                    }
                    let total: usize = if w > usize::MAX / 2 {
                        usize::MAX
                    } else {
                        2 * w
                    };
                    proof {
                        assert(spec_scan_alert(lv_all, i as int, format, warn));
                    }
                    if !confirm.confirm(i + 1, state, cmd.goto, total) {
                        return Err(RieErr::Cancelled);
                    }
                    proof {
                        if spec_scan_alert(lv_all, i + 1, format, w) {
                            lemma_scan_monotone(lv_all, i + 1, format, warn, w);
                            assert(spec_scan_alert(lv_all, i as int, format, warn));
                        }
                    }
                    warn = w;
                }
                let ghost t0 = pairs_v(commands@);
                while commands.len() <= ext
                    invariant
                        pairs_v(commands@) =~= spec_extend_pairs(t0, commands@.len() as int),
                        commands@.len() >= t0.len(),
                        commands@.len() == t0.len() || commands@.len() <= ext + 1,
                    decreases ext + 1 - commands@.len(),
                {
                    let idx = commands.len();
                    let ghost prev = commands@;
                    commands.push(
                        CmdPair {
                            when_false: TMCmd::self_loop(idx),
                            when_true: TMCmd::self_loop(idx),
                        },
                    );
                    proof {
                        assert(commands@.drop_last() == prev);
                        assert(pairs_v(commands@) =~= pairs_v(prev).push(
                            (cmd_v_self_loop(idx), cmd_v_self_loop(idx)),
                        ));
                        assert(pairs_v(commands@) =~= spec_extend_pairs(
                            t0,
                            commands@.len() as int,
                        ));
                    }
                }
                proof {
                    assert(pairs_v(commands@) =~= spec_extend_pairs(t0, ext + 1));
                }
                let cf: TMCmd;
                let ct: TMCmd;
                if arg {
                    cf = commands[st_us].when_false.dup();
                    ct = cmd;
                } else {
                    ct = commands[st_us].when_true.dup();
                    cf = cmd;
                }
                let ghost t2 = pairs_v(commands@);
                let ghost newpair_v = (cmd_v(cf), cmd_v(ct));
                commands[st_us] = CmdPair { when_false: cf, when_true: ct };
                proof {
                    assert(pairs_v(commands@) =~= t2.update(st_us as int, newpair_v));
                    assert(pairs_v(commands@) =~= spec_apply_line(t0, lvv));
                    assert(lv_all.skip(0) == lv_all);
                }
            }
            i = i + 1;
        }
        let len = commands.len();
        let mm: usize = if len == 0 {
            0
        } else {
            len - 1
        };
        let bits32 = crate::helpers::largest_bit(mm);
        let state_bits = bits32 as usize;
        proof {
            assert(spec_table_bits(pairs_v(commands@).len()) == state_bits as nat);
        }
        let mut target: usize = 1;
        let mut b: u32 = 0;
        proof {
            assert(pow2(0) == 1) by {
                vstd::arithmetic::power2::lemma2_to64();
            }
        }
        while b < bits32 && target <= usize::MAX / 2
            invariant
                0 <= b <= bits32,
                target == pow2(b as nat),
            decreases bits32 - b,
        {
            proof {
                assert(pow2((b + 1) as nat) == 2 * pow2(b as nat)) by {
                    vstd::arithmetic::power2::lemma_pow2_unfold((b + 1) as nat);
                }
            }
            target = target * 2;
            b = b + 1;
        }
        if b < bits32 {
            proof {
                assert(pow2(b as nat) > usize::MAX / 2);
                assert(pow2(bits32 as nat) >= pow2((b + 1) as nat)) by {
                    if ((b + 1) as nat) < (bits32 as nat) {
                        vstd::arithmetic::power2::lemma_pow2_strictly_increases(
                            (b + 1) as nat,
                            bits32 as nat,
                        );
                    }
                }
                assert(pow2((b + 1) as nat) == 2 * pow2(b as nat)) by {
                    vstd::arithmetic::power2::lemma_pow2_unfold((b + 1) as nat);
                }
                assert(pow2(bits32 as nat) > usize::MAX);
            }
            target = usize::MAX;
        }
        proof {
            if b == bits32 {
                assert(spec_pad_target(state_bits as nat) == target as int);
            }
        }
        let ghost t_final = pairs_v(commands@);
        proof {
            crate::helpers::lemma_bit_len_pow2(mm as nat);
            assert(t_final.len() == len);
            assert(t_final.len() <= target);
        }
        while commands.len() < target
            invariant
                pairs_v(commands@) =~= spec_extend_pairs(t_final, commands@.len() as int),
                commands@.len() >= t_final.len(),
                commands@.len() <= target,
            decreases target - commands@.len(),
        {
            let idx = commands.len();
            let ghost prev = commands@;
            commands.push(
                CmdPair { when_false: TMCmd::self_loop(idx), when_true: TMCmd::self_loop(idx) },
            );
            proof {
                assert(commands@.drop_last() == prev);
                assert(pairs_v(commands@) =~= pairs_v(prev).push(
                    (cmd_v_self_loop(idx), cmd_v_self_loop(idx)),
                ));
                assert(pairs_v(commands@) =~= spec_extend_pairs(t_final, commands@.len() as int));
            }
        }
        proof {
            assert(pairs_v(commands@) =~= spec_extend_pairs(t_final, target as int));
            crate::helpers::lemma_bit_len_usize(mm);
            vstd::arithmetic::power2::lemma_pow2_pos(state_bits as nat);
            assert(target >= 1);
            let pv = pairs_v(commands@);
            assert forall|k: int|
                0 <= k < pv.len() implies (#[trigger] pv[k]).0.regs.len()
                <= format.register_count && pv[k].0.arm.len() == 4 && pv[k].1.regs.len()
                <= format.register_count && pv[k].1.arm.len() == 4
                && crate::rie_line::spec_read_sources(pv[k].0.regs, pv[k].0.read, pv[k].0.arm[3])
                <= 1 && crate::rie_line::spec_read_sources(
                pv[k].1.regs,
                pv[k].1.read,
                pv[k].1.arm[3],
            ) <= 1 by {
                if k >= t_final.len() {
                    assert(pv[k].0 == cmd_v_self_loop((t_final.len() + (k - t_final.len())) as usize));
                    assert(crate::rie_line::spec_count_reads(Seq::<crate::register_cmd::RegisterCmd>::empty()) == 0);
                }
            }
        }
        Ok(RieProgram { commands, format, state_bits })
    }
}

/// Small helpers for the lengths of short rows.
pub proof fn lemma_line_len_small(rs: Seq<crate::rle::Run>)
    requires
        rs.len() <= 5,
    ensures
        rs.len() == 1 ==> crate::rle::line_len(rs) == rs[0].len,
        rs.len() == 2 ==> crate::rle::line_len(rs) == rs[0].len + rs[1].len,
        rs.len() == 3 ==> crate::rle::line_len(rs) == rs[0].len + rs[1].len + rs[2].len,
        rs.len() == 4 ==> crate::rle::line_len(rs) == rs[0].len + rs[1].len + rs[2].len
            + rs[3].len,
        rs.len() == 5 ==> crate::rle::line_len(rs) == rs[0].len + rs[1].len + rs[2].len
            + rs[3].len + rs[4].len,
{
    if rs.len() >= 1 {
        assert(crate::rle::line_len(rs.take(0)) == 0) by {
            assert(rs.take(0) =~= Seq::<crate::rle::Run>::empty());
        }
        crate::rle::lemma_line_len_take_step(rs, 0);
        if rs.len() >= 2 {
            crate::rle::lemma_line_len_take_step(rs, 1);
        }
        if rs.len() >= 3 {
            crate::rle::lemma_line_len_take_step(rs, 2);
        }
        if rs.len() >= 4 {
            crate::rle::lemma_line_len_take_step(rs, 3);
        }
        if rs.len() >= 5 {
            crate::rle::lemma_line_len_take_step(rs, 4);
        }
        assert(rs.take(rs.len() as int) =~= rs);
    }
}

use crate::rle::Rle;
use crate::rle::RleLine;
use crate::rle::Run;
use crate::rle::line_len;
use crate::rle::line_wf;
use crate::rle::pad_runs;
use crate::rle::pattern_wf;
use crate::rle::spec_line_join;
use crate::rle::spec_pattern_join;

/// The tile for a ROM bit that is set.
pub open spec fn rom_true_v() -> Seq<Seq<Run>> {
    seq![
        seq![Run { len: 1, item: 46 }, Run { len: 1, item: 65 }, Run { len: 3, item: 46 }],
        seq![Run { len: 5, item: 65 }],
        seq![
            Run { len: 1, item: 46 },
            Run { len: 1, item: 65 },
            Run { len: 1, item: 46 },
            Run { len: 1, item: 66 },
            Run { len: 1, item: 46 },
        ],
        seq![Run { len: 1, item: 46 }, Run { len: 3, item: 65 }, Run { len: 1, item: 46 }],
    ]
}

/// The tile for a ROM bit that is clear.
pub open spec fn rom_false_v() -> Seq<Seq<Run>> {
    seq![
        seq![Run { len: 1, item: 46 }, Run { len: 1, item: 65 }, Run { len: 3, item: 46 }],
        seq![Run { len: 5, item: 65 }],
        seq![
            Run { len: 1, item: 46 },
            Run { len: 1, item: 65 },
            Run { len: 1, item: 46 },
            Run { len: 1, item: 67 },
            Run { len: 1, item: 46 },
        ],
        seq![Run { len: 1, item: 46 }, Run { len: 3, item: 65 }, Run { len: 1, item: 46 }],
    ]
}

/// The tile for a decoder bit that is set.
pub open spec fn demux_true_v() -> Seq<Seq<Run>> {
    seq![
        seq![
            Run { len: 1, item: 46 },
            Run { len: 1, item: 65 },
            Run { len: 1, item: 46 },
            Run { len: 1, item: 65 },
            Run { len: 1, item: 46 },
        ],
        seq![Run { len: 5, item: 65 }],
        seq![
            Run { len: 2, item: 65 },
            Run { len: 1, item: 46 },
            Run { len: 1, item: 65 },
            Run { len: 1, item: 46 },
        ],
        seq![
            Run { len: 1, item: 46 },
            Run { len: 2, item: 65 },
            Run { len: 1, item: 46 },
            Run { len: 1, item: 65 },
        ],
        seq![Run { len: 2, item: 46 }, Run { len: 1, item: 67 }, Run { len: 2, item: 65 }],
    ]
}

/// The tile for a decoder bit that is clear.
pub open spec fn demux_false_v() -> Seq<Seq<Run>> {
    seq![
        seq![
            Run { len: 1, item: 46 },
            Run { len: 1, item: 65 },
            Run { len: 1, item: 46 },
            Run { len: 1, item: 65 },
            Run { len: 1, item: 46 },
        ],
        seq![Run { len: 5, item: 65 }],
        seq![
            Run { len: 2, item: 65 },
            Run { len: 1, item: 46 },
            Run { len: 1, item: 65 },
            Run { len: 1, item: 46 },
        ],
        seq![
            Run { len: 1, item: 46 },
            Run { len: 2, item: 65 },
            Run { len: 1, item: 46 },
            Run { len: 1, item: 65 },
        ],
        seq![Run { len: 2, item: 46 }, Run { len: 1, item: 66 }, Run { len: 2, item: 65 }],
    ]
}

/// The tile that closes every decoder column at the bottom.
pub open spec fn demux_bottom_v() -> Seq<Seq<Run>> {
    seq![
        seq![Run { len: 3, item: 46 }, Run { len: 1, item: 65 }, Run { len: 1, item: 46 }],
        seq![Run { len: 2, item: 46 }, Run { len: 2, item: 65 }, Run { len: 1, item: 46 }],
        seq![Run { len: 5, item: 65 }],
    ]
}

/// Every row of a tile is five cells wide and holds no empty run.
pub open spec fn tile_ok(t: Seq<Seq<Run>>) -> bool {
    pattern_wf(t) && forall|j: int| 0 <= j < t.len() ==> line_len(#[trigger] t[j]) == 5
}

/// The tiles are well-formed and uniformly five cells wide.
pub proof fn lemma_tiles_ok()
    ensures
        tile_ok(rom_true_v()),
        tile_ok(rom_false_v()),
        tile_ok(demux_true_v()),
        tile_ok(demux_false_v()),
        tile_ok(demux_bottom_v()),
        rom_true_v().len() == 4,
        rom_false_v().len() == 4,
        demux_true_v().len() == 5,
        demux_false_v().len() == 5,
        demux_bottom_v().len() == 3,
{
    assert forall|j: int| 0 <= j < rom_true_v().len() implies line_len(#[trigger] rom_true_v()[j])
        == 5 && line_wf(rom_true_v()[j]) by {
        lemma_line_len_small(rom_true_v()[j]);
    }
    assert forall|j: int| 0 <= j < rom_false_v().len() implies line_len(
        #[trigger] rom_false_v()[j],
    ) == 5 && line_wf(rom_false_v()[j]) by {
        lemma_line_len_small(rom_false_v()[j]);
    }
    assert forall|j: int| 0 <= j < demux_true_v().len() implies line_len(
        #[trigger] demux_true_v()[j],
    ) == 5 && line_wf(demux_true_v()[j]) by {
        lemma_line_len_small(demux_true_v()[j]);
    }
    assert forall|j: int| 0 <= j < demux_false_v().len() implies line_len(
        #[trigger] demux_false_v()[j],
    ) == 5 && line_wf(demux_false_v()[j]) by {
        lemma_line_len_small(demux_false_v()[j]);
    }
    assert forall|j: int| 0 <= j < demux_bottom_v().len() implies line_len(
        #[trigger] demux_bottom_v()[j],
    ) == 5 && line_wf(demux_bottom_v()[j]) by {
        lemma_line_len_small(demux_bottom_v()[j]);
    }
}

/// Builds one tile row of up to five runs.
fn run_line(a: Run, b: Option<Run>, c: Option<Run>, d: Option<Run>, e: Option<Run>) -> (r:
    RleLine)
    requires
        b is None ==> c is None,
        c is None ==> d is None,
        d is None ==> e is None,
    ensures
        b is None ==> r@ == seq![a],
        b is Some && c is None ==> r@ == seq![a, b->0],
        c is Some && d is None ==> r@ == seq![a, b->0, c->0],
        d is Some && e is None ==> r@ == seq![a, b->0, c->0, d->0],
        e is Some ==> r@ == seq![a, b->0, c->0, d->0, e->0],
{
    let mut runs: Vec<Run> = Vec::new();
    runs.push(a);
    if let Some(x) = b {
        runs.push(x);
    }
    if let Some(x) = c {
        runs.push(x);
    }
    if let Some(x) = d {
        runs.push(x);
    }
    if let Some(x) = e {
        runs.push(x);
    }
    proof {
        if b is None {
            assert(runs@ =~= seq![a]);
        } else if c is None {
            assert(runs@ =~= seq![a, b->0]);
        } else if d is None {
            assert(runs@ =~= seq![a, b->0, c->0]);
        } else if e is None {
            assert(runs@ =~= seq![a, b->0, c->0, d->0]);
        } else {
            assert(runs@ =~= seq![a, b->0, c->0, d->0, e->0]);
        }
    }
    RleLine { runs }
}

/// One run, shortly.
fn rn(len: usize, item: u8) -> (r: Run)
    ensures
        r == (Run { len, item }),
{
    Run { len, item }
}

/// The ROM set-bit tile.
fn rom_true_tile() -> (r: Rle)
    ensures
        r@ == rom_true_v(),
{
    let mut p = Rle::default();
    p.push_line(run_line(rn(1, 46), Some(rn(1, 65)), Some(rn(3, 46)), None, None));
    p.push_line(run_line(rn(5, 65), None, None, None, None));
    p.push_line(
        run_line(rn(1, 46), Some(rn(1, 65)), Some(rn(1, 46)), Some(rn(1, 66)), Some(rn(1, 46))),
    );
    p.push_line(run_line(rn(1, 46), Some(rn(3, 65)), Some(rn(1, 46)), None, None));
    proof {
        assert(p@ =~= rom_true_v());
    }
    p
}

/// The ROM clear-bit tile.
fn rom_false_tile() -> (r: Rle)
    ensures
        r@ == rom_false_v(),
{
    let mut p = Rle::default();
    p.push_line(run_line(rn(1, 46), Some(rn(1, 65)), Some(rn(3, 46)), None, None));
    p.push_line(run_line(rn(5, 65), None, None, None, None));
    p.push_line(
        run_line(rn(1, 46), Some(rn(1, 65)), Some(rn(1, 46)), Some(rn(1, 67)), Some(rn(1, 46))),
    );
    p.push_line(run_line(rn(1, 46), Some(rn(3, 65)), Some(rn(1, 46)), None, None));
    proof {
        assert(p@ =~= rom_false_v());
    }
    p
}

/// The decoder set-bit tile.
fn demux_true_tile() -> (r: Rle)
    ensures
        r@ == demux_true_v(),
{
    let mut p = Rle::default();
    p.push_line(
        run_line(rn(1, 46), Some(rn(1, 65)), Some(rn(1, 46)), Some(rn(1, 65)), Some(rn(1, 46))),
    );
    p.push_line(run_line(rn(5, 65), None, None, None, None));
    p.push_line(run_line(rn(2, 65), Some(rn(1, 46)), Some(rn(1, 65)), Some(rn(1, 46)), None));
    p.push_line(run_line(rn(1, 46), Some(rn(2, 65)), Some(rn(1, 46)), Some(rn(1, 65)), None));
    p.push_line(run_line(rn(2, 46), Some(rn(1, 67)), Some(rn(2, 65)), None, None));
    proof {
        assert(p@ =~= demux_true_v());
    }
    p
}

/// The decoder clear-bit tile.
fn demux_false_tile() -> (r: Rle)
    ensures
        r@ == demux_false_v(),
{
    let mut p = Rle::default();
    p.push_line(
        run_line(rn(1, 46), Some(rn(1, 65)), Some(rn(1, 46)), Some(rn(1, 65)), Some(rn(1, 46))),
    );
    p.push_line(run_line(rn(5, 65), None, None, None, None));
    p.push_line(run_line(rn(2, 65), Some(rn(1, 46)), Some(rn(1, 65)), Some(rn(1, 46)), None));
    p.push_line(run_line(rn(1, 46), Some(rn(2, 65)), Some(rn(1, 46)), Some(rn(1, 65)), None));
    p.push_line(run_line(rn(2, 46), Some(rn(1, 66)), Some(rn(2, 65)), None, None));
    proof {
        assert(p@ =~= demux_false_v());
    }
    p
}

/// The decoder bottom tile.
fn demux_bottom_tile() -> (r: Rle)
    ensures
        r@ == demux_bottom_v(),
{
    let mut p = Rle::default();
    p.push_line(run_line(rn(3, 46), Some(rn(1, 65)), Some(rn(1, 46)), None, None));
    p.push_line(run_line(rn(2, 46), Some(rn(2, 65)), Some(rn(1, 46)), None, None));
    p.push_line(run_line(rn(5, 65), None, None, None, None));
    proof {
        assert(p@ =~= demux_bottom_v());
    }
    p
}

/// The ROM tile for one bit.
pub open spec fn spec_rom_tile(b: bool) -> Seq<Seq<Run>> {
    if b {
        rom_true_v()
    } else {
        rom_false_v()
    }
}

/// The decoder tile for one bit.
pub open spec fn spec_demux_tile(b: bool) -> Seq<Seq<Run>> {
    if b {
        demux_true_v()
    } else {
        demux_false_v()
    }
}

/// The bit tiles of one ROM column, stacked top to bottom in bit
/// order.
pub open spec fn spec_bit_column(bs: Seq<bool>) -> Seq<Seq<Run>>
    decreases bs.len(),
{
    if bs.len() == 0 {
        Seq::empty()
    } else {
        spec_bit_column(bs.drop_last()) + spec_rom_tile(bs.last())
    }
}

/// All the bits of a group list, in order.
pub open spec fn groups_bits(gs: Seq<Seq<bool>>) -> Seq<bool>
    decreases gs.len(),
{
    if gs.len() == 0 {
        Seq::empty()
    } else {
        groups_bits(gs.drop_last()) + gs.last()
    }
}

/// Bits distribute over concatenation of group lists.
pub proof fn lemma_groups_bits_concat(a: Seq<Seq<bool>>, b: Seq<Seq<bool>>)
    ensures
        groups_bits(a + b) == groups_bits(a) + groups_bits(b),
    decreases b.len(),
{
    if b.len() == 0 {
        assert(a + b =~= a);
        assert(groups_bits(a) + groups_bits(b) =~= groups_bits(a));
    } else {
        assert((a + b).drop_last() =~= a + b.drop_last());
        lemma_groups_bits_concat(a, b.drop_last());
        assert(groups_bits(a + b) =~= groups_bits(a) + (groups_bits(b.drop_last()) + b.last()));
        assert(groups_bits(b.drop_last()) + b.last() == groups_bits(b));
    }
}

/// A list of equally long groups has that many times as many bits.
pub proof fn lemma_groups_bits_uniform(gs: Seq<Seq<bool>>, w: nat)
    requires
        forall|i: int| 0 <= i < gs.len() ==> (#[trigger] gs[i]).len() == w,
    ensures
        groups_bits(gs).len() == w * gs.len(),
    decreases gs.len(),
{
    if gs.len() == 0 {
        assert(w * 0 == 0) by (nonlinear_arith);
    } else {
        lemma_groups_bits_uniform(gs.drop_last(), w);
        assert(w * (gs.len() - 1) + w == w * gs.len()) by (nonlinear_arith);
    }
}

/// An assembled command has exactly one column's worth of bits.
pub proof fn lemma_assemble_bits_len(c: CmdV, sb: nat, fmt: HeaderFormat)
    requires
        c.regs.len() <= fmt.register_count,
        c.arm.len() == 4,
    ensures
        groups_bits(crate::tm_cmd::spec_cmd_assemble_v(c, sb, fmt)).len()
            == crate::header::spec_column_height(fmt, sb),
{
    let arm_part: Seq<Seq<bool>> = if fmt.has_arm {
        seq![c.arm]
    } else {
        Seq::empty()
    };
    let padn = (fmt.register_count - c.regs.len()) as nat;
    let pad_part = Seq::new(padn, |i: int| crate::tm_cmd::spec_noop_bits());
    let reg_part = c.regs.reverse().map_values(
        |rc: crate::register_cmd::RegisterCmd| crate::register_cmd::spec_register_bits(rc),
    );
    let read_part = seq![crate::tm_cmd::spec_read_bits(c.read)];
    let goto_part = seq![crate::tm_cmd::spec_goto_bits(c.goto, sb)];
    lemma_groups_bits_concat(arm_part + pad_part + reg_part + read_part, goto_part);
    lemma_groups_bits_concat(arm_part + pad_part + reg_part, read_part);
    lemma_groups_bits_concat(arm_part + pad_part, reg_part);
    lemma_groups_bits_concat(arm_part, pad_part);
    assert(groups_bits(arm_part).len() == if fmt.has_arm {
        4nat
    } else {
        0nat
    }) by {
        if fmt.has_arm {
            assert(arm_part.drop_last() =~= Seq::<Seq<bool>>::empty());
            assert(groups_bits(arm_part.drop_last()) =~= Seq::<bool>::empty());
            assert(arm_part.last() == c.arm);
            assert(groups_bits(arm_part) =~= c.arm);
        }
    }
    assert(groups_bits(pad_part).len() == 4 * padn) by {
        lemma_groups_bits_uniform(pad_part, 4);
    }
    assert(groups_bits(reg_part).len() == 4 * c.regs.len()) by {
        assert forall|i: int| 0 <= i < reg_part.len() implies (#[trigger] reg_part[i]).len()
            == 4 by {
            assert(reg_part[i] == crate::register_cmd::spec_register_bits(c.regs.reverse()[i]));
        }
        lemma_groups_bits_uniform(reg_part, 4);
    }
    assert(groups_bits(read_part).len() == 2) by {
        assert(read_part.drop_last() =~= Seq::<Seq<bool>>::empty());
        assert(groups_bits(read_part.drop_last()) =~= Seq::<bool>::empty());
        assert(read_part.last() == crate::tm_cmd::spec_read_bits(c.read));
        assert(groups_bits(read_part) =~= crate::tm_cmd::spec_read_bits(c.read));
    }
    assert(groups_bits(goto_part).len() == sb) by {
        assert(goto_part.drop_last() =~= Seq::<Seq<bool>>::empty());
        assert(groups_bits(goto_part.drop_last()) =~= Seq::<bool>::empty());
        assert(goto_part.last() == crate::tm_cmd::spec_goto_bits(c.goto, sb));
        assert(groups_bits(goto_part) =~= crate::tm_cmd::spec_goto_bits(c.goto, sb));
    }
    assert(4 * padn + 4 * c.regs.len() == 4 * fmt.register_count) by (nonlinear_arith)
        requires
            padn == fmt.register_count - c.regs.len(),
    ;
}

/// A ROM column is well-formed, four rows per bit, every row five
/// cells wide.
pub proof fn lemma_bit_column_props(bs: Seq<bool>)
    ensures
        spec_bit_column(bs).len() == 4 * bs.len(),
        pattern_wf(spec_bit_column(bs)),
        forall|j: int|
            0 <= j < spec_bit_column(bs).len() ==> line_len(#[trigger] spec_bit_column(bs)[j])
                == 5,
    decreases bs.len(),
{
    lemma_tiles_ok();
    if bs.len() > 0 {
        lemma_bit_column_props(bs.drop_last());
        let pre = spec_bit_column(bs.drop_last());
        let tile = spec_rom_tile(bs.last());
        assert forall|j: int| 0 <= j < spec_bit_column(bs).len() implies line_len(
            #[trigger] spec_bit_column(bs)[j],
        ) == 5 && line_wf(spec_bit_column(bs)[j]) by {
            if j < pre.len() {
                assert(spec_bit_column(bs)[j] == pre[j]);
            } else {
                assert(spec_bit_column(bs)[j] == tile[j - pre.len()]);
            }
        }
    }
}

/// The first `j` bit tiles of a decoder column for `addr`, highest
/// address bit first.
pub open spec fn spec_demux_top(addr: usize, nbits: nat, j: int) -> Seq<Seq<Run>>
    decreases j,
    when 0 <= j <= nbits
{
    if j <= 0 {
        Seq::empty()
    } else {
        spec_demux_top(addr, nbits, j - 1) + spec_demux_tile(
            crate::tm_cmd::spec_bit(addr, (nbits - j) as nat),
        )
    }
}

/// One decoder column: the address bits from high to low, then the
/// bottom tile.
pub open spec fn spec_demux_column(addr: usize, nbits: nat) -> Seq<Seq<Run>> {
    spec_demux_top(addr, nbits, nbits as int) + demux_bottom_v()
}

/// A decoder-column prefix is well-formed, five rows per bit, every
/// row five cells wide.
pub proof fn lemma_demux_top_props(addr: usize, nbits: nat, j: int)
    requires
        0 <= j <= nbits,
    ensures
        spec_demux_top(addr, nbits, j).len() == 5 * j,
        pattern_wf(spec_demux_top(addr, nbits, j)),
        forall|k: int|
            0 <= k < spec_demux_top(addr, nbits, j).len() ==> line_len(
                #[trigger] spec_demux_top(addr, nbits, j)[k],
            ) == 5,
    decreases j,
{
    lemma_tiles_ok();
    if j > 0 {
        lemma_demux_top_props(addr, nbits, j - 1);
        let pre = spec_demux_top(addr, nbits, j - 1);
        let tile = spec_demux_tile(crate::tm_cmd::spec_bit(addr, (nbits - j) as nat));
        assert forall|k: int| 0 <= k < spec_demux_top(addr, nbits, j).len() implies line_len(
            #[trigger] spec_demux_top(addr, nbits, j)[k],
        ) == 5 && line_wf(spec_demux_top(addr, nbits, j)[k]) by {
            if k < pre.len() {
                assert(spec_demux_top(addr, nbits, j)[k] == pre[k]);
            } else {
                assert(spec_demux_top(addr, nbits, j)[k] == tile[k - pre.len()]);
            }
        }
    }
}

/// A whole decoder column: well-formed, five rows per address bit
/// plus three, every row five cells wide.
pub proof fn lemma_demux_column_props(addr: usize, nbits: nat)
    ensures
        spec_demux_column(addr, nbits).len() == 5 * nbits + 3,
        pattern_wf(spec_demux_column(addr, nbits)),
        forall|k: int|
            0 <= k < spec_demux_column(addr, nbits).len() ==> line_len(
                #[trigger] spec_demux_column(addr, nbits)[k],
            ) == 5,
{
    lemma_tiles_ok();
    lemma_demux_top_props(addr, nbits, nbits as int);
    let pre = spec_demux_top(addr, nbits, nbits as int);
    assert forall|k: int| 0 <= k < spec_demux_column(addr, nbits).len() implies line_len(
        #[trigger] spec_demux_column(addr, nbits)[k],
    ) == 5 && line_wf(spec_demux_column(addr, nbits)[k]) by {
        if k < pre.len() {
            assert(spec_demux_column(addr, nbits)[k] == pre[k]);
        } else {
            assert(spec_demux_column(addr, nbits)[k] == demux_bottom_v()[k - pre.len()]);
        }
    }
}

/// The spacer staircase the ROM columns join onto: four rows per
/// column bit, each group of four indented one more cell.
pub open spec fn spec_staircase(bits: nat) -> Seq<Seq<Run>> {
    Seq::new(4 * bits, |r: int| pad_runs((r / 4) as usize))
}

/// The ghost form of assembled data.
pub open spec fn data_v(s: Seq<[Vec<Vec<bool>>; 2]>) -> Seq<(Seq<Seq<bool>>, Seq<Seq<bool>>)> {
    s.map_values(|p: [Vec<Vec<bool>>; 2]| groups_of(p))
}

/// The group list of the `k`-th ROM column.
pub open spec fn rom_col_groups(data: Seq<(Seq<Seq<bool>>, Seq<Seq<bool>>)>, k: int) -> Seq<
    Seq<bool>,
> {
    let pi = data.len() - 1 - k / 2;
    if k % 2 == 0 {
        data[pi].1
    } else {
        data[pi].0
    }
}

/// The bits of the `k`-th ROM column: the command pairs are taken
/// in reverse table order, the arg-true column before the arg-false
/// one.
pub open spec fn rom_col_bits(data: Seq<(Seq<Seq<bool>>, Seq<Seq<bool>>)>, k: int) -> Seq<bool> {
    groups_bits(rom_col_groups(data, k))
}

/// The ROM after the first `k` columns are joined onto `acc`.
pub open spec fn spec_rom_fold(
    data: Seq<(Seq<Seq<bool>>, Seq<Seq<bool>>)>,
    k: int,
    acc: Seq<Seq<Run>>,
) -> Seq<Seq<Run>>
    decreases 2 * data.len() - k,
    when 0 <= k <= 2 * data.len()
{
    if k >= 2 * data.len() {
        acc
    } else {
        spec_rom_fold(data, k + 1, spec_pattern_join(acc, spec_bit_column(rom_col_bits(data, k))))
    }
}

/// The whole ROM: the staircase with every command column joined on.
pub open spec fn spec_build_rom(bits: nat, data: Seq<(Seq<Seq<bool>>, Seq<Seq<bool>>)>) -> Seq<
    Seq<Run>,
> {
    spec_rom_fold(data, 0, spec_staircase(bits))
}

/// The decoder after the first `k` address columns are joined onto
/// `acc`; addresses run from `total - 1` down to zero.
pub open spec fn spec_demux_fold(total: int, sb: nat, k: int, acc: Seq<Seq<Run>>) -> Seq<Seq<Run>>
    decreases total - k,
    when 0 <= k <= total
{
    if k >= total {
        acc
    } else {
        spec_demux_fold(
            total,
            sb,
            k + 1,
            spec_pattern_join(acc, spec_demux_column((total - 1 - k) as usize, sb + 1)),
        )
    }
}

/// The whole decoder: a spacer block aligned under the ROM, with one
/// column per address from the highest down to zero.
pub open spec fn spec_build_demux(ncmds: int, sb: nat, rom_column_bits: nat) -> Seq<Seq<Run>> {
    let height = (5 * (sb + 1) + 3) as nat;
    let left = (rom_column_bits - 2) as usize;
    spec_demux_fold(2 * ncmds, sb, 0, Seq::new(height, |r: int| pad_runs(left)))
}

/// The whole machine: the ROM stacked on the decoder.
pub open spec fn spec_machine(pv: ProgramV) -> Seq<Seq<Run>> {
    let ch = crate::header::spec_column_height(pv.format, pv.state_bits);
    spec_build_rom(ch, spec_assembled(pv)) + spec_build_demux(
        pv.table.len() as int,
        pv.state_bits,
        ch,
    )
}

/// The bits of `v`, least significant first.
fn value_bits(v: usize, n: usize) -> (r: Vec<bool>)
    ensures
        r@ == Seq::new(n as nat, |i: int| crate::tm_cmd::spec_bit(v, i as nat)),
{
    let mut bits: Vec<bool> = Vec::new();
    let mut mask = v;
    let mut b: usize = 0;
    proof {
        assert(pow2(0) == 1) by {
            vstd::arithmetic::power2::lemma2_to64();
        }
    }
    while b < n
        invariant
            0 <= b <= n,
            mask as nat == v as nat / pow2(b as nat),
            bits@ =~= Seq::new(n as nat, |i: int| crate::tm_cmd::spec_bit(v, i as nat)).take(
                b as int,
            ),
        decreases n - b,
    {
        bits.push(mask % 2 == 1);
        proof {
            let full = Seq::new(n as nat, |i: int| crate::tm_cmd::spec_bit(v, i as nat));
            assert((mask % 2 == 1) == crate::tm_cmd::spec_bit(v, b as nat));
            assert(full.take(b + 1) =~= full.take(b as int).push(full[b as int]));
            assert(pow2((b + 1) as nat) == 2 * pow2(b as nat)) by {
                vstd::arithmetic::power2::lemma_pow2_unfold((b + 1) as nat);
            }
            assert((mask as nat) / 2 == v as nat / pow2((b + 1) as nat)) by {
                vstd::arithmetic::power2::lemma_pow2_pos(b as nat);
                vstd::arithmetic::div_mod::lemma_div_denominator(
                    v as int,
                    pow2(b as nat) as int,
                    2,
                );
            }
        }
        mask = mask / 2;
        b = b + 1;
    }
    proof {
        assert(bits@ =~= Seq::new(n as nat, |i: int| crate::tm_cmd::spec_bit(v, i as nat)));
    }
    bits
}

impl RieProgram {
    /// The header format the program was compiled under.
    pub fn format(&self) -> (r: HeaderFormat)
        ensures
            r == self@.format,
    {
        self.format
    }

    /// The derived address width.
    pub fn state_bits(&self) -> (r: usize)
        ensures
            r == self@.state_bits,
    {
        self.state_bits
    }

    /// The number of compiled commands: two per table entry.
    pub fn len(&self) -> (r: usize)
        requires
            2 * self@.table.len() <= usize::MAX,
        ensures
            r == 2 * self@.table.len(),
    {
        self.commands.len() * 2
    }

    /// The bit groups of every table entry, in table order: for each
    /// state, the arg-false command's groups and then the arg-true
    /// command's groups.
    pub fn assemble(&self) -> (r: Vec<[Vec<Vec<bool>>; 2]>)
        requires
            program_wf(self@),
        ensures
            r@.len() == self@.table.len(),
            data_v(r@) == spec_assembled(self@),
    {
        let mut out: Vec<[Vec<Vec<bool>>; 2]> = Vec::new();
        let n = self.commands.len();
        let mut i: usize = 0;
        while i < n
            invariant
                0 <= i <= n,
                n == self@.table.len(),
                program_wf(self@),
                out@.len() == i,
                forall|j: int|
                    0 <= j < i ==> groups_of(#[trigger] out@[j]) == spec_assembled(self@)[j],
            decreases n - i,
        {
            proof {
                assert(self@.table[i as int] == pairs_v(self.commands@)[i as int]);
                assert(self@.table[i as int].0 == cmd_v(self.commands@[i as int].when_false));
                assert(self@.table[i as int].1 == cmd_v(self.commands@[i as int].when_true));
            }
            let gf = self.commands[i].when_false.assemble(self.state_bits, self.format);
            let gt = self.commands[i].when_true.assemble(self.state_bits, self.format);
            let ghost gfv = gf@.map_values(|g: Vec<bool>| g@);
            let ghost gtv = gt@.map_values(|g: Vec<bool>| g@);
            let pair = [gf, gt];
            proof {
                assert(pair@.len() == 2);
                assert(groups_of(pair).0 =~= gfv);
                assert(groups_of(pair).1 =~= gtv);
                assert(groups_of(pair) == spec_assembled(self@)[i as int]);
            }
            out.push(pair);
            i = i + 1;
        }
        proof {
            assert(data_v(out@) =~= spec_assembled(self@));
        }
        out
    }

    /// Builds the ROM block: the spacer staircase, then one column
    /// per command in reverse table order (arg true before arg
    /// false), each column stacking one bit tile per group bit.
    #[verifier::rlimit(100)]
    #[verifier::spinoff_prover]
    #[verifier::loop_isolation(false)]
    fn build_rom(rom_column_bits: usize, rom_data: &Vec<[Vec<Vec<bool>>; 2]>) -> (r: Rle)
        requires
            4 * rom_column_bits <= usize::MAX,
            rom_column_bits + 10 * rom_data@.len() <= usize::MAX,
            forall|i: int|
                0 <= i < rom_data@.len() ==> groups_bits(
                    groups_of(#[trigger] rom_data@[i]).0,
                ).len() == rom_column_bits && groups_bits(groups_of(rom_data@[i]).1).len()
                    == rom_column_bits,
        ensures
            r@ == spec_build_rom(rom_column_bits as nat, data_v(rom_data@)),
            pattern_wf(r@),
            r@.len() == 4 * rom_column_bits,
            forall|j: int|
                0 <= j < r@.len() ==> line_len(#[trigger] r@[j]) == j / 4 + 5 * (2
                    * rom_data@.len()),
    {
        let ghost dv = data_v(rom_data@);
        proof {
            assert forall|k: int| 0 <= k < 2 * dv.len() implies rom_col_bits(dv, k).len()
                == rom_column_bits by {
                let pi = dv.len() - 1 - k / 2;
                assert(dv[pi] == groups_of(rom_data@[pi]));
            }
        }
        let tt = rom_true_tile();
        let tf = rom_false_tile();
        let mut out = Rle::default();
        let total_rows = 4 * rom_column_bits;
        let mut ri: usize = 0;
        while ri < total_rows
            invariant
                0 <= ri <= total_rows,
                out@.len() == ri,
                forall|j: int| 0 <= j < ri ==> (#[trigger] out@[j]) == pad_runs((j / 4) as usize),
            decreases total_rows - ri,
        {
            out.push_line(RleLine::pad(ri / 4));
            ri = ri + 1;
        }
        proof {
            assert(out@ =~= spec_staircase(rom_column_bits as nat));
            assert forall|j: int| 0 <= j < out@.len() implies line_len(#[trigger] out@[j]) == j / 4
                && line_wf(out@[j]) by {
                lemma_line_len_small(out@[j]);
            }
        }
        let n = rom_data.len();
        let mut k: usize = 0;
        while k < 2 * n
            invariant
                0 <= k <= 2 * n,
                spec_rom_fold(dv, k as int, out@) == spec_rom_fold(
                    dv,
                    0,
                    spec_staircase(rom_column_bits as nat),
                ),
                out@.len() == 4 * rom_column_bits,
                pattern_wf(out@),
                forall|j: int|
                    0 <= j < out@.len() ==> line_len(#[trigger] out@[j]) == j / 4 + 5 * k,
            decreases 2 * n - k,
        {
            let pi = n - 1 - k / 2;
            let groups: &Vec<Vec<bool>> = if k % 2 == 0 {
                &rom_data[pi][1]
            } else {
                &rom_data[pi][0]
            };
            let ghost gv = groups@.map_values(|g: Vec<bool>| g@);
            proof {
                assert(dv[pi as int] == groups_of(rom_data@[pi as int]));
                assert(gv == rom_col_groups(dv, k as int));
            }
            let mut column = Rle::default();
            let mut gi: usize = 0;
            proof {
                assert(gv.take(0) =~= Seq::<Seq<bool>>::empty());
                assert(groups_bits(gv.take(0)) =~= Seq::<bool>::empty());
                assert(column@ =~= spec_bit_column(groups_bits(gv.take(0))));
            }
            while gi < groups.len()
                invariant
                    0 <= gi <= gv.len(),
                    column@ == spec_bit_column(groups_bits(gv.take(gi as int))),
                decreases gv.len() - gi,
            {
                let g: &Vec<bool> = &groups[gi];
                proof {
                    assert(gv[gi as int] == g@);
                }
                let mut bi: usize = 0;
                proof {
                    assert(g@.take(0) =~= Seq::<bool>::empty());
                    assert(groups_bits(gv.take(gi as int)) + g@.take(0) =~= groups_bits(
                        gv.take(gi as int),
                    ));
                }
                while bi < g.len()
                    invariant
                        0 <= bi <= g@.len(),
                        column@ == spec_bit_column(
                            groups_bits(gv.take(gi as int)) + g@.take(bi as int),
                        ),
                    decreases g@.len() - bi,
                {
                    let ghost bs = groups_bits(gv.take(gi as int)) + g@.take(bi as int);
                    if g[bi] {
                        column.stack(&tt);
                    } else {
                        column.stack(&tf);
                    }
                    proof {
                        let bs2 = groups_bits(gv.take(gi as int)) + g@.take(bi + 1);
                        assert(bs2 =~= bs.push(g@[bi as int]));
                        assert(bs2.drop_last() =~= bs);
                        assert(column@ == spec_bit_column(bs2));
                    }
                    bi = bi + 1;
                }
                proof {
                    assert(g@.take(g@.len() as int) =~= g@);
                    assert(gv.take(gi + 1).drop_last() =~= gv.take(gi as int));
                    assert(gv.take(gi + 1).last() == gv[gi as int]);
                    assert(groups_bits(gv.take(gi + 1)) =~= groups_bits(gv.take(gi as int))
                        + gv[gi as int]);
                }
                gi = gi + 1;
            }
            proof {
                assert(gv.take(gv.len() as int) =~= gv);
                assert(column@ == spec_bit_column(rom_col_bits(dv, k as int)));
                lemma_bit_column_props(rom_col_bits(dv, k as int));
                assert(rom_col_bits(dv, k as int).len() == rom_column_bits);
                assert forall|j: int|
                    0 <= j < out@.len() implies line_len(#[trigger] out@[j]) + line_len(
                    column@[j],
                ) <= usize::MAX by {
                    assert(5 * k + 5 <= 5 * (2 * n)) by (nonlinear_arith)
                        requires
                            k < 2 * n,
                    ;
                }
            }
            let ghost prev = out@;
            out.hjoin(&column);
            proof {
                assert forall|j: int| 0 <= j < out@.len() implies line_len(#[trigger] out@[j])
                    == j / 4 + 5 * (k + 1) && line_wf(out@[j]) by {
                    assert(out@[j] == spec_line_join(prev[j], column@[j]));
                    crate::rle::lemma_line_join_cells(prev[j], column@[j]);
                    crate::rle::lemma_line_join_wf(prev[j], column@[j]);
                }
            }
            k = k + 1;
        }
        out
    }

    /// Builds the address decoder block: a spacer aligned two cells
    /// left of the ROM's width, then one column per address from the
    /// highest down to zero, each column stacking one bit tile per
    /// address bit from high to low and a bottom tile.
    #[verifier::rlimit(100)]
    #[verifier::spinoff_prover]
    #[verifier::loop_isolation(false)]
    fn build_demux(len: usize, state_bits: usize, rom_column_bits: usize) -> (r: Rle)
        requires
            rom_column_bits >= 2,
            state_bits <= 64,
            2 * len <= usize::MAX,
            rom_column_bits + 10 * len <= usize::MAX,
        ensures
            r@ == spec_build_demux(len as int, state_bits as nat, rom_column_bits as nat),
            pattern_wf(r@),
            r@.len() == 5 * (state_bits + 1) + 3,
            forall|j: int|
                0 <= j < r@.len() ==> line_len(#[trigger] r@[j]) == rom_column_bits - 2 + 5 * (2
                    * len),
    {
        let dt = demux_true_tile();
        let df = demux_false_tile();
        let db = demux_bottom_tile();
        let sbp1 = state_bits + 1;
        let height = sbp1 * 5 + 3;
        let left = rom_column_bits - 2;
        let mut out = Rle::new_indent(left, height);
        proof {
            assert(out@ =~= Seq::new(
                (5 * (state_bits as nat + 1) + 3) as nat,
                |r2: int| pad_runs(left),
            ));
            assert forall|j: int| 0 <= j < out@.len() implies line_len(#[trigger] out@[j]) == left
                && line_wf(out@[j]) by {
                lemma_line_len_small(out@[j]);
            }
        }
        let total = 2 * len;
        let mut k: usize = 0;
        while k < total
            invariant
                0 <= k <= total,
                spec_demux_fold(total as int, state_bits as nat, k as int, out@)
                    == spec_build_demux(len as int, state_bits as nat, rom_column_bits as nat),
                out@.len() == 5 * sbp1 + 3,
                pattern_wf(out@),
                forall|j: int|
                    0 <= j < out@.len() ==> line_len(#[trigger] out@[j]) == left + 5 * k,
            decreases total - k,
        {
            let addr = total - 1 - k;
            let bits = value_bits(addr, sbp1);
            let mut column = Rle::default();
            let mut j: usize = 0;
            proof {
                assert(column@ =~= spec_demux_top(addr, sbp1 as nat, 0));
            }
            while j < sbp1
                invariant
                    0 <= j <= sbp1,
                    column@ == spec_demux_top(addr, sbp1 as nat, j as int),
                decreases sbp1 - j,
            {
                let b = bits[sbp1 - 1 - j];
                proof {
                    assert(bits@[sbp1 - 1 - j] == crate::tm_cmd::spec_bit(
                        addr,
                        (sbp1 - 1 - j) as nat,
                    ));
                    assert(((sbp1 as nat) - (j + 1)) as nat == (sbp1 - 1 - j) as nat);
                }
                if b {
                    column.stack(&dt);
                } else {
                    column.stack(&df);
                }
                j = j + 1;
            }
            column.stack(&db);
            proof {
                assert(column@ == spec_demux_column(addr, sbp1 as nat));
                lemma_demux_column_props(addr, sbp1 as nat);
                assert forall|j2: int|
                    0 <= j2 < out@.len() implies line_len(#[trigger] out@[j2]) + line_len(
                    column@[j2],
                ) <= usize::MAX by {
                    assert(5 * k + 5 <= 5 * (2 * len)) by (nonlinear_arith)
                        requires
                            k < 2 * len,
                    ;
                }
            }
            let ghost prev = out@;
            out.hjoin(&column);
            proof {
                assert forall|j2: int| 0 <= j2 < out@.len() implies line_len(#[trigger] out@[j2])
                    == left + 5 * (k + 1) && line_wf(out@[j2]) by {
                    assert(out@[j2] == spec_line_join(prev[j2], column@[j2]));
                    crate::rle::lemma_line_join_cells(prev[j2], column@[j2]);
                    crate::rle::lemma_line_join_wf(prev[j2], column@[j2]);
                }
            }
            k = k + 1;
        }
        out
    }

    /// Compiles the whole program to its pattern text: the ROM block
    /// stacked on the decoder block, serialized in run-length form.
    #[verifier::rlimit(100)]
    #[verifier::spinoff_prover]
    pub fn rle(&self) -> (r: String)
        requires
            program_wf(self@),
            crate::header::spec_column_height(self@.format, self@.state_bits) + 10
                * self@.table.len() <= usize::MAX,
            2 * self@.table.len() <= usize::MAX,
            4 * crate::header::spec_column_height(self@.format, self@.state_bits) + 5 * (
            self@.state_bits + 1) + 3 < usize::MAX,
        ensures
            r@ == crate::rle::spec_rle_render(spec_machine(self@)),
    {
        let rom_data = self.assemble();
        let len = self.commands.len();
        let ch = self.format.column_height(self.state_bits);
        proof {
            assert forall|i: int| 0 <= i < rom_data@.len() implies groups_bits(
                groups_of(#[trigger] rom_data@[i]).0,
            ).len() == ch && groups_bits(groups_of(rom_data@[i]).1).len() == ch by {
                assert(groups_of(rom_data@[i]) == spec_assembled(self@)[i]);
                lemma_assemble_bits_len(self@.table[i].0, self@.state_bits, self@.format);
                lemma_assemble_bits_len(self@.table[i].1, self@.state_bits, self@.format);
            }
        }
        let rom = Self::build_rom(ch, &rom_data);
        let demux = Self::build_demux(len, self.state_bits, ch);
        let mut machine = Rle::default();
        machine.stack(&rom);
        machine.stack(&demux);
        proof {
            assert(machine@ =~= rom@ + demux@);
            assert(machine@ == spec_machine(self@));
            assert(pattern_wf(machine@)) by {
                assert forall|j: int| 0 <= j < machine@.len() implies line_wf(
                    #[trigger] machine@[j],
                ) by {
                    if j < rom@.len() {
                        assert(machine@[j] == rom@[j]);
                    } else {
                        assert(machine@[j] == demux@[j - rom@.len()]);
                    }
                }
            }
            assert forall|j: int| 0 <= j < machine@.len() implies line_len(#[trigger] machine@[j])
                <= usize::MAX by {
                if j < rom@.len() {
                    assert(machine@[j] == rom@[j]);
                } else {
                    assert(machine@[j] == demux@[j - rom@.len()]);
                }
            }
        }
        machine.to_string()
    }
}

/// The printed command lines of every state from `i` on: for each
/// state, the arg-false line, then the arg-true line.
pub open spec fn spec_state_lines(pv: ProgramV, i: int, sd: nat) -> Seq<char>
    decreases pv.table.len() - i,
    when 0 <= i <= pv.table.len()
{
    if i >= pv.table.len() {
        Seq::empty()
    } else {
        crate::rie_line::spec_line_text(sd, i as u32, false, pv.table[i].0) + "\n"@
            + crate::rie_line::spec_line_text(sd, i as u32, true, pv.table[i].1) + "\n"@
            + spec_state_lines(pv, i + 1, sd)
    }
}

/// The whole program printed for a human reader: a summary line,
/// then two command lines per state.
pub open spec fn spec_program_text(pv: ProgramV) -> Seq<char> {
    let sd = crate::rle::spec_digit_count(pow2(pv.state_bits));
    crate::helpers::spec_digits_chars(pv.state_bits) + "-bit State ("@
        + crate::helpers::spec_digits_chars((pv.state_bits + 1) as nat) + "-bit Demux), "@
        + crate::helpers::spec_digits_chars(pv.format.register_count as nat) + " Registers"@ + (
    if pv.format.has_arm {
        " + Arm"@
    } else {
        Seq::<char>::empty()
    }) + ":"@ + "\n"@ + spec_state_lines(pv, 0, sd)
}

impl RieProgram {
    /// Prints the program as diagnostic text, exactly as
    /// `spec_program_text` describes.
    #[verifier::rlimit(100)]
    #[verifier::spinoff_prover]
    #[verifier::loop_isolation(false)]
    pub fn to_string(&self) -> (r: String)
        requires
            program_wf(self@),
            pow2(self@.state_bits) <= usize::MAX,
            self@.table.len() <= u32::MAX,
        ensures
            r@ == spec_program_text(self@),
    {
        let mut target: usize = 1;
        let mut b: usize = 0;
        proof {
            assert(pow2(0) == 1) by {
                vstd::arithmetic::power2::lemma2_to64();
            }
        }
        while b < self.state_bits
            invariant
                0 <= b <= self.state_bits,
                target == pow2(b as nat),
            decreases self.state_bits - b,
        {
            proof {
                assert(pow2((b + 1) as nat) == 2 * pow2(b as nat)) by {
                    vstd::arithmetic::power2::lemma_pow2_unfold((b + 1) as nat);
                }
                if ((b + 1) as nat) < self@.state_bits {
                    vstd::arithmetic::power2::lemma_pow2_strictly_increases(
                        (b + 1) as nat,
                        self@.state_bits,
                    );
                }
            }
            target = target * 2;
            b = b + 1;
        }
        let sd = crate::helpers::count_digits(target);
        let mut out: Vec<char> = Vec::new();
        crate::helpers::push_digits(self.state_bits, &mut out);
        crate::helpers::append_str(&mut out, "-bit State (");
        crate::helpers::push_digits(self.state_bits + 1, &mut out);
        crate::helpers::append_str(&mut out, "-bit Demux), ");
        crate::helpers::push_digits(self.format.register_count, &mut out);
        crate::helpers::append_str(&mut out, " Registers");
        if self.format.has_arm {
            crate::helpers::append_str(&mut out, " + Arm");
        }
        crate::helpers::append_str(&mut out, ":");
        out.push('\n');
        let ghost header = out@;
        proof {
            reveal_strlit("\n");
            assert(spec_program_text(self@) =~= header + spec_state_lines(self@, 0, sd as nat));
        }
        let n = self.commands.len();
        let mut i: usize = 0;
        while i < n
            invariant
                0 <= i <= n,
                n == self@.table.len(),
                out@ + spec_state_lines(self@, i as int, sd as nat) =~= header
                    + spec_state_lines(self@, 0, sd as nat),
            decreases n - i,
        {
            proof {
                assert(self@.table[i as int] == pairs_v(self.commands@)[i as int]);
                assert(self@.table[i as int].0 == cmd_v(self.commands@[i as int].when_false));
                assert(self@.table[i as int].1 == cmd_v(self.commands@[i as int].when_true));
            }
            let l0 = RieLine::to_string(sd, i as u32, false, &self.commands[i].when_false);
            crate::helpers::append_str(&mut out, l0.as_str());
            out.push('\n');
            let l1 = RieLine::to_string(sd, i as u32, true, &self.commands[i].when_true);
            crate::helpers::append_str(&mut out, l1.as_str());
            out.push('\n');
            proof {
                reveal_strlit("\n");
                assert(spec_state_lines(self@, i as int, sd as nat)
                    =~= crate::rie_line::spec_line_text(sd as nat, i as u32, false, self@.table[i as int].0)
                    + "\n"@ + crate::rie_line::spec_line_text(
                    sd as nat,
                    i as u32,
                    true,
                    self@.table[i as int].1,
                ) + "\n"@ + spec_state_lines(self@, i + 1, sd as nat));
                assert(out@ + spec_state_lines(self@, i + 1, sd as nat) =~= header
                    + spec_state_lines(self@, 0, sd as nat));
            }
            i = i + 1;
        }
        proof {
            assert(spec_state_lines(self@, n as int, sd as nat) =~= Seq::<char>::empty());
            assert(out@ =~= spec_program_text(self@));
        }
        crate::helpers::chars_to_string(&out)
    }
}

} // verus!
