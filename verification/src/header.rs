//! The configuration line: four mandatory column names, then
//! register and arm markers.

use vstd::prelude::*;

verus! {

use crate::helpers::spec_tokens;

/// Failure kinds of the header parser.
#[derive(Debug, Clone, PartialEq, Eq)]
pub enum HeaderErr {
    /// The line ends before the named mandatory column.
    MissingHeaders(String),
    /// Expected the first named column, found the second.
    ExpectedHeader(String, String),
    /// An optional column that is neither a register nor an arm
    /// marker.
    ExpectedRegister(String),
    /// A register or arm marker after the arm marker.
    RegisterAfterArm,
}

/// The ghost form of a header failure, over character sequences.
pub ghost enum HeaderErrV {
    MissingHeaders(Seq<char>),
    ExpectedHeader(Seq<char>, Seq<char>),
    ExpectedRegister(Seq<char>),
    RegisterAfterArm,
}

/// The layout a header declares: how many register columns, and
/// whether an arm column closes the list.
#[derive(Debug, Clone, Copy, PartialEq, Eq, Structural)]
pub struct HeaderFormat {
    pub register_count: usize,
    pub has_arm: bool,
}

/// The mandatory column name `STATE`.
pub open spec fn name_state() -> Seq<char> {
    seq!['S', 'T', 'A', 'T', 'E']
}

/// The mandatory column name `ARG`.
pub open spec fn name_arg() -> Seq<char> {
    seq!['A', 'R', 'G']
}

/// The mandatory column name `GOTO`.
pub open spec fn name_goto() -> Seq<char> {
    seq!['G', 'O', 'T', 'O']
}

/// The mandatory column name `READ`.
pub open spec fn name_read() -> Seq<char> {
    seq!['R', 'E', 'A', 'D']
}

/// The register column marker `REG`.
pub open spec fn name_reg() -> Seq<char> {
    seq!['R', 'E', 'G']
}

/// The arm column marker `ARM`.
pub open spec fn name_arm() -> Seq<char> {
    seq!['A', 'R', 'M']
}

/// The optional columns from field `i` on: every register marker
/// adds a register, one arm marker may close the list, and nothing
/// may follow it.
pub open spec fn spec_header_rest(
    toks: Seq<Seq<char>>,
    i: int,
    count: nat,
    has_arm: bool,
) -> Result<HeaderFormat, HeaderErrV>
    decreases toks.len() - i,
    when 0 <= i <= toks.len()
{
    if i >= toks.len() {
        Ok(HeaderFormat { register_count: count as usize, has_arm })
    } else if toks[i] == name_reg() {
        if has_arm {
            Err(HeaderErrV::RegisterAfterArm)
        } else {
            spec_header_rest(toks, i + 1, count + 1, has_arm)
        }
    } else if toks[i] == name_arm() {
        if has_arm {
            Err(HeaderErrV::RegisterAfterArm)
        } else {
            spec_header_rest(toks, i + 1, count, true)
        }
    } else {
        Err(HeaderErrV::ExpectedRegister(toks[i]))
    }
}

/// What a header line declares: the four mandatory column names
/// `STATE`, `ARG`, `GOTO`, `READ` in that order, then the optional
/// columns.
pub open spec fn spec_parse_header(toks: Seq<Seq<char>>) -> Result<HeaderFormat, HeaderErrV> {
    if toks.len() == 0 {
        Err(HeaderErrV::MissingHeaders(name_state()))
    } else if toks[0] != name_state() {
        Err(HeaderErrV::ExpectedHeader(name_state(), toks[0]))
    } else if toks.len() == 1 {
        Err(HeaderErrV::MissingHeaders(name_arg()))
    } else if toks[1] != name_arg() {
        Err(HeaderErrV::ExpectedHeader(name_arg(), toks[1]))
    } else if toks.len() == 2 {
        Err(HeaderErrV::MissingHeaders(name_goto()))
    } else if toks[2] != name_goto() {
        Err(HeaderErrV::ExpectedHeader(name_goto(), toks[2]))
    } else if toks.len() == 3 {
        Err(HeaderErrV::MissingHeaders(name_read()))
    } else if toks[3] != name_read() {
        Err(HeaderErrV::ExpectedHeader(name_read(), toks[3]))
    } else {
        spec_header_rest(toks, 4, 0, false)
    }
}

/// Whether the exec error `e` is the ghost error `v`.
pub open spec fn header_err_is(e: HeaderErr, v: HeaderErrV) -> bool {
    match e {
        HeaderErr::MissingHeaders(t) => v == HeaderErrV::MissingHeaders(t@),
        HeaderErr::ExpectedHeader(a, b) => v == HeaderErrV::ExpectedHeader(a@, b@),
        HeaderErr::ExpectedRegister(t) => v == HeaderErrV::ExpectedRegister(t@),
        HeaderErr::RegisterAfterArm => v == HeaderErrV::RegisterAfterArm,
    }
}

/// Builds the characters of one column name.
fn name_vec(which: u8) -> (v: Vec<char>)
    requires
        which < 6,
    ensures
        which == 0 ==> v@ == name_state(),
        which == 1 ==> v@ == name_arg(),
        which == 2 ==> v@ == name_goto(),
        which == 3 ==> v@ == name_read(),
        which == 4 ==> v@ == name_reg(),
        which == 5 ==> v@ == name_arm(),
{
    let mut v: Vec<char> = Vec::new();
    if which == 0 {
        v.push('S');
        v.push('T');
        v.push('A');
        v.push('T');
        v.push('E');
        proof {
            assert(v@ =~= name_state());
        }
    } else if which == 1 {
        v.push('A');
        v.push('R');
        v.push('G');
        proof {
            assert(v@ =~= name_arg());
        }
    } else if which == 2 {
        v.push('G');
        v.push('O');
        v.push('T');
        v.push('O');
        proof {
            assert(v@ =~= name_goto());
        }
    } else if which == 3 {
        v.push('R');
        v.push('E');
        v.push('A');
        v.push('D');
        proof {
            assert(v@ =~= name_read());
        }
    } else if which == 4 {
        v.push('R');
        v.push('E');
        v.push('G');
        proof {
            assert(v@ =~= name_reg());
        }
    } else {
        v.push('A');
        v.push('R');
        v.push('M');
        proof {
            assert(v@ =~= name_arm());
        }
    }
    v
}

/// The column height the format implies for a given address width:
/// the jump bits, the two read-select bits, and one 4-bit group per
/// register column and for the arm.
pub open spec fn spec_column_height(f: HeaderFormat, state_bits: nat) -> nat {
    (state_bits + 2 + 4 * f.register_count + if f.has_arm {
        4nat
    } else {
        0nat
    }) as nat
}

impl HeaderFormat {
    /// How many bits tall one ROM column is for this format.
    pub fn column_height(&self, state_bits: usize) -> (r: usize)
        requires
            spec_column_height(*self, state_bits as nat) <= usize::MAX,
        ensures
            r == spec_column_height(*self, state_bits as nat),
    {
        state_bits + 2 + 4 * self.register_count + if self.has_arm {
            4
        } else {
            0
        }
    }

    /// Reads the header line, as `spec_parse_header` describes.
    pub fn parse(line: &str) -> (r: Result<HeaderFormat, HeaderErr>)
        ensures
            (match r {
                Ok(f) => spec_parse_header(spec_tokens(line@)) == Ok::<HeaderFormat, HeaderErrV>(
                    f,
                ),
                Err(e) => spec_parse_header(spec_tokens(line@)) matches Err(v) && header_err_is(
                    e,
                    v,
                ),
            }),
    {
        let tokens = crate::helpers::get_tokens(line);
        let ghost toks = spec_tokens(line@);
        let names = [
            name_vec(0),
            name_vec(1),
            name_vec(2),
            name_vec(3),
        ];
        let mut k: usize = 0;
        while k < 4
            invariant
                0 <= k <= 4,
                toks == spec_tokens(line@),
                toks == tokens@.map_values(|t: String| t@),
                names@[0]@ == name_state(),
                names@[1]@ == name_arg(),
                names@[2]@ == name_goto(),
                names@[3]@ == name_read(),
                forall|j: int|
                    0 <= j < k ==> j < toks.len() && toks[j] == (#[trigger] names@[j])@,
            decreases 4 - k,
        {
            let expected = &names[k];
            if k >= tokens.len() {
                let e = crate::helpers::chars_to_string(expected);
                return Err(HeaderErr::MissingHeaders(e));
            }
            let actual = crate::helpers::chars_of(tokens[k].as_str());
            proof {
                assert(toks[k as int] == tokens@[k as int]@);
            }
            if !crate::helpers::chars_eq(&actual, expected) {
                let e = crate::helpers::chars_to_string(expected);
                let a = crate::helpers::chars_to_string(&actual);
                return Err(HeaderErr::ExpectedHeader(e, a));
            }
            k = k + 1;
        }
        let reg_name = name_vec(4);
        let arm_name = name_vec(5);
        let mut count: usize = 0;
        let mut has_arm: bool = false;
        let mut i: usize = 4;
        while i < tokens.len()
            invariant
                4 <= i <= tokens@.len(),
                count < i,
                toks == spec_tokens(line@),
                toks == tokens@.map_values(|t: String| t@),
                toks.len() >= 4,
                toks[0] == name_state(),
                toks[1] == name_arg(),
                toks[2] == name_goto(),
                toks[3] == name_read(),
                reg_name@ == name_reg(),
                arm_name@ == name_arm(),
                spec_header_rest(toks, 4, 0, false) == spec_header_rest(
                    toks,
                    i as int,
                    count as nat,
                    has_arm,
                ),
            decreases tokens@.len() - i,
        {
            let t = crate::helpers::chars_of(tokens[i].as_str());
            proof {
                assert(toks[i as int] == tokens@[i as int]@);
            }
            if crate::helpers::chars_eq(&t, &reg_name) {
                if has_arm {
                    return Err(HeaderErr::RegisterAfterArm);
                }
                count = count + 1;
            } else if crate::helpers::chars_eq(&t, &arm_name) {
                if has_arm {
                    return Err(HeaderErr::RegisterAfterArm);
                }
                has_arm = true;
            } else {
                return Err(HeaderErr::ExpectedRegister(crate::helpers::chars_to_string(&t)));
            }
            i = i + 1;
        }
        Ok(HeaderFormat { register_count: count, has_arm })
    }
}

} // verus!
