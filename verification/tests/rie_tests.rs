use rie::arm_cmd::ArmCmd;
use rie::fieline::{FieLine, FieLineErr};
use rie::header::{HeaderErr, HeaderFormat};
use rie::helpers::{answer_of_line, break_string, extend_vec_to, get_tokens, largest_bit, next_token};
use rie::register_cmd::RegisterCmd;
use rie::rie::{Confirm, RieErr, RieProgram};
use rie::rie_line::{RieLine, RieLineErr};
use rie::rle::{Rle, RleErr, RleLine, Run};
use rie::tm_cmd::TMCmd;

#[test]
fn test_run_char_ct() {
    let run = Run { len: 0, item: b'\0' };
    assert_eq!(run.display_len(), 0);

    let run = Run { len: 1, item: b'\0' };
    assert_eq!(run.display_len(), 1);

    let run = Run { len: 2, item: b'\0' };
    assert_eq!(run.display_len(), 2);

    let run = Run { len: 9, item: b'\0' };
    assert_eq!(run.display_len(), 2);

    let run = Run { len: 10, item: b'\0' };
    assert_eq!(run.display_len(), 3);

    let run = Run { len: 99, item: b'\0' };
    assert_eq!(run.display_len(), 3);

    let run = Run { len: 100, item: b'\0' };
    assert_eq!(run.display_len(), 4);
}

fn one_line(runs: Vec<Run>) -> Rle {
    let mut p = Rle::default();
    p.push_line(RleLine { runs });
    p
}

#[test]
fn hjoin_fuses_matching_seam_runs() {
    let mut a = one_line(vec![Run { len: 3, item: b'A' }]);
    let b = one_line(vec![Run { len: 3, item: b'A' }]);
    a.hjoin(&b);
    assert_eq!(a.to_string(), "x = 6, y = 1, rule = Flow6\n6A!\n");
}

#[test]
fn hjoin_keeps_unmatched_seam_runs() {
    let mut a = one_line(vec![Run { len: 2, item: b'A' }]);
    let b = one_line(vec![Run { len: 2, item: b'B' }]);
    a.hjoin(&b);
    assert_eq!(a.to_string(), "x = 4, y = 1, rule = Flow6\n2A2B!\n");
}

#[test]
fn stack_never_merges_across_the_seam() {
    let mut a = one_line(vec![Run { len: 3, item: b'A' }]);
    let b = one_line(vec![Run { len: 3, item: b'A' }]);
    a.stack(&b);
    assert_eq!(a.to_string(), "x = 3, y = 2, rule = Flow6\n3A$3A!\n");
}

#[test]
fn parse_then_serialize_preserves_content() {
    let s = "x = 5, y = 4, rule = Flow6\n.A$5A$.A.B$.3A!\n";
    let p = match Rle::parse(s) {
        Ok(p) => p,
        Err(_) => panic!("pattern text did not parse"),
    };
    assert_eq!(p.width(), 5);
    assert_eq!(p.height(), 4);
    assert_eq!(p.to_string(), s);
}

#[test]
fn parse_pads_declared_height() {
    let p = Rle::parse("x = 2, y = 3, rule = Flow6\n2A!").unwrap();
    assert_eq!(p.height(), 3);
    assert_eq!(p.width(), 2);
    assert_eq!(p.to_string(), "x = 2, y = 3, rule = Flow6\n2A$$!\n");
}

#[test]
fn parse_counts_repeated_blank_rows() {
    let p = Rle::parse("x = 1, y = 4, rule = Flow6\nA3$A!").unwrap();
    assert_eq!(p.height(), 4);
    assert_eq!(p.to_string(), "x = 1, y = 4, rule = Flow6\nA$A3!\n");
}

#[test]
fn rle_header_errors() {
    assert_eq!(Rle::parse("").unwrap_err(), RleErr::NoWidth);
    assert_eq!(Rle::parse("x = a, y = 2, rule = Flow6\n!").unwrap_err(), RleErr::BadWidth);
    assert_eq!(Rle::parse("x = 3, ").unwrap_err(), RleErr::NoHeight);
    assert_eq!(Rle::parse("x = 3, y = b, rule = Flow6\n!").unwrap_err(), RleErr::BadHeight);
}

#[test]
fn repeat_multiplies_width() {
    let mut a = one_line(vec![Run { len: 3, item: b'A' }]);
    a.repeat(3);
    assert_eq!(a.to_string(), "x = 9, y = 1, rule = Flow6\n9A!\n");
    let mut b = one_line(vec![Run { len: 3, item: b'A' }]);
    b.repeat(0);
    assert_eq!(b.height(), 0);
}

#[test]
fn indent_and_measures() {
    let mut p = Rle::new_indent(3, 2);
    assert_eq!(p.width(), 3);
    assert_eq!(p.height(), 2);
    assert_eq!(p.to_string(), "x = 3, y = 2, rule = Flow6\n$!\n");
    p.clear();
    assert_eq!(p.height(), 0);
    let l = RleLine { runs: vec![Run { len: 2, item: b'A' }, Run { len: 3, item: b'B' }] };
    assert_eq!(l.len(), 5);
    assert_eq!(RleLine::pad(4).len(), 4);
    assert!(Run::pad(0).is_none());
    assert_eq!(Run::pad(2).unwrap().len, 2);
}

#[test]
fn assemble_reverses_register_groups() {
    let cmd = TMCmd {
        goto: 0,
        read: None,
        register_cmds: vec![RegisterCmd::Push, RegisterCmd::Noop],
        arm_cmd: ArmCmd::default(),
    };
    let format = HeaderFormat { register_count: 2, has_arm: false };
    let groups = cmd.assemble(1, format);
    assert_eq!(
        groups,
        vec![
            vec![false, false, false, false],
            vec![false, true, false, false],
            vec![false, false],
            vec![false],
        ],
    );
}

#[test]
fn assemble_pads_missing_registers_and_reads() {
    let cmd = TMCmd {
        goto: 5,
        read: Some(true),
        register_cmds: vec![RegisterCmd::Read],
        arm_cmd: ArmCmd::default(),
    };
    let format = HeaderFormat { register_count: 2, has_arm: false };
    let groups = cmd.assemble(3, format);
    assert_eq!(
        groups,
        vec![
            vec![false, false, false, false],
            vec![true, false, false, true],
            vec![false, true],
            vec![true, false, true],
        ],
    );
}

#[test]
fn multi_read_from_two_registers() {
    let format = HeaderFormat { register_count: 2, has_arm: false };
    let r = RieLine::parse("\t3\ttrue\t\t\t?\t?", format);
    assert_eq!(r.unwrap_err(), RieLineErr::MultiRead(3, true));
}

#[test]
fn multi_read_from_register_and_constant() {
    let format = HeaderFormat { register_count: 1, has_arm: false };
    let r = RieLine::parse("\t7\tfalse\t\ttrue\t?", format);
    assert_eq!(r.unwrap_err(), RieLineErr::MultiRead(7, false));
}

#[test]
fn line_parse_defaults_jump_to_state() {
    let format = HeaderFormat { register_count: 1, has_arm: true };
    let l = RieLine::parse("\t4\ttrue", format).unwrap();
    assert_eq!(l.state, 4);
    assert_eq!(l.arg, true);
    assert_eq!(l.cmd.goto, 4);
    assert_eq!(l.cmd.read, None);
    assert!(l.cmd.register_cmds.is_empty());
    assert_eq!(l.cmd.arm_cmd, ArmCmd::default());
}

#[test]
fn line_parse_errors_carry_context() {
    let format = HeaderFormat { register_count: 1, has_arm: false };
    assert_eq!(RieLine::parse("\t", format).unwrap_err(), RieLineErr::NoState);
    assert_eq!(
        RieLine::parse("\tx", format).unwrap_err(),
        RieLineErr::BadState("x".to_string()),
    );
    assert_eq!(RieLine::parse("\t2", format).unwrap_err(), RieLineErr::NoArg(2));
    assert_eq!(
        RieLine::parse("\t2\tmaybe", format).unwrap_err(),
        RieLineErr::BadArg("maybe".to_string(), 2),
    );
    assert_eq!(
        RieLine::parse("\t2\ttrue\tdown", format).unwrap_err(),
        RieLineErr::BadJump("down".to_string(), 2, true),
    );
    assert_eq!(
        RieLine::parse("\t2\ttrue\t3\tmaybe", format).unwrap_err(),
        RieLineErr::BadRead("maybe".to_string(), 2, true),
    );
    match RieLine::parse("\t2\ttrue\t3\ttrue\t@", format).unwrap_err() {
        RieLineErr::BadRegisterCommand(state, arg, col, bad) => {
            assert_eq!(state, 2);
            assert_eq!(arg, true);
            assert_eq!(col, 0);
            assert_eq!(bad.0, "@");
        },
        other => panic!("unexpected error {:?}", other),
    }
}

#[test]
fn register_tokens() {
    assert_eq!(RegisterCmd::parse(">").unwrap(), RegisterCmd::Push);
    assert_eq!(RegisterCmd::parse("<").unwrap(), RegisterCmd::Pull);
    assert_eq!(RegisterCmd::parse("%").unwrap(), RegisterCmd::Flip);
    assert_eq!(RegisterCmd::parse("%<").unwrap(), RegisterCmd::FlipPull);
    assert_eq!(RegisterCmd::parse("?").unwrap(), RegisterCmd::Read);
    assert_eq!(RegisterCmd::parse("").unwrap(), RegisterCmd::Noop);
    assert_eq!(RegisterCmd::parse("><").unwrap_err().0, "><");
}

#[test]
fn arm_tokens() {
    assert_eq!(ArmCmd::parse("<>C?").unwrap().0, [true, true, true, true]);
    assert_eq!(ArmCmd::parse("C?").unwrap().0, [false, false, true, true]);
    assert_eq!(ArmCmd::parse("").unwrap().0, [false, false, false, false]);
    assert_eq!(ArmCmd::parse("?C").unwrap_err().0, "?C");
    assert_eq!(ArmCmd::parse("x").unwrap_err().0, "x");
}

#[test]
fn header_parses_registers_and_arm() {
    let f = HeaderFormat::parse("\tSTATE\tARG\tGOTO\tREAD\tREG\tREG\tARM").unwrap();
    assert_eq!(f, HeaderFormat { register_count: 2, has_arm: true });
    let f = HeaderFormat::parse(" \tSTATE\tARG\tGOTO\tREAD").unwrap();
    assert_eq!(f, HeaderFormat { register_count: 0, has_arm: false });
}

#[test]
fn header_errors() {
    assert_eq!(
        HeaderFormat::parse("\tSTATE\tARG").unwrap_err(),
        HeaderErr::MissingHeaders("GOTO".to_string()),
    );
    assert_eq!(
        HeaderFormat::parse("\tARG\tSTATE\tGOTO\tREAD").unwrap_err(),
        HeaderErr::ExpectedHeader("STATE".to_string(), "ARG".to_string()),
    );
    assert_eq!(
        HeaderFormat::parse("\tSTATE\tARG\tGOTO\tREAD\tFOO").unwrap_err(),
        HeaderErr::ExpectedRegister("FOO".to_string()),
    );
    assert_eq!(
        HeaderFormat::parse("\tSTATE\tARG\tGOTO\tREAD\tARM\tREG").unwrap_err(),
        HeaderErr::RegisterAfterArm,
    );
}

#[test]
fn column_height_counts_all_groups() {
    let f = HeaderFormat { register_count: 2, has_arm: true };
    assert_eq!(f.column_height(3), 3 + 2 + 8 + 4);
}

struct AlwaysYes;

impl Confirm for AlwaysYes {
    fn confirm(&mut self, _line: usize, _state: u32, _goto: usize, _total: usize) -> bool {
        true
    }
}

struct AlwaysNo;

impl Confirm for AlwaysNo {
    fn confirm(&mut self, _line: usize, _state: u32, _goto: usize, _total: usize) -> bool {
        false
    }
}

#[test]
fn table_pads_to_power_of_two_with_self_loops() {
    let lines = vec![
        "\tSTATE\tARG\tGOTO\tREAD".to_string(),
        "\t0\tfalse\t5".to_string(),
    ];
    let mut yes = AlwaysYes;
    let p = RieProgram::from_lines(&lines, &mut yes).unwrap();
    assert_eq!(p.state_bits(), 3);
    assert_eq!(p.len(), 16);
    let text = p.to_string();
    assert!(text.contains("3-bit State (4-bit Demux), 0 Registers:"));
    assert!(text.contains("State 6 | false = { Goto 6 }"));
    assert!(text.contains("State 7 | true  = { Goto 7 }"));
    assert!(text.contains("State 0 | false = { Goto 5 }"));
}

#[test]
fn end_to_end_compiles_the_example_program() {
    let lines = vec![
        "\tSTATE\tARG\tGOTO\tREAD\tREG".to_string(),
        "\t0\tfalse\t1\ttrue\t>".to_string(),
        "\t0\ttrue".to_string(),
    ];
    let mut yes = AlwaysYes;
    let p = RieProgram::from_lines(&lines, &mut yes).unwrap();
    assert_eq!(p.state_bits(), 1);
    assert_eq!(p.len(), 4);
    assert_eq!(p.format(), HeaderFormat { register_count: 1, has_arm: false });
    let text = p.to_string();
    assert!(text.contains("1-bit State (2-bit Demux), 1 Registers:"));
    assert!(
        text.contains("State 0 | false = { Goto 1 | Push Register 0 | Read from Constant true }")
    );
    assert!(text.contains("State 0 | true  = { Goto 0 }"));
    assert!(text.contains("State 1 | false = { Goto 1 }"));
    let rle = p.rle();
    assert!(rle.starts_with("x = "));
    assert!(rle.contains("rule = Flow6"));
    assert!(rle.ends_with("!\n"));
}

#[test]
fn compile_errors() {
    let mut yes = AlwaysYes;
    let no_header: Vec<String> = vec!["a comment".to_string()];
    assert_eq!(RieProgram::from_lines(&no_header, &mut yes).unwrap_err(), RieErr::NoHeader);
    let bad_header = vec!["\tSTATE".to_string()];
    assert_eq!(
        RieProgram::from_lines(&bad_header, &mut yes).unwrap_err(),
        RieErr::BadHeader(HeaderErr::MissingHeaders("ARG".to_string())),
    );
    let bad_line = vec![
        "\tSTATE\tARG\tGOTO\tREAD".to_string(),
        "\tx\ttrue".to_string(),
    ];
    assert_eq!(
        RieProgram::from_lines(&bad_line, &mut yes).unwrap_err(),
        RieErr::BadLine(2, RieLineErr::BadState("x".to_string())),
    );
}

#[test]
fn growth_warning_can_cancel() {
    let lines = vec![
        "\tSTATE\tARG\tGOTO\tREAD".to_string(),
        "\t0\tfalse\t1000".to_string(),
    ];
    let mut no = AlwaysNo;
    assert_eq!(RieProgram::from_lines(&lines, &mut no).unwrap_err(), RieErr::Cancelled);
    let mut yes = AlwaysYes;
    let p = RieProgram::from_lines(&lines, &mut yes).unwrap();
    assert_eq!(p.state_bits(), 10);
    assert_eq!(p.len(), 2048);
}

#[test]
fn fie_line_takes_every_remaining_field() {
    let l = FieLine::parse("\t1\ttrue\t2\t\t>\t<\t%").unwrap();
    assert_eq!(l.state, 1);
    assert_eq!(l.arg, true);
    assert_eq!(l.cmd.goto, 2);
    assert_eq!(
        l.cmd.register_cmds,
        vec![RegisterCmd::Push, RegisterCmd::Pull, RegisterCmd::Flip],
    );
    assert_eq!(
        FieLine::parse("\t1\tfalse\t\ttrue\t?").unwrap_err(),
        FieLineErr::MultiRead(1, false),
    );
}

#[test]
fn helper_functions() {
    assert_eq!(largest_bit(0), 0);
    assert_eq!(largest_bit(1), 1);
    assert_eq!(largest_bit(5), 3);
    assert_eq!(largest_bit(64), 7);
    assert_eq!(break_string("abcdef", 2), "ab\ncd\nef");
    assert_eq!(break_string("abcde", 2), "ab\ncd\ne");
    let tokens = get_tokens("  \t a \tb\t");
    assert_eq!(tokens, vec![" a ".to_string(), "b".to_string(), "".to_string()]);
    assert_eq!(next_token(&tokens, 0), Some("a".to_string()));
    assert_eq!(next_token(&tokens, 2), None);
    assert_eq!(next_token(&tokens, 9), None);
    let mut v = vec![1u8, 2];
    assert_eq!(extend_vec_to(&mut v, 9, 4), 2);
    assert_eq!(v, vec![1, 2, 9, 9]);
    assert_eq!(extend_vec_to(&mut v, 9, 3), 0);
    assert_eq!(answer_of_line(" y\n"), Some(true));
    assert_eq!(answer_of_line("No"), Some(false));
    assert_eq!(answer_of_line(""), Some(false));
    assert_eq!(answer_of_line("what"), None);
}
