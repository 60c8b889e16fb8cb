use bf_lib::bf::interpreter::{
    exec, exec_timeout, expired, maploops, run, wrapped, Machine, Progress,
};
use bf_lib::bf::{firstpass, Instruction};
use bf_lib::{wants_input, Error, Exec, RuntimeError};
use std::collections::HashMap;
use std::time::Duration;

fn insts_of(src: &str) -> Vec<Instruction> {
    firstpass(src.as_bytes()).unwrap()
}

#[test]
fn input_check() {
    assert_eq!(wants_input("foo , bar"), true);
    assert_eq!(wants_input("foo . bar"), false);
}

#[test]
fn in_out() {
    assert_eq!(
        Exec::prog(",.")
            .input(Some(String::from("a")))
            .interpret()
            .unwrap(),
        String::from("a")
    );
}

#[test]
fn loop_math() {
    assert_eq!(
        Exec::prog("+++++[>++++++++++<-]>-.").interpret().unwrap(),
        String::from("1")
    );
}

#[test]
fn moving_left_of_the_tape_is_out_of_bounds() {
    match Exec::prog("<+").interpret() {
        Err(Error::Runtime(e)) => assert_eq!(e, RuntimeError::OutOfMemoryBounds),
        _ => panic!("expected an out-of-bounds error"),
    }
    match Exec::prog("<").interpret() {
        Err(Error::Runtime(e)) => assert_eq!(e, RuntimeError::OutOfMemoryBounds),
        _ => panic!("expected an out-of-bounds error"),
    }
}

#[test]
fn reading_without_input_is_input_too_short() {
    match Exec::prog(",").interpret() {
        Err(Error::Runtime(e)) => assert_eq!(e, RuntimeError::InputTooShort),
        _ => panic!("expected an input error"),
    }
    match Exec::prog(",").input(Some(String::new())).interpret() {
        Err(Error::Runtime(e)) => assert_eq!(e, RuntimeError::InputTooShort),
        _ => panic!("expected an input error"),
    }
    match Exec::prog(",,").input(Some(String::from("a"))).interpret() {
        Err(Error::Runtime(e)) => assert_eq!(e, RuntimeError::InputTooShort),
        _ => panic!("expected an input error"),
    }
}

#[test]
fn unmatched_bracket_is_refused_before_running() {
    match Exec::prog("[[]").interpret() {
        Err(Error::Syntax(p)) => assert_eq!(p, 0),
        _ => panic!("expected a syntax error"),
    }
    match Exec::prog("<]").interpret() {
        Err(Error::Syntax(p)) => assert_eq!(p, 1),
        _ => panic!("expected a syntax error"),
    }
}

#[test]
fn the_last_cell_is_on_the_tape_and_the_next_is_not() {
    let mut last = String::new();
    for _ in 0..29999 {
        last.push('>');
    }
    last.push_str("+.");
    assert_eq!(Exec::prog(&last).interpret().unwrap(), String::from("\u{1}"));
    let mut beyond = String::new();
    for _ in 0..30000 {
        beyond.push('>');
    }
    match Exec::prog(&beyond).interpret() {
        Err(Error::Runtime(e)) => assert_eq!(e, RuntimeError::OutOfMemoryBounds),
        _ => panic!("expected an out-of-bounds error"),
    }
}

#[test]
fn cells_wrap_around() {
    assert_eq!(Exec::prog("-.").interpret().unwrap(), String::from("\u{ff}"));
    let mut up = String::new();
    for _ in 0..256 {
        up.push('+');
    }
    up.push('.');
    assert_eq!(Exec::prog(&up).interpret().unwrap(), String::from("\u{0}"));
    assert_eq!(wrapped(0, -1), 255);
    assert_eq!(wrapped(255, 1), 0);
    assert_eq!(wrapped(10, 256), 10);
    assert_eq!(wrapped(10, -257), 9);
    assert_eq!(wrapped(200, 100), 44);
    assert_eq!(wrapped(1, i128::MIN), 1);
    assert_eq!(wrapped(1, i128::MAX), 0);
}

#[test]
fn a_skipped_loop_runs_nothing() {
    assert_eq!(Exec::prog("[.]+++.").interpret().unwrap(), String::from("\u{3}"));
}

#[test]
fn nested_loops_multiply() {
    // 2 * 3 * 4 = 24, then 24 + 41 = 65 = 'A'
    let src = "++[>+++[>++++<-]<-]>>+++++++++++++++++++++++++++++++++++++++++.";
    assert_eq!(Exec::prog(src).interpret().unwrap(), String::from("A"));
}

#[test]
fn output_is_the_printed_bytes_as_character_codes() {
    let src = ",.,.,.";
    let out = Exec::prog(src).input(Some(String::from("é!"))).interpret().unwrap();
    // the input is read byte by byte: 0xC3 0xA9 0x21
    assert_eq!(out, String::from("\u{c3}\u{a9}!"));
}

#[test]
fn jump_table_pairs_brackets_both_ways() {
    let insts = insts_of("+[>[-]<-]");
    // Add LoopStart Move LoopStart Add LoopEnd Move Add LoopEnd
    let map = maploops(&insts).unwrap();
    let mut want: HashMap<usize, usize> = HashMap::new();
    want.insert(1, 8);
    want.insert(8, 1);
    want.insert(3, 5);
    want.insert(5, 3);
    assert_eq!(map, want);
}

#[test]
fn jump_table_reports_unmatched_instructions() {
    match maploops(&insts_of("+]")) {
        Err(Error::Syntax(p)) => assert_eq!(p, 1),
        _ => panic!("expected a syntax error"),
    }
    match maploops(&insts_of("[+[-]")) {
        Err(Error::Syntax(p)) => assert_eq!(p, 0),
        _ => panic!("expected a syntax error"),
    }
    match maploops(&insts_of("[][[")) {
        Err(Error::Syntax(p)) => assert_eq!(p, 3),
        _ => panic!("expected a syntax error"),
    }
}

#[test]
fn validator_and_jump_table_agree_on_samples() {
    for src in ["", "[]", "[[]", "][", "+[>+<-]", "a[b]c]", "[[[]]]", "[.,[", "]"] {
        let accepted = bf_lib::check_brackets(src).is_ok();
        let built = maploops(&insts_of(src)).is_ok();
        assert_eq!(accepted, built);
    }
}

#[test]
fn exec_runs_instructions_directly() {
    let insts = vec![Instruction::Add(72), Instruction::Print, Instruction::Add(-300), Instruction::Print];
    let out = exec(insts, HashMap::new(), None).unwrap();
    // 72 - 300 = -228 = 28 (mod 256)
    assert_eq!(out, String::from("H\u{1c}"));
}

#[test]
fn a_zero_count_instruction_does_nothing() {
    let insts = vec![Instruction::Move(0), Instruction::Add(0), Instruction::Print];
    assert_eq!(exec(insts, HashMap::new(), None).unwrap(), String::from("\u{0}"));
}

#[test]
fn a_move_far_off_the_tape_is_out_of_bounds() {
    for d in [i128::MAX, i128::MIN, 30000, -1] {
        match exec(vec![Instruction::Move(d)], HashMap::new(), None) {
            Err(Error::Runtime(e)) => assert_eq!(e, RuntimeError::OutOfMemoryBounds),
            _ => panic!("expected an out-of-bounds error"),
        }
    }
    assert!(exec(vec![Instruction::Move(29999), Instruction::Move(-29999)], HashMap::new(), None).is_ok());
}

#[test]
fn an_endless_program_times_out() {
    let r = Exec::prog("+[]").timeout(Some(Duration::from_millis(20))).interpret();
    assert!(matches!(r, Err(Error::Timeout)));
}

#[test]
fn a_short_program_finishes_within_its_timeout() {
    let r = Exec::prog("+++++[>++++++++++<-]>-.")
        .timeout(Some(Duration::from_secs(10)))
        .interpret();
    assert_eq!(r.unwrap(), String::from("1"));
}

#[test]
fn exec_timeout_reports_runtime_errors_as_exec_does() {
    let r = exec_timeout(vec![Instruction::Read], HashMap::new(), None, Duration::from_secs(10));
    match r {
        Err(Error::Runtime(e)) => assert_eq!(e, RuntimeError::InputTooShort),
        _ => panic!("expected an input error"),
    }
}

#[test]
fn run_is_what_interpret_calls() {
    assert_eq!(run(",.", Some(String::from("a")), None).unwrap(), String::from("a"));
    assert!(matches!(run("[", None, None), Err(Error::Syntax(0))));
}

#[test]
fn machine_steps_one_instruction_at_a_time() {
    let insts = insts_of("+>.");
    let map = maploops(&insts).unwrap();
    let mut m = Machine::new();
    assert_eq!(m.mem.len(), 30000);
    assert!(matches!(m.step(&insts, &map, &[]), Progress::Going));
    assert_eq!((m.mem[0], m.i, m.p), (1, 0, 1));
    assert!(matches!(m.step(&insts, &map, &[]), Progress::Going));
    assert_eq!((m.i, m.p), (1, 2));
    assert!(matches!(m.step(&insts, &map, &[]), Progress::Going));
    assert_eq!(m.output, vec![0u8]);
    assert!(matches!(m.step(&insts, &map, &[]), Progress::Halted));
    assert_eq!(m.p, 3);
}

#[test]
fn a_program_wants_input_exactly_if_it_holds_a_read() {
    for src in ["", ",", "+.", "a,b", "[,]", "+-<>.[]", "no comma here"] {
        let reads = insts_of(src).contains(&Instruction::Read);
        assert_eq!(wants_input(src), reads);
    }
}

#[test]
fn the_configuration_comes_apart_as_it_was_set() {
    let e = Exec::prog("+.")
        .input(Some(String::from("in")))
        .timeout(Some(Duration::from_secs(3)))
        .tmpdir(Some(std::path::PathBuf::from("/tmp")));
    let (program, input, time, dir) = e.into_parts();
    assert_eq!(program, "+.");
    assert_eq!(input, Some(String::from("in")));
    assert_eq!(time, Some(Duration::from_secs(3)));
    assert_eq!(dir, Some(std::path::PathBuf::from("/tmp")));
    let (program, input, time, dir) = Exec::prog("x").into_parts();
    assert_eq!(program, "x");
    assert_eq!(input, None);
    assert_eq!(time, None);
    assert_eq!(dir, None);
}

#[test]
fn a_later_setting_replaces_an_earlier_one() {
    let e = Exec::prog(",.")
        .input(Some(String::from("a")))
        .input(Some(String::from("b")));
    assert_eq!(e.interpret().unwrap(), String::from("b"));
    let e = Exec::prog(",.").input(Some(String::from("a"))).input(None);
    assert!(matches!(e.interpret(), Err(Error::Runtime(RuntimeError::InputTooShort))));
}

#[test]
#[should_panic]
fn out_of_bounds() {
    Exec::prog("<+").interpret().unwrap();
}

#[test]
#[should_panic]
fn out_of_input() {
    Exec::prog(",").interpret().unwrap();
}

#[test]
fn time_is_up_once_the_time_spent_reaches_the_time_allowed() {
    assert!(!expired(0, 1));
    assert!(!expired(999, 1000));
    assert!(expired(1000, 1000));
    assert!(expired(1001, 1000));
    assert!(expired(0, 0));
}

#[test]
fn a_program_that_is_over_at_once_is_not_timed_out() {
    let none = Duration::from_nanos(0);
    assert_eq!(Exec::prog("").timeout(Some(none)).interpret().unwrap(), String::new());
    assert_eq!(Exec::prog("no code").timeout(Some(none)).interpret().unwrap(), String::new());
    match Exec::prog(",").timeout(Some(none)).interpret() {
        Err(Error::Runtime(e)) => assert_eq!(e, RuntimeError::InputTooShort),
        _ => panic!("expected an input error"),
    }
    assert!(matches!(Exec::prog("+").timeout(Some(none)).interpret(), Err(Error::Timeout)));
}
