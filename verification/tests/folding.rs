use bf_lib::bf::{backend_for, firstpass, to_source, Backend, Instruction};

fn fold(src: &str) -> Vec<Instruction> {
    firstpass(src.as_bytes()).unwrap()
}

#[test]
fn a_run_of_plus_folds_to_one_add() {
    assert_eq!(fold("+"), vec![Instruction::Add(1)]);
    assert_eq!(fold("+++++"), vec![Instruction::Add(5)]);
    let long = "+".repeat(300);
    assert_eq!(fold(&long), vec![Instruction::Add(300)]);
}

#[test]
fn a_run_of_right_folds_to_one_move() {
    assert_eq!(fold(">>>>"), vec![Instruction::Move(4)]);
    assert_eq!(fold("<<<"), vec![Instruction::Move(-3)]);
}

#[test]
fn mixed_runs_fold_to_two_instructions_in_order() {
    assert_eq!(fold("+++>>>"), vec![Instruction::Add(3), Instruction::Move(3)]);
}

#[test]
fn opposite_steps_cancel_within_a_run() {
    assert_eq!(fold("++-"), vec![Instruction::Add(1)]);
    assert_eq!(fold("><<<"), vec![Instruction::Move(-2)]);
}

#[test]
fn a_run_with_net_count_zero_is_still_emitted() {
    assert_eq!(fold("+-"), vec![Instruction::Add(0)]);
    assert_eq!(fold("+-."), vec![Instruction::Add(0), Instruction::Print]);
    assert_eq!(
        fold(">+-<"),
        vec![Instruction::Move(1), Instruction::Add(0), Instruction::Move(-1)]
    );
    assert_eq!(fold("<>["), vec![Instruction::Move(0), Instruction::LoopStart]);
}

#[test]
fn markers_are_never_folded() {
    assert_eq!(
        fold("..,,[[]]"),
        vec![
            Instruction::Print,
            Instruction::Print,
            Instruction::Read,
            Instruction::Read,
            Instruction::LoopStart,
            Instruction::LoopStart,
            Instruction::LoopEnd,
            Instruction::LoopEnd,
        ]
    );
}

#[test]
fn other_bytes_are_skipped_and_do_not_end_a_run() {
    assert_eq!(fold("hello world"), vec![]);
    assert_eq!(fold(""), vec![]);
    assert_eq!(fold("+ a +\n+"), vec![Instruction::Add(3)]);
    assert_eq!(fold("é>é>"), vec![Instruction::Move(2)]);
}

#[test]
fn a_whole_program_folds_in_order() {
    assert_eq!(
        fold("+++++[>++++++++++<-]>-."),
        vec![
            Instruction::Add(5),
            Instruction::LoopStart,
            Instruction::Move(1),
            Instruction::Add(10),
            Instruction::Move(-1),
            Instruction::Add(-1),
            Instruction::LoopEnd,
            Instruction::Move(1),
            Instruction::Add(-1),
            Instruction::Print,
        ]
    );
}

#[test]
fn folding_never_fails_even_on_unmatched_brackets() {
    assert_eq!(fold("]["), vec![Instruction::LoopEnd, Instruction::LoopStart]);
}

#[test]
fn instructions_are_spelled_back_as_source() {
    let insts = vec![
        Instruction::Add(3),
        Instruction::Move(-2),
        Instruction::LoopStart,
        Instruction::Add(-1),
        Instruction::Print,
        Instruction::Read,
        Instruction::LoopEnd,
        Instruction::Move(1),
    ];
    assert_eq!(to_source(&insts), b"+++<<[-.,]>".to_vec());
    assert_eq!(to_source(&vec![Instruction::Add(0), Instruction::Move(0)]), Vec::<u8>::new());
}

#[test]
fn refolding_the_spelled_source_gives_the_same_instructions() {
    for src in ["+++>>>", "+++++[>++++++++++<-]>-.", ",[.,]", "a+b-c-d", "<<<..>>>", ""] {
        let once = fold(src);
        let again = firstpass(&to_source(&once)).unwrap();
        assert_eq!(once, again);
    }
}

#[test]
fn refolding_loses_a_zero_count() {
    let once = fold("+-");
    assert_eq!(once, vec![Instruction::Add(0)]);
    let again = firstpass(&to_source(&once)).unwrap();
    assert_eq!(again, vec![]);
}

#[test]
fn the_native_backend_is_chosen_where_the_compiler_was_found() {
    assert_eq!(backend_for(true), Backend::Native);
    assert_eq!(backend_for(false), Backend::Interpreter);
}
