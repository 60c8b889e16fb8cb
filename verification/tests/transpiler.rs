use bf_lib::bf::transpiler::{to_rust, translate};
use bf_lib::bf::Instruction;
use bf_lib::text::{push_decimal, size_of, text_of};
use bf_lib::{Error, Exec, RuntimeError};

const START: &str = "use std::num::Wrapping;\nfn main() {\nlet mut _m = [Wrapping(0u8); 30000];\nlet (mut _p, mut _b) = (0usize, 0usize);\nlet mut _o = String::new();\n";
const END: &str = "println!(\"{}\", _o);}";
const READ: &str = "_m[_p] = { _b += 1; if let Some(c) = _i.as_bytes().get(_b-1) { Wrapping(*c) } else { std::process::exit(10) }};\n";
const PRINT: &str = "_o.push(_m[_p].0 as char);\n";

#[test]
fn echo_program_is_rendered_with_its_input() {
    let code = Exec::prog(",.").input(Some(String::from("a"))).translate().unwrap();
    assert_eq!(code, format!("{}let _i = \"a\";\n{}{}{}", START, READ, PRINT, END));
}

#[test]
fn a_program_without_input_binds_the_empty_literal() {
    let code = Exec::prog(".").translate().unwrap();
    assert_eq!(code, format!("{}let _i = \"\";\n{}{}", START, PRINT, END));
}

#[test]
fn each_instruction_has_its_statement() {
    let insts = vec![
        Instruction::Move(3),
        Instruction::Move(-2),
        Instruction::Add(5),
        Instruction::Add(-7),
        Instruction::LoopStart,
        Instruction::LoopEnd,
    ];
    let code = to_rust(insts, None);
    let body = "_p += 3;\n_p -= 2;\n_m[_p] += Wrapping(5);\n_m[_p] -= Wrapping(7);\nwhile _m[_p].0 != 0 {\n}\n";
    assert_eq!(code, format!("{}let _i = \"\";\n{}{}", START, body, END));
}

#[test]
fn cell_counts_are_rendered_modulo_256() {
    let code = to_rust(vec![Instruction::Add(300), Instruction::Add(-256), Instruction::Add(0)], None);
    let body = "_m[_p] += Wrapping(44);\n_m[_p] -= Wrapping(0);\n_m[_p] += Wrapping(0);\n";
    assert_eq!(code, format!("{}let _i = \"\";\n{}{}", START, body, END));
}

#[test]
fn the_input_is_escaped_inside_its_literal() {
    let input = String::from("a\"b\\c\nd\re\tf");
    let code = to_rust(vec![], Some(input));
    assert_eq!(
        code,
        format!("{}let _i = \"a\\\"b\\\\c\\nd\\re\\tf\";\n{}", START, END)
    );
}

#[test]
fn other_characters_of_the_input_stand_as_they_are() {
    let code = to_rust(vec![], Some(String::from("é{}'")));
    assert_eq!(code, format!("{}let _i = \"é{{}}'\";\n{}", START, END));
}

#[test]
fn translate_refuses_unmatched_brackets() {
    assert!(matches!(translate("[[]", None), Err(Error::Syntax(0))));
    assert!(matches!(translate("]", None), Err(Error::Syntax(0))));
    assert!(matches!(Exec::prog("+[").translate(), Err(Error::Syntax(1))));
}

#[test]
fn translate_folds_before_rendering() {
    let code = translate("+++>>>", None).unwrap();
    assert_eq!(
        code,
        format!("{}let _i = \"\";\n_m[_p] += Wrapping(3);\n_p += 3;\n{}", START, END)
    );
}

#[test]
fn decimal_numerals() {
    for (n, want) in [
        (0u128, "0"),
        (7, "7"),
        (10, "10"),
        (255, "255"),
        (30000, "30000"),
        (u128::MAX, "340282366920938463463374607431768211455"),
    ] {
        let mut s = String::from("x");
        push_decimal(&mut s, n);
        assert_eq!(s, format!("x{}", want));
    }
}

#[test]
fn sizes_of_signed_counts() {
    assert_eq!(size_of(0), 0);
    assert_eq!(size_of(5), 5);
    assert_eq!(size_of(-5), 5);
    assert_eq!(size_of(i128::MAX), (1u128 << 127) - 1);
    assert_eq!(size_of(i128::MIN), 1u128 << 127);
}

#[test]
fn bytes_become_the_characters_with_their_codes() {
    assert_eq!(text_of(&vec![]), String::new());
    assert_eq!(text_of(&vec![0x41, 0x00, 0x7f, 0x80, 0xff]), String::from("A\u{0}\u{7f}\u{80}\u{ff}"));
}

#[test]
fn messages_name_what_went_wrong() {
    let pre = "Error, I didn't quite get that.\n";
    assert_eq!(Error::Compile(String::from("E0425")).message(), format!("{}rustc error: E0425", pre));
    assert_eq!(
        Error::Runtime(RuntimeError::OutOfMemoryBounds).message(),
        format!("{}Runtime error: access memory out of bounds", pre)
    );
    assert_eq!(
        Error::Runtime(RuntimeError::InputTooShort).message(),
        format!("{}Runtime error: input was not long enough", pre)
    );
    assert_eq!(
        Error::Runtime(RuntimeError::Signal).message(),
        format!("{}Runtime error: executable was probably killed by a signal", pre)
    );
    assert_eq!(Error::Syntax(12).message(), format!("{}Unmatched bracket at 12.", pre));
    assert_eq!(Error::Timeout.message(), format!("{}Executable timed out.", pre));
    let inner = subprocess::PopenError::LogicError("no such thing");
    assert_eq!(Error::Subprocess(inner).message(), format!("{}rustc error: no such thing", pre));
}
