//! Rendering instructions as Rust source text.

use vstd::prelude::*;
use vstd::string::*;
use crate::bf::{firstpass, fold, Instruction};
use crate::brackets::{of_bytes, verdict};
use crate::text::{chars, decimal, magnitude, push_char, push_decimal, size_of};
use crate::{check_brackets, Error};

verus! {

/// What every generated program begins with: the tape, the data pointer, the
/// input cursor and the output buffer.
pub open spec fn prologue() -> Seq<char> {
    "use std::num::Wrapping;\nfn main() {\nlet mut _m = [Wrapping(0u8); 30000];\nlet (mut _p, mut _b) = (0usize, 0usize);\nlet mut _o = String::new();\n"@
}

/// What every generated program ends with: printing the output buffer.
pub open spec fn epilogue() -> Seq<char> {
    "println!(\"{}\", _o);}"@
}

/// One character as it stands inside a string literal: a backslash, a double
/// quote, a line feed, a carriage return and a tab are written as escapes,
/// every other character as itself.
pub open spec fn escaped(c: char) -> Seq<char> {
    if c == '\\' {
        seq!['\\', '\\']
    } else if c == '"' {
        seq!['\\', '"']
    } else if c == '\n' {
        seq!['\\', 'n']
    } else if c == '\r' {
        seq!['\\', 'r']
    } else if c == '\t' {
        seq!['\\', 't']
    } else {
        seq![c]
    }
}

/// A text as it stands inside a string literal.
pub open spec fn quoted(text: Seq<char>) -> Seq<char>
    decreases text.len(),
{
    if text.len() == 0 {
        Seq::empty()
    } else {
        quoted(text.drop_last()) + escaped(text.last())
    }
}

/// The statement that binds the input: the text as a string literal, or the
/// empty literal where there is no input.
pub open spec fn input_line(input: Option<Seq<char>>) -> Seq<char> {
    let text = match input {
        Some(t) => t,
        None => Seq::empty(),
    };
    "let _i = \""@ + quoted(text) + "\";\n"@
}

/// The statement of one instruction.
pub open spec fn statement(i: Instruction) -> Seq<char> {
    match i {
        Instruction::Move(x) => if x >= 0 {
            "_p += "@ + decimal(magnitude(x as int)) + ";\n"@
        } else {
            "_p -= "@ + decimal(magnitude(x as int)) + ";\n"@
        },
        Instruction::Add(x) => if x >= 0 {
            "_m[_p] += Wrapping("@ + decimal(magnitude(x as int) % 256) + ");\n"@
        } else {
            "_m[_p] -= Wrapping("@ + decimal(magnitude(x as int) % 256) + ");\n"@
        },
        Instruction::Print => "_o.push(_m[_p].0 as char);\n"@,
        Instruction::Read => "_m[_p] = { _b += 1; if let Some(c) = _i.as_bytes().get(_b-1) { Wrapping(*c) } else { std::process::exit(10) }};\n"@,
        Instruction::LoopStart => "while _m[_p].0 != 0 {\n"@,
        Instruction::LoopEnd => "}\n"@,
    }
}

/// The statements of an instruction sequence, in order.
pub open spec fn statements(insts: Seq<Instruction>) -> Seq<char>
    decreases insts.len(),
{
    if insts.len() == 0 {
        Seq::empty()
    } else {
        statements(insts.drop_last()) + statement(insts.last())
    }
}

/// The whole generated program.
pub open spec fn rust_source(insts: Seq<Instruction>, input: Option<Seq<char>>) -> Seq<char> {
    prologue() + input_line(input) + statements(insts) + epilogue()
}

/// Appends `text` as it stands inside a string literal.
fn push_quoted(code: &mut String, text: &str)
    ensures
        final(code)@ == old(code)@ + quoted(text@),
{
    for c in it: text.chars()
        invariant
            it.seq() == text@,
            code@ == old(code)@ + quoted(text@.take(it.index() as int)),
    {
        let ghost k = it.index() as int;
        proof {
            assert(text@.take(k + 1).drop_last() =~= text@.take(k));
        }
        if c == '\\' || c == '"' {
            push_char(code, '\\');
            push_char(code, c);
        } else if c == '\n' {
            push_char(code, '\\');
            push_char(code, 'n');
        } else if c == '\r' {
            push_char(code, '\\');
            push_char(code, 'r');
        } else if c == '\t' {
            push_char(code, '\\');
            push_char(code, 't');
        } else {
            push_char(code, c);
        }
    }
    assert(text@.take(text@.len() as int) =~= text@);
}

/// Appends the statement of one instruction.
fn push_statement(code: &mut String, i: Instruction)
    ensures
        final(code)@ == old(code)@ + statement(i),
{
    match i {
        Instruction::Move(x) => {
            code.append(if x >= 0 { "_p += " } else { "_p -= " });
            push_decimal(code, size_of(x));
            code.append(";\n");
        },
        Instruction::Add(x) => {
            code.append(if x >= 0 { "_m[_p] += Wrapping(" } else { "_m[_p] -= Wrapping(" });
            push_decimal(code, size_of(x) % 256);
            code.append(");\n");
        },
        Instruction::Print => code.append("_o.push(_m[_p].0 as char);\n"),
        Instruction::Read => code.append(
            "_m[_p] = { _b += 1; if let Some(c) = _i.as_bytes().get(_b-1) { Wrapping(*c) } else { std::process::exit(10) }};\n",
        ),
        Instruction::LoopStart => code.append("while _m[_p].0 != 0 {\n"),
        Instruction::LoopEnd => code.append("}\n"),
    }
}

/// Renders instructions and input as the source text of a Rust program that
/// does what the interpreter would do with them.
///
/// The program keeps a tape of 30000 wrapping bytes, a data pointer and an
/// input cursor, and holds one statement for each instruction. It exits with
/// code 10 when it reads past the end of the input, and leaves it to Rust's
/// bounds checks to abort where the data pointer is off the tape.
pub fn to_rust(inst: Vec<Instruction>, input: Option<String>) -> (code: String)
    ensures
        code@ == rust_source(inst@, chars(input)),
{
    let mut code = String::from_str(
        "use std::num::Wrapping;\nfn main() {\nlet mut _m = [Wrapping(0u8); 30000];\nlet (mut _p, mut _b) = (0usize, 0usize);\nlet mut _o = String::new();\n",
    );
    code.append("let _i = \"");
    match &input {
        Some(text) => push_quoted(&mut code, text.as_str()),
        None => {},
    }
    code.append("\";\n");
    let ghost head = code@;
    let mut k: usize = 0;
    while k < inst.len()
        invariant
            k <= inst.len(),
            code@ == head + statements(inst@.take(k as int)),
        decreases inst.len() - k,
    {
        proof {
            assert(inst@.take(k + 1).drop_last() =~= inst@.take(k as int));
        }
        push_statement(&mut code, inst[k]);
        k += 1;
    }
    assert(inst@.take(k as int) =~= inst@);
    code.append("println!(\"{}\", _o);}");
    code
}

/// Checks and folds a source text and renders it as Rust source.
///
/// A text with an unmatched bracket is refused with the index that
/// `check_brackets` reports; every other text is rendered.
pub fn translate(program: &str, input: Option<String>) -> (r: Result<String, Error>)
    ensures
        match verdict(of_bytes(program.spec_bytes())) {
            Some(i) => r matches Err(Error::Syntax(p)) && p == i,
            None => r matches Ok(code) && code@ == rust_source(
                fold(program.spec_bytes()),
                chars(input),
            ),
        },
{
    match check_brackets(program) {
        Err(e) => {
            return Err(e);
        },
        Ok(_) => {},
    }
    match firstpass(program.as_bytes()) {
        Ok(insts) => Ok(to_rust(insts, input)),
        Err(e) => Err(e),
    }
}

} // verus!
