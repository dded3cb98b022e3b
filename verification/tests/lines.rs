use vm_translator::arith::{BinaryOp, Relation, UnaryOp};
use vm_translator::command::{split_line, Command, SyntaxError};
use vm_translator::context::Context;
use vm_translator::target::{print_code, Instr};
use vm_translator::translate::{process_line, translate};

fn words(line: &str) -> Vec<String> {
    split_line(line)
}

fn parse(line: &str) -> Result<Command, SyntaxError> {
    Command::parse(&split_line(line))
}

fn name(s: &str) -> String {
    s.to_string()
}

#[test]
fn line_is_split_at_white_space() {
    assert_eq!(words("push constant 7"), vec!["push", "constant", "7"]);
    assert_eq!(words("  push\tconstant \u{a0} 7  "), vec!["push", "constant", "7"]);
    assert_eq!(words("add"), vec!["add"]);
}

#[test]
fn line_without_words_gives_none() {
    assert_eq!(words(""), Vec::<String>::new());
    assert_eq!(words("   \t "), Vec::<String>::new());
    assert_eq!(words("// only a comment"), Vec::<String>::new());
    assert_eq!(words("   // only a comment"), Vec::<String>::new());
}

#[test]
fn comment_is_cut_off() {
    assert_eq!(words("push local 2 // the counter"), vec!["push", "local", "2"]);
    assert_eq!(words("add//sum"), vec!["add"]);
    assert_eq!(words("add // a // b"), vec!["add"]);
    assert_eq!(words("label a//b"), vec!["label", "a"]);
}

#[test]
fn one_slash_is_no_comment() {
    assert_eq!(words("label a/b"), vec!["label", "a/b"]);
    assert_eq!(words("goto x /"), vec!["goto", "x", "/"]);
    assert_eq!(words("/ /"), vec!["/", "/"]);
}

#[test]
fn split_agrees_with_the_standard_library() {
    for line in ["push constant 7", " a  b ", "x//y", "", "//", "/", "a / b // c", "é \u{3000} ü"] {
        let code = line.split("//").next().unwrap_or("");
        let expected: Vec<&str> = code.split_whitespace().collect();
        assert_eq!(words(line), expected, "{:?}", line);
    }
}

#[test]
fn plain_mnemonics_are_read() {
    assert_eq!(parse("add"), Ok(Command::Binary(BinaryOp::Add)));
    assert_eq!(parse("sub"), Ok(Command::Binary(BinaryOp::Sub)));
    assert_eq!(parse("and"), Ok(Command::Binary(BinaryOp::And)));
    assert_eq!(parse("or"), Ok(Command::Binary(BinaryOp::Or)));
    assert_eq!(parse("neg"), Ok(Command::Unary(UnaryOp::Neg)));
    assert_eq!(parse("not"), Ok(Command::Unary(UnaryOp::Not)));
    assert_eq!(parse("eq"), Ok(Command::Compare(Relation::Eq)));
    assert_eq!(parse("gt"), Ok(Command::Compare(Relation::Gt)));
    assert_eq!(parse("lt"), Ok(Command::Compare(Relation::Lt)));
    assert_eq!(parse("return"), Ok(Command::Return));
}

#[test]
fn words_after_a_plain_mnemonic_are_passed_over() {
    assert_eq!(parse("add 1 2"), Ok(Command::Binary(BinaryOp::Add)));
    assert_eq!(parse("return now"), Ok(Command::Return));
}

#[test]
fn mnemonics_with_operands_are_read() {
    assert_eq!(parse("push local 3"), Ok(Command::Push { segment: name("local"), index: 3 }));
    assert_eq!(parse("pop heap 65535"), Ok(Command::Pop { segment: name("heap"), index: 65535 }));
    assert_eq!(parse("label LOOP"), Ok(Command::Label { name: name("LOOP") }));
    assert_eq!(parse("goto LOOP"), Ok(Command::Goto { name: name("LOOP") }));
    assert_eq!(parse("if-goto END"), Ok(Command::IfGoto { name: name("END") }));
    assert_eq!(
        parse("function Main.f 255"),
        Ok(Command::Function { name: name("Main.f"), locals: 255 })
    );
    assert_eq!(parse("call Main.f +2"), Ok(Command::Call { name: name("Main.f"), args: 2 }));
}

#[test]
fn unknown_mnemonic_is_kept() {
    assert_eq!(parse("mul"), Ok(Command::Unknown { mnemonic: name("mul") }));
    assert_eq!(parse("PUSH constant 1"), Ok(Command::Unknown { mnemonic: name("PUSH") }));
}

#[test]
fn wrong_number_of_words_is_an_error() {
    for line in [
        "push",
        "push local",
        "push local 1 2",
        "pop",
        "pop local 1 2",
        "label",
        "label a b",
        "goto",
        "goto a b",
        "if-goto",
        "if-goto a b",
        "function",
        "function f",
        "function f 1 2",
        "call",
        "call f",
        "call f 1 2",
    ] {
        assert_eq!(parse(line), Err(SyntaxError::Arity), "{:?}", line);
    }
}

#[test]
fn bad_number_is_an_error() {
    for line in [
        "push local x",
        "push local -1",
        "push local 65536",
        "pop local 1.5",
        "function f 256",
        "function f many",
        "call f 256",
        "call f -",
    ] {
        assert_eq!(parse(line), Err(SyntaxError::Number), "{:?}", line);
    }
}

#[test]
fn arity_is_checked_before_the_number() {
    assert_eq!(parse("push local x y"), Err(SyntaxError::Arity));
}

#[test]
fn context_starts_at_top_level() {
    let ctx = Context::new("fakefile.vm");
    assert_eq!(ctx.unit(), "fakefile.vm");
    assert_eq!(ctx.function(), "undefined");
    assert_eq!(ctx.minted(), 0);
}

#[test]
fn context_gives_each_number_once() {
    let mut ctx = Context::new("u");
    assert_eq!(ctx.mint(), 1);
    assert_eq!(ctx.mint(), 2);
    assert_eq!(ctx.minted(), 2);
    ctx.enter("Main.f");
    assert_eq!(ctx.function(), "Main.f");
    assert_eq!(ctx.unit(), "u");
    assert_eq!(ctx.mint(), 3);
}

fn text_of(line: &str, ctx: &mut Context) -> Vec<String> {
    print_code(&translate(&parse(line).unwrap(), ctx))
}

#[test]
fn function_head_changes_the_scope_of_labels() {
    let mut ctx = Context::new("u");
    assert_eq!(text_of("label L", &mut ctx), vec!["(undefined:L)"]);
    assert_eq!(text_of("function A.f 0", &mut ctx), vec!["(fn.A.f)"]);
    assert_eq!(ctx.function(), "A.f");
    assert_eq!(text_of("label L", &mut ctx), vec!["(A.f:L)"]);
    assert_eq!(text_of("goto L", &mut ctx)[0], "@A.f:L");
    assert_eq!(text_of("function A.g 0", &mut ctx), vec!["(fn.A.g)"]);
    assert_eq!(text_of("label L", &mut ctx), vec!["(A.g:L)"]);
    assert_eq!(text_of("if-goto L", &mut ctx)[3], "@A.g:L");
}

#[test]
fn numbers_go_to_the_code_that_needs_them() {
    let mut ctx = Context::new("u");
    text_of("push constant 1", &mut ctx);
    text_of("add", &mut ctx);
    text_of("label L", &mut ctx);
    text_of("function f 0", &mut ctx);
    text_of("return", &mut ctx);
    assert_eq!(ctx.minted(), 0);
    assert_eq!(text_of("eq", &mut ctx)[6], "@iftrue.1.f");
    assert_eq!(text_of("lt", &mut ctx)[6], "@iftrue.2.f");
    assert_eq!(text_of("call g 1", &mut ctx)[0], "@return.3.f");
    assert_eq!(text_of("function g 2", &mut ctx)[3], "(local_vars_top.4.g)");
    assert_eq!(ctx.minted(), 4);
}

#[test]
fn static_variables_carry_the_unit() {
    let mut ctx = Context::new("Big.vm");
    assert_eq!(text_of("push static 3", &mut ctx)[0], "@Big.vm.3");
    assert_eq!(text_of("pop static 3", &mut ctx)[3], "@Big.vm.3");
}

#[test]
fn unknown_mnemonic_is_flagged_and_translation_goes_on() {
    let mut ctx = Context::new("u");
    assert_eq!(text_of("mul", &mut ctx), vec!["!!! unsupported instruction type: mul"]);
    assert_eq!(text_of("neg", &mut ctx), vec!["@SP", "A=M-1", "M=-M"]);
}

#[test]
fn line_gives_a_note_and_the_code() {
    let mut ctx = Context::new("u");
    let code = process_line("  neg   // flip", 41, &mut ctx).unwrap();
    assert_eq!(print_code(&code), vec!["// line 41: neg ", "@SP", "A=M-1", "M=-M"]);
    assert_eq!(code[0], Instr::Note { line: 41, words: vec![name("neg")] });
}

#[test]
fn line_without_words_gives_no_code() {
    let mut ctx = Context::new("u");
    assert_eq!(process_line("", 0, &mut ctx), Ok(vec![]));
    assert_eq!(process_line("   // nothing", 1, &mut ctx), Ok(vec![]));
    assert_eq!(ctx.minted(), 0);
}

#[test]
fn line_with_unknown_segment_is_flagged() {
    let mut ctx = Context::new("u");
    let code = process_line("push heap 1", 2, &mut ctx).unwrap();
    assert_eq!(print_code(&code), vec!["// line 2: push heap 1 ", "!!! unimplemented segment: heap"]);
}

#[test]
fn line_that_is_no_instruction_leaves_the_context() {
    let mut ctx = Context::new("u");
    ctx.enter("f");
    assert_eq!(process_line("call g", 0, &mut ctx), Err(SyntaxError::Arity));
    assert_eq!(process_line("function g x", 0, &mut ctx), Err(SyntaxError::Number));
    assert_eq!(ctx.function(), "f");
    assert_eq!(ctx.minted(), 0);
}

#[test]
fn row_without_words_is_no_instruction() {
    assert_eq!(Command::parse(&Vec::new()), Err(SyntaxError::Arity));
}
