use vm_translator::bootstrap::{bootstrap, print_bootstrap};
use vm_translator::command::SyntaxError;
use vm_translator::program::{translate_program, translate_unit, TranslateError};
use vm_translator::target::{print_code, Instr, Symbol};

fn source(lines: &[&str]) -> Vec<String> {
    lines.iter().map(|line| line.to_string()).collect()
}

const PROGRAM: [&str; 22] = [
    "// a program with two functions",
    "function Sys.init 0",
    "push constant 3",
    "push constant 4",
    "call Main.max 2",
    "label HALT",
    "goto HALT",
    "",
    "function Main.max 1   // the greater of two",
    "push argument 0",
    "push argument 1",
    "gt",
    "if-goto FIRST",
    "push argument 1",
    "goto HALT",
    "label FIRST",
    "push argument 0",
    "label HALT",
    "pop local 0",
    "push local 0",
    "return",
    "mul // no such instruction",
];

#[test]
fn empty_program_is_the_prologue() {
    assert_eq!(translate_program(&Vec::new(), "u"), Ok(bootstrap()));
    assert_eq!(translate_unit(&Vec::new(), "u"), Ok(print_bootstrap()));
}

#[test]
fn prologue_comes_first_and_once() {
    let text = translate_unit(&source(&PROGRAM), "Main.vm").unwrap();
    let prologue = print_bootstrap();
    assert_eq!(&text[..prologue.len()], &prologue[..]);
    let found = text.windows(prologue.len()).filter(|w| *w == &prologue[..]).count();
    assert_eq!(found, 1);
    assert_eq!(text.iter().filter(|line| *line == "(Sys.init.loop)").count(), 1);
    assert_eq!(text.iter().filter(|line| *line == "@256").count(), 1);
}

#[test]
fn code_follows_the_order_of_the_source() {
    let text = translate_unit(&source(&["push constant 1", "", "neg // flip", "not"]), "u").unwrap();
    let body = &text[print_bootstrap().len()..];
    assert_eq!(
        body,
        &[
            "// line 0: push constant 1 ",
            "@1",
            "D=A",
            "@SP",
            "M=M+1",
            "A=M-1",
            "M=D",
            "// line 2: neg ",
            "@SP",
            "A=M-1",
            "M=-M",
            "// line 3: not ",
            "@SP",
            "A=M-1",
            "M=!M",
        ]
    );
}

#[test]
fn text_is_the_printed_code() {
    let lines = source(&PROGRAM);
    let code = translate_program(&lines, "Main.vm").unwrap();
    assert_eq!(translate_unit(&lines, "Main.vm").unwrap(), print_code(&code));
}

#[test]
fn same_source_gives_the_same_text() {
    let lines = source(&PROGRAM);
    let one = translate_unit(&lines, "Main.vm").unwrap();
    let two = translate_unit(&lines, "Main.vm").unwrap();
    assert_eq!(one, two);
    assert_eq!(translate_program(&lines, "Main.vm"), translate_program(&lines, "Main.vm"));
}

#[test]
fn first_bad_line_ends_the_translation() {
    let lines = source(&["push constant 1", "", "pop local", "push local x", "add"]);
    assert_eq!(
        translate_unit(&lines, "u"),
        Err(TranslateError { line: 2, error: SyntaxError::Arity })
    );
    let lines = source(&["push constant 1", "push local x", "pop local"]);
    assert_eq!(
        translate_program(&lines, "u"),
        Err(TranslateError { line: 1, error: SyntaxError::Number })
    );
}

#[test]
fn unsupported_lines_do_not_end_the_translation() {
    let text = translate_unit(&source(&["mul", "push heap 0", "add"]), "u").unwrap();
    assert!(text.contains(&"!!! unsupported instruction type: mul".to_string()));
    assert!(text.contains(&"!!! unimplemented segment: heap".to_string()));
    assert_eq!(text[text.len() - 1], "M=D+M");
}

fn is_internal(symbol: &Symbol) -> bool {
    matches!(symbol, Symbol::Minted { .. } | Symbol::Idle)
}

#[test]
fn every_internal_label_that_is_used_is_defined_once() {
    let mut lines = source(&PROGRAM);
    lines.extend(source(&["eq", "eq", "lt", "call Main.max 2", "call Main.max 2", "function Main.max 1"]));
    let code = translate_program(&lines, "Main.vm").unwrap();
    let mut used = 0;
    for instr in code.iter() {
        if let Instr::At(symbol) = instr {
            if is_internal(symbol) {
                used += 1;
                let definitions =
                    code.iter().filter(|i| matches!(i, Instr::Label(s) if s == symbol)).count();
                assert_eq!(definitions, 1, "{:?}", symbol);
            }
        }
    }
    assert!(used >= 10);
}

#[test]
fn every_internal_label_that_is_used_is_defined_by_one_line() {
    let mut lines = source(&PROGRAM);
    lines.extend(source(&["eq", "gt", "call Main.max 2", "function Main.max 1"]));
    let code = translate_program(&lines, "Main.vm").unwrap();
    let text = print_code(&code);
    let mut used = 0;
    for instr in code.iter() {
        if let Instr::At(symbol) = instr {
            if is_internal(symbol) {
                used += 1;
                let line = format!("({})", symbol.text());
                assert_eq!(text.iter().filter(|other| **other == line).count(), 1, "{}", line);
            }
        }
    }
    assert!(used >= 8);
}

// The labels that a piece of code defines, each once.
fn defined(code: &[Instr]) -> Vec<Symbol> {
    let mut labels: Vec<Symbol> = Vec::new();
    for instr in code.iter() {
        if let Instr::Label(symbol) = instr {
            if !labels.contains(symbol) {
                labels.push(symbol.copy());
            }
        }
    }
    labels
}

#[test]
fn function_named_fn_does_not_share_a_label_with_another() {
    let lines = source(&[
        "function fn 1",
        "label X",
        "label fn.X",
        "label X:entry",
        "label iftrue.1.X",
        "eq",
        "call X 0",
        "call fn 0",
        "goto X",
        "function X 1",
        "label fn",
        "label X",
        "eq",
        "call fn 0",
        "function fn.X 0",
        "function iftrue.1.X 2",
        "lt",
        "return",
    ]);
    let code = translate_program(&lines, "u").unwrap();
    let text = print_code(&code);
    let labels = defined(&code);
    assert!(labels.contains(&Symbol::Entry { function: "fn".to_string() }));
    assert!(labels.contains(&Symbol::Entry { function: "X".to_string() }));
    assert!(labels
        .contains(&Symbol::Scoped { function: "fn".to_string(), label: "X".to_string() }));
    // Different labels are written differently.
    for (i, one) in labels.iter().enumerate() {
        for two in labels.iter().skip(i + 1) {
            assert_ne!(one.text(), two.text(), "{:?} and {:?}", one, two);
        }
    }
    // So every label is defined by as many lines as the code defines it.
    for label in labels.iter() {
        let in_code = code.iter().filter(|i| matches!(i, Instr::Label(s) if s == label)).count();
        let line = format!("({})", label.text());
        assert_eq!(text.iter().filter(|other| **other == line).count(), in_code, "{}", line);
        assert_eq!(in_code, 1, "{}", line);
    }
    assert_eq!(text.iter().filter(|line| *line == "(fn.X)").count(), 1);
    assert_eq!(text.iter().filter(|line| *line == "(fn:X)").count(), 1);
}

#[test]
fn entry_is_written_unlike_a_label_of_the_source() {
    let entry = Symbol::Entry { function: "X".to_string() };
    let scoped = Symbol::Scoped { function: "fn".to_string(), label: "X".to_string() };
    assert_eq!(entry.text(), "fn.X");
    assert_eq!(scoped.text(), "fn:X");
    let text = translate_unit(&source(&["function fn 0", "label X", "function X 0"]), "u").unwrap();
    let body = &text[print_bootstrap().len()..];
    assert_eq!(
        body,
        &[
            "// line 0: function fn 0 ",
            "(fn.fn)",
            "// line 1: label X ",
            "(fn:X)",
            "// line 2: function X 0 ",
            "(fn.X)",
        ]
    );
}

#[test]
fn labels_of_two_functions_do_not_meet() {
    let text = translate_unit(&source(&PROGRAM), "Main.vm").unwrap();
    assert_eq!(text.iter().filter(|line| *line == "(Sys.init:HALT)").count(), 1);
    assert_eq!(text.iter().filter(|line| *line == "(Main.max:HALT)").count(), 1);
    assert_eq!(text.iter().filter(|line| *line == "@Sys.init:HALT").count(), 1);
    assert_eq!(text.iter().filter(|line| *line == "@Main.max:HALT").count(), 1);
}

#[test]
fn jump_to_a_label_that_is_not_declared_is_translated() {
    let text = translate_unit(&source(&["function f 0", "goto NOWHERE"]), "u").unwrap();
    assert_eq!(&text[text.len() - 2..], &["@f:NOWHERE", "0;JMP"]);
    assert!(!text.contains(&"(f:NOWHERE)".to_string()));
}

#[test]
fn lines_are_counted_from_zero_with_blank_lines() {
    let text = translate_unit(&source(&["", "// c", "neg"]), "u").unwrap();
    assert!(text.contains(&"// line 2: neg ".to_string()));
}
