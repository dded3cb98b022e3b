use vm_translator::target::{print_code, Comp, Construct, Dest, Instr, Jump, Mark, Symbol};

fn name(s: &str) -> String {
    s.to_string()
}

#[test]
fn fixed_symbols_are_written_by_name() {
    assert_eq!(Symbol::Sp.text(), "SP");
    assert_eq!(Symbol::Lcl.text(), "LCL");
    assert_eq!(Symbol::Arg.text(), "ARG");
    assert_eq!(Symbol::This.text(), "THIS");
    assert_eq!(Symbol::That.text(), "THAT");
    assert_eq!(Symbol::Idle.text(), "Sys.init.loop");
}

#[test]
fn numbers_are_written_in_base_ten() {
    assert_eq!(Symbol::Value(0).text(), "0");
    assert_eq!(Symbol::Value(13).text(), "13");
    assert_eq!(Symbol::Value(65540).text(), "65540");
}

#[test]
fn static_variable_carries_unit_and_index() {
    assert_eq!(Symbol::Static { unit: name("fakefile.vm"), index: 3 }.text(), "fakefile.vm.3");
}

#[test]
fn labels_carry_their_function() {
    assert_eq!(Symbol::Entry { function: name("Main.fib") }.text(), "fn.Main.fib");
    assert_eq!(
        Symbol::Scoped { function: name("Main.fib"), label: name("LOOP") }.text(),
        "Main.fib:LOOP"
    );
    assert_eq!(
        Symbol::Minted { function: name("Main.fib"), mark: Mark::IfTrue, id: 12 }.text(),
        "iftrue.12.Main.fib"
    );
    assert_eq!(
        Symbol::Minted { function: name("Main.fib"), mark: Mark::Return, id: 3 }.text(),
        "return.3.Main.fib"
    );
    assert_eq!(
        Symbol::Minted { function: name("f"), mark: Mark::LocalsTop, id: 1 }.text(),
        "local_vars_top.1.f"
    );
    assert_eq!(
        Symbol::Minted { function: name("f"), mark: Mark::LocalsDone, id: 1 }.text(),
        "local_vars_done.1.f"
    );
}

#[test]
fn copy_equals_the_symbol() {
    let symbols = [
        Symbol::Sp,
        Symbol::Value(7),
        Symbol::Static { unit: name("u"), index: 1 },
        Symbol::Entry { function: name("f") },
        Symbol::Scoped { function: name("f"), label: name("l") },
        Symbol::Minted { function: name("f"), mark: Mark::Return, id: 9 },
        Symbol::Idle,
    ];
    for s in symbols.iter() {
        assert_eq!(&s.copy(), s);
    }
}

#[test]
fn instructions_are_written_as_assembly() {
    assert_eq!(Instr::At(Symbol::Sp).text(), "@SP");
    assert_eq!(Instr::At(Symbol::Value(256)).text(), "@256");
    assert_eq!(Instr::Label(Symbol::Entry { function: name("f") }).text(), "(fn.f)");
    assert_eq!(
        Instr::Compute { dest: Dest::AM, comp: Comp::MMinusOne, jump: Jump::Never }.text(),
        "AM=M-1"
    );
    assert_eq!(
        Instr::Compute { dest: Dest::Null, comp: Comp::Zero, jump: Jump::Jmp }.text(),
        "0;JMP"
    );
    assert_eq!(
        Instr::Compute { dest: Dest::D, comp: Comp::DMinusOne, jump: Jump::Jlt }.text(),
        "D=D-1;JLT"
    );
}

#[test]
fn every_destination_is_written() {
    let all = [
        (Dest::Null, "D"),
        (Dest::M, "M=D"),
        (Dest::D, "D=D"),
        (Dest::MD, "MD=D"),
        (Dest::A, "A=D"),
        (Dest::AM, "AM=D"),
        (Dest::AD, "AD=D"),
        (Dest::AMD, "AMD=D"),
    ];
    for (dest, text) in all {
        assert_eq!(Instr::Compute { dest, comp: Comp::D, jump: Jump::Never }.text(), text);
    }
}

#[test]
fn every_computation_is_written() {
    let all = [
        (Comp::Zero, "0"),
        (Comp::One, "1"),
        (Comp::MinusOne, "-1"),
        (Comp::D, "D"),
        (Comp::A, "A"),
        (Comp::M, "M"),
        (Comp::NotD, "!D"),
        (Comp::NotA, "!A"),
        (Comp::NotM, "!M"),
        (Comp::NegD, "-D"),
        (Comp::NegA, "-A"),
        (Comp::NegM, "-M"),
        (Comp::DPlusOne, "D+1"),
        (Comp::APlusOne, "A+1"),
        (Comp::MPlusOne, "M+1"),
        (Comp::DMinusOne, "D-1"),
        (Comp::AMinusOne, "A-1"),
        (Comp::MMinusOne, "M-1"),
        (Comp::DPlusA, "D+A"),
        (Comp::DPlusM, "D+M"),
        (Comp::DMinusA, "D-A"),
        (Comp::DMinusM, "D-M"),
        (Comp::AMinusD, "A-D"),
        (Comp::MMinusD, "M-D"),
        (Comp::DAndA, "D&A"),
        (Comp::DAndM, "D&M"),
        (Comp::DOrA, "D|A"),
        (Comp::DOrM, "D|M"),
    ];
    for (comp, text) in all {
        assert_eq!(
            Instr::Compute { dest: Dest::M, comp, jump: Jump::Never }.text(),
            format!("M={}", text)
        );
    }
}

#[test]
fn every_jump_is_written() {
    let all = [
        (Jump::Never, "D"),
        (Jump::Jgt, "D;JGT"),
        (Jump::Jeq, "D;JEQ"),
        (Jump::Jge, "D;JGE"),
        (Jump::Jlt, "D;JLT"),
        (Jump::Jne, "D;JNE"),
        (Jump::Jle, "D;JLE"),
        (Jump::Jmp, "D;JMP"),
    ];
    for (jump, text) in all {
        assert_eq!(Instr::Compute { dest: Dest::Null, comp: Comp::D, jump }.text(), text);
    }
}

#[test]
fn what_is_not_supported_is_flagged() {
    assert_eq!(
        Instr::Unsupported { what: Construct::Segment, name: name("heap") }.text(),
        "!!! unimplemented segment: heap"
    );
    assert_eq!(
        Instr::Unsupported { what: Construct::Instruction, name: name("mul") }.text(),
        "!!! unsupported instruction type: mul"
    );
}

#[test]
fn note_tells_line_and_words() {
    let note = Instr::Note { line: 12, words: vec![name("push"), name("constant"), name("7")] };
    assert_eq!(note.text(), "// line 12: push constant 7 ");
    assert_eq!(Instr::Note { line: 0, words: vec![] }.text(), "// line 0: ");
}

#[test]
fn code_is_printed_line_by_line() {
    let code = vec![
        Instr::At(Symbol::Sp),
        Instr::Compute { dest: Dest::A, comp: Comp::MMinusOne, jump: Jump::Never },
        Instr::Compute { dest: Dest::M, comp: Comp::NegM, jump: Jump::Never },
    ];
    assert_eq!(print_code(&code), vec!["@SP", "A=M-1", "M=-M"]);
    assert_eq!(print_code(&Vec::new()), Vec::<String>::new());
}
