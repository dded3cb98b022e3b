use vm_translator::arith::{binary_op, cmp_op, unary_op, BinaryOp, Relation, UnaryOp};
use vm_translator::bootstrap::{bootstrap, print_bootstrap};
use vm_translator::call::{call_op, function_op, return_op};
use vm_translator::flow::{goto_op, if_goto_op, label_op};
use vm_translator::segment::{
    pop_named_address, pop_op, pop_ram, pop_static, pop_virtual, push_name, push_named_address,
    push_op, push_ram, push_static, push_virtual, Segment,
};
use vm_translator::target::{print_code, Instr, Symbol};

fn text(code: Vec<Instr>) -> Vec<String> {
    print_code(&code)
}

const PUSH_D: [&str; 4] = ["@SP", "M=M+1", "A=M-1", "M=D"];
const POP_D: [&str; 3] = ["@SP", "AM=M-1", "D=M"];

fn lines(parts: &[&[&str]]) -> Vec<String> {
    parts.iter().flat_map(|part| part.iter().map(|line| line.to_string())).collect()
}

#[test]
fn binary_operators_work_on_the_two_topmost_values() {
    assert_eq!(text(binary_op(BinaryOp::Add)), vec!["@SP", "AM=M-1", "D=M", "A=A-1", "M=D+M"]);
    assert_eq!(text(binary_op(BinaryOp::Sub)), vec!["@SP", "AM=M-1", "D=M", "A=A-1", "M=M-D"]);
    assert_eq!(text(binary_op(BinaryOp::And)), vec!["@SP", "AM=M-1", "D=M", "A=A-1", "M=D&M"]);
    assert_eq!(text(binary_op(BinaryOp::Or)), vec!["@SP", "AM=M-1", "D=M", "A=A-1", "M=D|M"]);
}

#[test]
fn unary_operators_work_in_place() {
    assert_eq!(text(unary_op(UnaryOp::Neg)), vec!["@SP", "A=M-1", "M=-M"]);
    assert_eq!(text(unary_op(UnaryOp::Not)), vec!["@SP", "A=M-1", "M=!M"]);
}

#[test]
fn comparison_sets_true_and_jumps_over_false() {
    let expected = |jump: &str| {
        vec![
            "@SP".to_string(),
            "AM=M-1".to_string(),
            "D=M".to_string(),
            "A=A-1".to_string(),
            "D=M-D".to_string(),
            "M=-1".to_string(),
            "@iftrue.4.Main.f".to_string(),
            format!("D;{}", jump),
            "@SP".to_string(),
            "A=M-1".to_string(),
            "M=0".to_string(),
            "(iftrue.4.Main.f)".to_string(),
        ]
    };
    assert_eq!(text(cmp_op(Relation::Eq, "Main.f", 4)), expected("JEQ"));
    assert_eq!(text(cmp_op(Relation::Gt, "Main.f", 4)), expected("JGT"));
    assert_eq!(text(cmp_op(Relation::Lt, "Main.f", 4)), expected("JLT"));
}

#[test]
fn comparisons_with_different_numbers_have_different_labels() {
    let one = text(cmp_op(Relation::Eq, "f", 1));
    let two = text(cmp_op(Relation::Eq, "f", 2));
    assert_ne!(one[6], two[6]);
    assert_ne!(one[11], two[11]);
}

#[test]
fn push_virtual_reads_through_the_base() {
    assert_eq!(
        text(push_virtual(Symbol::Arg, 2)),
        lines(&[&["@2", "D=A", "@ARG", "A=M", "A=D+A", "D=M"], &PUSH_D])
    );
}

#[test]
fn push_named_address_reads_the_cell() {
    assert_eq!(text(push_named_address(Symbol::Lcl)), lines(&[&["@LCL", "D=M"], &PUSH_D]));
}

#[test]
fn push_name_reads_the_address() {
    assert_eq!(text(push_name(Symbol::Value(17))), lines(&[&["@17", "D=A"], &PUSH_D]));
}

#[test]
fn push_ram_adds_index_to_address() {
    assert_eq!(text(push_ram(5, 3)), lines(&[&["@8", "D=M"], &PUSH_D]));
    assert_eq!(text(push_ram(5, 65535)), lines(&[&["@65540", "D=M"], &PUSH_D]));
}

#[test]
fn push_static_names_unit_and_index() {
    assert_eq!(text(push_static("fakefile.vm", 4)), lines(&[&["@fakefile.vm.4", "D=M"], &PUSH_D]));
}

#[test]
fn push_op_resolves_every_segment() {
    let from = |base: &str| lines(&[&["@6", "D=A", base, "A=M", "A=D+A", "D=M"], &PUSH_D]);
    assert_eq!(text(push_op("argument", 6, "u")), from("@ARG"));
    assert_eq!(text(push_op("local", 6, "u")), from("@LCL"));
    assert_eq!(text(push_op("this", 6, "u")), from("@THIS"));
    assert_eq!(text(push_op("that", 6, "u")), from("@THAT"));
    assert_eq!(text(push_op("temp", 6, "u")), lines(&[&["@11", "D=M"], &PUSH_D]));
    assert_eq!(text(push_op("pointer", 1, "u")), lines(&[&["@4", "D=M"], &PUSH_D]));
    assert_eq!(text(push_op("static", 6, "u")), lines(&[&["@u.6", "D=M"], &PUSH_D]));
    assert_eq!(text(push_op("constant", 6, "u")), lines(&[&["@6", "D=A"], &PUSH_D]));
}

#[test]
fn push_on_unknown_segment_is_flagged() {
    assert_eq!(text(push_op("heap", 1, "u")), vec!["!!! unimplemented segment: heap"]);
    assert_eq!(text(push_op("Local", 1, "u")), vec!["!!! unimplemented segment: Local"]);
    assert_eq!(text(push_op("", 1, "u")), vec!["!!! unimplemented segment: "]);
}

#[test]
fn pop_virtual_keeps_the_address_in_the_scratch_cell() {
    assert_eq!(
        text(pop_virtual(Symbol::That, 5)),
        lines(&[&["@THAT", "D=M", "@5", "D=D+A", "@13", "M=D"], &POP_D, &["@13", "A=M", "M=D"]])
    );
}

#[test]
fn pop_named_address_writes_the_cell() {
    assert_eq!(text(pop_named_address(Symbol::Value(15))), lines(&[&POP_D, &["@15", "M=D"]]));
}

#[test]
fn pop_ram_adds_index_to_address() {
    assert_eq!(text(pop_ram(3, 1)), lines(&[&POP_D, &["@4", "M=D"]]));
}

#[test]
fn pop_static_names_unit_and_index() {
    assert_eq!(text(pop_static("fakefile.vm", 0)), lines(&[&POP_D, &["@fakefile.vm.0", "M=D"]]));
}

#[test]
fn pop_op_resolves_every_segment() {
    let into = |base: &str| {
        lines(&[&[base, "D=M", "@2", "D=D+A", "@13", "M=D"], &POP_D, &["@13", "A=M", "M=D"]])
    };
    assert_eq!(text(pop_op("argument", 2, "u")), into("@ARG"));
    assert_eq!(text(pop_op("local", 2, "u")), into("@LCL"));
    assert_eq!(text(pop_op("this", 2, "u")), into("@THIS"));
    assert_eq!(text(pop_op("that", 2, "u")), into("@THAT"));
    assert_eq!(text(pop_op("temp", 2, "u")), lines(&[&POP_D, &["@7", "M=D"]]));
    assert_eq!(text(pop_op("pointer", 0, "u")), lines(&[&POP_D, &["@3", "M=D"]]));
    assert_eq!(text(pop_op("static", 2, "u")), lines(&[&POP_D, &["@u.2", "M=D"]]));
}

#[test]
fn pop_into_constant_is_flagged() {
    assert_eq!(text(pop_op("constant", 2, "u")), vec!["!!! unimplemented segment: constant"]);
    assert_eq!(text(pop_op("stack", 2, "u")), vec!["!!! unimplemented segment: stack"]);
}

#[test]
fn segment_names_are_read() {
    assert_eq!(Segment::named("argument"), Some(Segment::Argument));
    assert_eq!(Segment::named("local"), Some(Segment::Local));
    assert_eq!(Segment::named("this"), Some(Segment::This));
    assert_eq!(Segment::named("that"), Some(Segment::That));
    assert_eq!(Segment::named("temp"), Some(Segment::Temp));
    assert_eq!(Segment::named("pointer"), Some(Segment::Pointer));
    assert_eq!(Segment::named("static"), Some(Segment::Static));
    assert_eq!(Segment::named("constant"), Some(Segment::Constant));
    assert_eq!(Segment::named("register"), None);
}

#[test]
fn virtual_segments_have_a_base_cell() {
    assert_eq!(Segment::Argument.base(), Some(Symbol::Arg));
    assert_eq!(Segment::Local.base(), Some(Symbol::Lcl));
    assert_eq!(Segment::This.base(), Some(Symbol::This));
    assert_eq!(Segment::That.base(), Some(Symbol::That));
    assert_eq!(Segment::Temp.base(), None);
    assert_eq!(Segment::Pointer.base(), None);
    assert_eq!(Segment::Static.base(), None);
    assert_eq!(Segment::Constant.base(), None);
}

#[test]
fn label_carries_the_function() {
    assert_eq!(text(label_op("LOOP", "Main.f")), vec!["(Main.f:LOOP)"]);
    assert_eq!(text(label_op("LOOP", "undefined")), vec!["(undefined:LOOP)"]);
}

#[test]
fn goto_jumps_to_the_label_of_the_function() {
    assert_eq!(text(goto_op("LOOP", "Main.f")), vec!["@Main.f:LOOP", "0;JMP"]);
}

#[test]
fn if_goto_pops_and_jumps_unless_zero() {
    assert_eq!(
        text(if_goto_op("END", "Main.f")),
        vec!["@SP", "AM=M-1", "D=M", "@Main.f:END", "D;JNE"]
    );
}

#[test]
fn same_label_in_two_functions_gives_two_symbols() {
    assert_ne!(text(label_op("L", "A.f")), text(label_op("L", "A.g")));
    assert_ne!(text(goto_op("L", "A.f"))[0], text(goto_op("L", "A.g"))[0]);
    assert_eq!(text(goto_op("L", "A.f"))[0], "@A.f:L");
    assert_eq!(text(label_op("L", "A.f"))[0], "(A.f:L)");
}

#[test]
fn function_without_locals_is_a_label() {
    assert_eq!(text(function_op("Main.f", 0, 9)), vec!["(fn.Main.f)"]);
}

#[test]
fn function_with_locals_clears_them_in_a_loop() {
    assert_eq!(
        text(function_op("Main.f", 3, 9)),
        vec![
            "(fn.Main.f)",
            "@3",
            "D=A",
            "(local_vars_top.9.Main.f)",
            "@local_vars_done.9.Main.f",
            "D=D-1;JLT",
            "@SP",
            "M=M+1",
            "A=M-1",
            "M=0",
            "@local_vars_top.9.Main.f",
            "0;JMP",
            "(local_vars_done.9.Main.f)",
        ]
    );
}

fn call_text(callee: &str, offset: &str, back: &str) -> Vec<String> {
    let load_back = format!("@{}", back);
    let entry = format!("@fn.{}", callee);
    let here = format!("({})", back);
    lines(&[
        &[&load_back, "D=A"],
        &PUSH_D,
        &["@LCL", "D=M"],
        &PUSH_D,
        &["@ARG", "D=M"],
        &PUSH_D,
        &["@THIS", "D=M"],
        &PUSH_D,
        &["@THAT", "D=M"],
        &PUSH_D,
        &["@SP", "D=M", offset, "D=D-A", "@ARG", "M=D"],
        &["@SP", "D=M", "@LCL", "M=D"],
        &[&entry, "0;JMP", &here],
    ])
}

#[test]
fn call_pushes_the_frame_and_jumps() {
    assert_eq!(
        text(call_op("Math.mul", 2, "Main.f", 7)),
        call_text("Math.mul", "@7", "return.7.Main.f")
    );
}

#[test]
fn call_with_the_most_arguments_does_not_overflow() {
    assert_eq!(text(call_op("g", 255, "f", 1)), call_text("g", "@260", "return.1.f"));
}

#[test]
fn two_calls_of_one_function_come_back_to_two_places() {
    let one = text(call_op("g", 0, "f", 1));
    let two = text(call_op("g", 0, "f", 2));
    assert_ne!(one[0], two[0]);
    assert_ne!(one[one.len() - 1], two[two.len() - 1]);
}

#[test]
fn return_takes_the_frame_down() {
    assert_eq!(
        text(return_op()),
        lines(&[
            &POP_D,
            &["@15", "M=D"],
            &["@ARG", "D=M", "@14", "M=D"],
            &["@LCL", "D=M", "@SP", "M=D"],
            &POP_D,
            &["@THAT", "M=D"],
            &POP_D,
            &["@THIS", "M=D"],
            &POP_D,
            &["@ARG", "M=D"],
            &POP_D,
            &["@LCL", "M=D"],
            &POP_D,
            &["@13", "M=D"],
            &["@14", "D=M", "@SP", "M=D"],
            &["@15", "D=M"],
            &PUSH_D,
            &["@13", "A=M", "0;JMP"],
        ])
    );
}

#[test]
fn bootstrap_sets_the_stack_and_calls_the_entry() {
    let expected = lines(&[
        &["@256", "D=A", "@SP", "M=D"],
        &call_text("Sys.init", "@5", "return.0.undefined")
            .iter()
            .map(|s| s.as_str())
            .collect::<Vec<&str>>(),
        &["(Sys.init.loop)", "@Sys.init.loop", "0;JMP"],
    ]);
    assert_eq!(print_bootstrap(), expected);
    assert_eq!(text(bootstrap()), expected);
}

#[test]
fn bootstrap_calls_the_entry_once() {
    let text = print_bootstrap();
    let jumps = text.windows(2).filter(|w| w[0] == "@fn.Sys.init" && w[1] == "0;JMP").count();
    assert_eq!(jumps, 1);
}
