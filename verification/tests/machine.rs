use std::collections::HashMap;
use vm_translator::context::Context;
use vm_translator::program::translate_unit;
use vm_translator::target::print_code;
use vm_translator::translate::process_line;

// A small model of the target machine, to run translated code on: 16-bit
// words in two's complement, 32K words of memory, and an assembler that puts
// variables from cell 16 on.

#[derive(Clone, Copy, Debug)]
enum Op {
    Load(i16),
    Compute { dest: (bool, bool, bool), comp: [u8; 3], len: usize, jump: u8 },
}

struct Cpu {
    a: i16,
    d: i16,
    ram: Vec<i16>,
    steps: usize,
}

fn assemble(text: &[String]) -> Vec<Op> {
    let lines: Vec<&str> =
        text.iter().map(|l| l.as_str()).filter(|l| !l.starts_with("//")).collect();
    let mut symbols: HashMap<String, i16> = HashMap::new();
    for (name, value) in [("SP", 0), ("LCL", 1), ("ARG", 2), ("THIS", 3), ("THAT", 4)] {
        symbols.insert(name.to_string(), value);
    }
    let mut place = 0;
    for line in &lines {
        if line.starts_with('(') {
            let name = &line[1..line.len() - 1];
            assert!(symbols.insert(name.to_string(), place).is_none(), "label {} twice", name);
        } else {
            place += 1;
        }
    }
    let mut next_variable = 16;
    let mut ops = Vec::new();
    for line in &lines {
        if line.starts_with('(') {
            continue;
        }
        if let Some(name) = line.strip_prefix('@') {
            let value = match name.parse::<i16>() {
                Ok(n) => n,
                Err(_) => *symbols.entry(name.to_string()).or_insert_with(|| {
                    next_variable += 1;
                    next_variable - 1
                }),
            };
            ops.push(Op::Load(value));
            continue;
        }
        let (rest, jump) = match line.split_once(';') {
            Some((rest, jump)) => (rest, jump),
            None => (*line, ""),
        };
        let (dest, comp) = match rest.split_once('=') {
            Some((dest, comp)) => (dest, comp),
            None => ("", rest),
        };
        let jump = match jump {
            "" => 0,
            "JGT" => 1,
            "JEQ" => 2,
            "JGE" => 3,
            "JLT" => 4,
            "JNE" => 5,
            "JLE" => 6,
            "JMP" => 7,
            other => panic!("jump {}", other),
        };
        let mut bytes = [0u8; 3];
        bytes[..comp.len()].copy_from_slice(comp.as_bytes());
        ops.push(Op::Compute {
            dest: (dest.contains('A'), dest.contains('D'), dest.contains('M')),
            comp: bytes,
            len: comp.len(),
            jump,
        });
    }
    ops
}

fn value(comp: &str, a: i16, d: i16, m: i16) -> i16 {
    match comp {
        "0" => 0,
        "1" => 1,
        "-1" => -1,
        "D" => d,
        "A" => a,
        "M" => m,
        "!D" => !d,
        "!A" => !a,
        "!M" => !m,
        "-D" => d.wrapping_neg(),
        "-A" => a.wrapping_neg(),
        "-M" => m.wrapping_neg(),
        "D+1" => d.wrapping_add(1),
        "A+1" => a.wrapping_add(1),
        "M+1" => m.wrapping_add(1),
        "D-1" => d.wrapping_sub(1),
        "A-1" => a.wrapping_sub(1),
        "M-1" => m.wrapping_sub(1),
        "D+A" => d.wrapping_add(a),
        "D+M" => d.wrapping_add(m),
        "D-A" => d.wrapping_sub(a),
        "D-M" => d.wrapping_sub(m),
        "A-D" => a.wrapping_sub(d),
        "M-D" => m.wrapping_sub(d),
        "D&A" => d & a,
        "D&M" => d & m,
        "D|A" => d | a,
        "D|M" => d | m,
        other => panic!("computation {}", other),
    }
}

impl Cpu {
    fn new() -> Cpu {
        Cpu { a: 0, d: 0, ram: vec![0; 32768], steps: 0 }
    }

    fn sp(&self) -> i16 {
        self.ram[0]
    }

    fn top(&self) -> i16 {
        self.ram[self.ram[0] as usize - 1]
    }

    // Runs from the first instruction until control leaves the code or
    // reaches a jump to itself.
    fn run(&mut self, ops: &[Op]) {
        let mut pc = 0;
        while pc < ops.len() {
            self.steps += 1;
            assert!(self.steps < 1_000_000, "the program does not end");
            match ops[pc] {
                Op::Load(n) => {
                    self.a = n;
                    pc += 1;
                }
                Op::Compute { dest, comp, len, jump } => {
                    let comp = std::str::from_utf8(&comp[..len]).unwrap();
                    let reads = comp.contains('M');
                    let m = if reads || dest.2 { self.ram[self.a as usize] } else { 0 };
                    let v = value(comp, self.a, self.d, m);
                    let target = self.a;
                    if dest.2 {
                        self.ram[target as usize] = v;
                    }
                    if dest.0 {
                        self.a = v;
                    }
                    if dest.1 {
                        self.d = v;
                    }
                    let taken = match jump {
                        0 => false,
                        1 => v > 0,
                        2 => v == 0,
                        3 => v >= 0,
                        4 => v < 0,
                        5 => v != 0,
                        6 => v <= 0,
                        _ => true,
                    };
                    if taken {
                        if target as usize + 1 == pc {
                            return;
                        }
                        pc = target as usize;
                    } else {
                        pc += 1;
                    }
                }
            }
        }
    }
}

// Translates the lines without a prologue and runs them on a machine whose
// stack is empty and whose segments lie apart.
fn run_lines(lines: &[&str]) -> Cpu {
    let mut ctx = Context::new("Test.vm");
    let mut text = Vec::new();
    for (number, line) in lines.iter().enumerate() {
        text.extend(print_code(&process_line(line, number, &mut ctx).unwrap()));
    }
    let mut cpu = Cpu::new();
    cpu.ram[0] = 256;
    cpu.ram[1] = 300;
    cpu.ram[2] = 400;
    cpu.ram[3] = 3000;
    cpu.ram[4] = 3010;
    cpu.run(&assemble(&text));
    cpu
}

// Translates the lines as a program and runs it from the prologue on.
fn run_program(lines: &[&str]) -> Cpu {
    let source: Vec<String> = lines.iter().map(|l| l.to_string()).collect();
    let text = translate_unit(&source, "Test.vm").unwrap();
    let mut cpu = Cpu::new();
    cpu.run(&assemble(&text));
    cpu
}

#[test]
fn equal_values_compare_equal() {
    let cpu = run_lines(&["push constant 7", "push constant 7", "eq"]);
    assert_eq!(cpu.top(), -1);
    assert_eq!(cpu.sp(), 257);
}

#[test]
fn different_values_do_not_compare_equal() {
    let cpu = run_lines(&["push constant 7", "push constant 8", "eq"]);
    assert_eq!(cpu.top(), 0);
    assert_eq!(cpu.sp(), 257);
}

#[test]
fn five_is_greater_than_three() {
    assert_eq!(run_lines(&["push constant 5", "push constant 3", "gt"]).top(), -1);
    assert_eq!(run_lines(&["push constant 3", "push constant 5", "gt"]).top(), 0);
    assert_eq!(run_lines(&["push constant 5", "push constant 5", "gt"]).top(), 0);
}

#[test]
fn three_is_less_than_five() {
    assert_eq!(run_lines(&["push constant 3", "push constant 5", "lt"]).top(), -1);
    assert_eq!(run_lines(&["push constant 5", "push constant 3", "lt"]).top(), 0);
    assert_eq!(run_lines(&["push constant 5", "push constant 5", "lt"]).top(), 0);
}

#[test]
fn ten_minus_three_is_seven() {
    let cpu = run_lines(&["push constant 10", "push constant 3", "sub"]);
    assert_eq!(cpu.top(), 7);
    assert_eq!(cpu.sp(), 257);
}

#[test]
fn binary_operators_take_x_below_y() {
    assert_eq!(run_lines(&["push constant 10", "push constant 3", "add"]).top(), 13);
    assert_eq!(run_lines(&["push constant 3", "push constant 10", "sub"]).top(), -7);
    assert_eq!(run_lines(&["push constant 12", "push constant 10", "and"]).top(), 8);
    assert_eq!(run_lines(&["push constant 12", "push constant 10", "or"]).top(), 14);
}

#[test]
fn unary_operators_keep_the_depth() {
    let cpu = run_lines(&["push constant 5", "neg"]);
    assert_eq!((cpu.top(), cpu.sp()), (-5, 257));
    let cpu = run_lines(&["push constant 5", "not"]);
    assert_eq!((cpu.top(), cpu.sp()), (-6, 257));
}

#[test]
fn several_comparisons_do_not_collide() {
    let cpu = run_lines(&[
        "push constant 1",
        "push constant 1",
        "eq",
        "push constant 2",
        "push constant 1",
        "eq",
        "push constant 2",
        "push constant 1",
        "gt",
    ]);
    assert_eq!(cpu.sp(), 259);
    assert_eq!(&cpu.ram[256..259], &[-1, 0, -1]);
}

#[test]
fn stack_pointer_moves_by_pushes_less_pops() {
    let lines = [
        "push constant 1",
        "push constant 2",
        "push constant 3",
        "pop local 0",
        "push local 0",
        "push argument 1",
        "pop temp 7",
        "pop static 4",
        "push pointer 1",
        "pop that 2",
        "pop this 0",
        "push static 4",
        "push temp 7",
        "pop pointer 0",
        "pop argument 3",
        "push that 1",
    ];
    for n in 0..=lines.len() {
        let cpu = run_lines(&lines[..n]);
        let pushes = lines[..n].iter().filter(|l| l.starts_with("push")).count() as i16;
        let pops = lines[..n].iter().filter(|l| l.starts_with("pop")).count() as i16;
        assert_eq!(cpu.sp(), 256 + pushes - pops, "after {} lines", n);
    }
}

#[test]
fn pop_writes_the_variable_and_push_reads_it() {
    let cpu = run_lines(&[
        "push constant 11",
        "pop local 2",
        "push constant 12",
        "pop argument 3",
        "push constant 13",
        "pop this 4",
        "push constant 14",
        "pop that 5",
        "push constant 15",
        "pop temp 6",
        "push constant 16",
        "pop static 7",
        "push local 2",
        "push argument 3",
        "push this 4",
        "push that 5",
        "push temp 6",
        "push static 7",
    ]);
    assert_eq!(cpu.ram[302], 11);
    assert_eq!(cpu.ram[403], 12);
    assert_eq!(cpu.ram[3004], 13);
    assert_eq!(cpu.ram[3015], 14);
    assert_eq!(cpu.ram[11], 15);
    assert_eq!(cpu.ram[16], 16);
    assert_eq!(&cpu.ram[256..262], &[11, 12, 13, 14, 15, 16]);
    assert_eq!(&cpu.ram[1..5], &[300, 400, 3000, 3010]);
}

#[test]
fn pointer_segment_is_this_and_that() {
    let cpu = run_lines(&["push constant 3030", "pop pointer 0", "push constant 3040", "pop pointer 1"]);
    assert_eq!(&cpu.ram[3..5], &[3030, 3040]);
    assert_eq!(cpu.sp(), 256);
}

#[test]
fn if_goto_jumps_unless_zero() {
    let taken = run_lines(&[
        "push constant 1",
        "push constant 5",
        "if-goto SKIP",
        "push constant 100",
        "label SKIP",
    ]);
    assert_eq!((taken.sp(), taken.top()), (257, 1));
    let not_taken = run_lines(&[
        "push constant 1",
        "push constant 0",
        "if-goto SKIP",
        "push constant 100",
        "label SKIP",
    ]);
    assert_eq!((not_taken.sp(), not_taken.top()), (258, 100));
}

#[test]
fn goto_jumps_always() {
    let cpu = run_lines(&["push constant 1", "goto SKIP", "push constant 100", "label SKIP"]);
    assert_eq!((cpu.sp(), cpu.top()), (257, 1));
}

#[test]
fn function_head_pushes_zeros_for_its_locals() {
    for locals in [0usize, 1, 2, 5] {
        let head = format!("function f {}", locals);
        let mut cpu_lines = vec!["push constant 9"];
        cpu_lines.push(&head);
        let mut ctx = Context::new("Test.vm");
        let mut text = Vec::new();
        for (number, line) in cpu_lines.iter().enumerate() {
            text.extend(print_code(&process_line(line, number, &mut ctx).unwrap()));
        }
        let mut cpu = Cpu::new();
        cpu.ram[0] = 256;
        for cell in 256..270 {
            cpu.ram[cell] = 77;
        }
        cpu.run(&assemble(&text));
        assert_eq!(cpu.sp() as usize, 257 + locals);
        assert_eq!(cpu.ram[256], 9);
        assert!(cpu.ram[257..257 + locals].iter().all(|v| *v == 0));
        assert_eq!(cpu.ram[257 + locals], 77);
    }
}

#[test]
fn call_and_return_leave_the_result_in_place_of_the_arguments() {
    for (args, locals) in [(0, 0), (0, 3), (1, 0), (2, 2), (3, 1)] {
        let mut lines: Vec<String> = vec!["push constant 1000".to_string()];
        for k in 0..args {
            lines.push(format!("push constant {}", 20 + k));
        }
        lines.push(format!("call f {}", args));
        lines.push("label END".to_string());
        lines.push("goto END".to_string());
        lines.push(format!("function f {}", locals));
        lines.push("push constant 3020".to_string());
        lines.push("pop pointer 0".to_string());
        lines.push("push constant 3030".to_string());
        lines.push("pop pointer 1".to_string());
        if locals > 0 {
            lines.push("push constant 5".to_string());
            lines.push("pop local 0".to_string());
        }
        lines.push("push constant 42".to_string());
        lines.push("return".to_string());
        let borrowed: Vec<&str> = lines.iter().map(|l| l.as_str()).collect();
        let cpu = run_lines(&borrowed);
        assert_eq!(cpu.sp(), 256 + 1 + 1, "args {} locals {}", args, locals);
        assert_eq!(cpu.top(), 42);
        assert_eq!(cpu.ram[256], 1000);
        assert_eq!(&cpu.ram[1..5], &[300, 400, 3000, 3010]);
    }
}

#[test]
fn callee_sees_its_arguments_and_cleared_locals() {
    let cpu = run_lines(&[
        "push constant 30",
        "push constant 12",
        "call f 2",
        "label END",
        "goto END",
        "function f 2",
        "push argument 0",
        "push argument 1",
        "sub",
        "push local 0",
        "add",
        "push local 1",
        "add",
        "return",
    ]);
    assert_eq!(cpu.sp(), 257);
    assert_eq!(cpu.top(), 18);
}

#[test]
fn program_runs_from_the_prologue() {
    let cpu = run_program(&[
        "function Sys.init 1",
        "push constant 6",
        "call Main.double 1",
        "pop local 0",
        "label DONE",
        "goto DONE",
        "function Main.double 0",
        "push argument 0",
        "push argument 0",
        "add",
        "return",
    ]);
    // The frame of the prologue's call lies at 256, the one local above it.
    assert_eq!(cpu.ram[1], 261);
    assert_eq!(cpu.ram[2], 256);
    assert_eq!(cpu.ram[261], 12);
    assert_eq!(cpu.sp(), 262);
}

#[test]
fn entry_that_returns_ends_in_the_idle_loop() {
    let cpu = run_program(&["function Sys.init 0", "push constant 1", "return"]);
    assert_eq!(cpu.sp(), 257);
    assert_eq!(cpu.top(), 1);
}

#[test]
fn recursion_keeps_its_frames_apart() {
    let cpu = run_program(&[
        "function Sys.init 0",
        "push constant 10",
        "call Main.fib 1",
        "label END",
        "goto END",
        "function Main.fib 0",
        "push argument 0",
        "push constant 2",
        "lt",
        "if-goto BASE",
        "push argument 0",
        "push constant 1",
        "sub",
        "call Main.fib 1",
        "push argument 0",
        "push constant 2",
        "sub",
        "call Main.fib 1",
        "add",
        "return",
        "label BASE",
        "push argument 0",
        "return",
    ]);
    assert_eq!(cpu.top(), 55);
    assert_eq!(cpu.sp(), 262);
}

#[test]
fn same_label_in_two_functions_does_not_interfere() {
    let cpu = run_program(&[
        "function Sys.init 0",
        "push constant 0",
        "if-goto L",
        "push constant 1",
        "call Main.g 1",
        "goto L",
        "push constant 99",
        "label L",
        "label END",
        "goto END",
        "function Main.g 0",
        "push argument 0",
        "if-goto L",
        "push constant 77",
        "return",
        "label L",
        "push constant 8",
        "return",
    ]);
    assert_eq!(cpu.top(), 8);
    assert_eq!(cpu.sp(), 262);
}
