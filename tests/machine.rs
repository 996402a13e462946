use fsk_core::opcode::ArithOp;
use fsk_core::value::VMValue;
use fsk_core::vm::{Exit, Fault, Step, VM};

fn num(x: f64) -> VMValue {
    VMValue::Number(x.to_bits())
}

fn text(s: &str) -> VMValue {
    VMValue::String(s.to_string())
}

fn func(entry: usize, arity: u8) -> VMValue {
    VMValue::Function { bytecode_idx: entry, arity }
}

fn as_num(v: &VMValue) -> f64 {
    match v {
        VMValue::Number(bits) => f64::from_bits(*bits),
        other => panic!("not a number: {:?}", other),
    }
}

/// Runs a program to its end, doing the host's part: binary64 arithmetic and
/// collecting what is printed.
fn drive(vm: &mut VM, code: &[u8]) -> (Vec<VMValue>, Exit) {
    let mut printed = Vec::new();
    loop {
        match vm.run(code, 1_000_000) {
            Step::Continue => panic!("the program did not finish"),
            Step::Print { reg } => printed.push(vm.register(reg).deep_clone()),
            Step::Arith { op, dest, lhs, rhs } => {
                let (a, b) = (f64::from_bits(lhs), f64::from_bits(rhs));
                let r = match op {
                    ArithOp::Add => a + b,
                    ArithOp::Sub => a - b,
                    ArithOp::Mult => a * b,
                    ArithOp::Div => a / b,
                };
                vm.set_number(dest, r.to_bits());
            }
            Step::Done(exit) => return (printed, exit),
        }
    }
}

fn run_program(code: &[u8], constants: Vec<VMValue>) -> (VM, Vec<VMValue>, Exit) {
    let mut vm = VM::new();
    vm.load(constants);
    let (printed, exit) = drive(&mut vm, code);
    (vm, printed, exit)
}

#[test]
fn add_two_constants_prints_seven() {
    let code = [0, 0, 0, 0, 1, 1, 1, 2, 0, 1, 5, 2, 255];
    let (_, printed, exit) = run_program(&code, vec![num(3.0), num(4.0)]);
    assert_eq!(printed, vec![num(7.0)]);
    assert_eq!(format!("{}", as_num(&printed[0])), "7");
    assert_eq!(exit, Exit::Halted);
}

#[test]
fn global_survives_call_and_return() {
    let code = [
        0, 0, 1, // LoadConst r0, #1
        20, 0, 0, // StoreGlobal "x", r0
        0, 1, 2, // LoadConst r1, #2 (function)
        17, 2, 1, 0, // Call r2, r1, 0
        19, 5, 0, // LoadGlobal r5, "x"
        255, // Halt
        0, 0, 3, // callee: LoadConst r0, #3
        18, 0, // Return r0
    ];
    let consts = vec![text("x"), num(42.0), func(17, 0), text("inner")];
    let (vm, _, exit) = run_program(&code, consts);
    assert_eq!(exit, Exit::Halted);
    assert_eq!(*vm.register(5), num(42.0));
    assert_eq!(*vm.register(2), text("inner"));
    assert_eq!(vm.global(&"x".to_string()), Some(num(42.0)));
    assert_eq!(vm.global(&"y".to_string()), None);
    assert_eq!(vm.depth(), 0);
}

#[test]
fn load_global_of_unbound_name_is_nil() {
    let code = [0, 1, 1, 19, 1, 0, 255];
    let (vm, _, _) = run_program(&code, vec![text("missing"), num(1.0)]);
    assert_eq!(*vm.register(1), VMValue::Nil);
}

#[test]
fn wrong_argument_count_halts_before_callee() {
    let code = [
        0, 0, 0, // LoadConst r0, #0 (function of arity 0)
        0, 1, 1, // LoadConst r1, #1
        17, 2, 0, 1, // Call r2, r0, 1
        255, // Halt
        5, 0, // callee: Print r0
        18, 0, // Return r0
    ];
    let (vm, printed, exit) = run_program(&code, vec![func(11, 0), num(5.0)]);
    assert!(printed.is_empty());
    assert_eq!(
        exit,
        Exit::Fault(Fault::ArityMismatch { at: 6, expected: 0, got: 1 })
    );
    assert_eq!(vm.instruction_pointer(), 6);
    assert_eq!(vm.depth(), 0);
}

#[test]
fn calling_a_non_function_is_fatal() {
    let code = [0, 0, 0, 17, 1, 0, 0, 255];
    let (_, _, exit) = run_program(&code, vec![num(1.0)]);
    assert_eq!(exit, Exit::Fault(Fault::NotAFunction { at: 3, reg: 0 }));
}

/// f(n) = if n == 0 { 0 } else { f(n - 1) + 1 }, called with `n`.
fn recursion_program(n: f64) -> (Vec<u8>, Vec<VMValue>) {
    let code = vec![
        0, 0, 0, // LoadConst r0, f
        0, 1, 1, // LoadConst r1, n
        17, 2, 0, 1, // Call r2, r0, 1
        5, 2, // Print r2
        255, // Halt
        0, 1, 2, // 13: LoadConst r1, 0.0
        8, 2, 0, 1, // Equal r2, r0, r1
        7, 2, 25, // JumpIfFalse r2, 25
        18, 1, // Return r1
        0, 3, 3, // 25: LoadConst r3, 1.0
        2, 4, 0, 3, // Sub r4, r0, r3
        0, 5, 0, // LoadConst r5, f
        11, 6, 4, // Move r6, r4
        17, 7, 5, 1, // Call r7, r5, 1
        1, 8, 7, 3, // Add r8, r7, r3
        18, 8, // Return r8
    ];
    (code, vec![func(13, 1), num(n), num(0.0), num(1.0)])
}

#[test]
fn recursion_returns_through_every_depth() {
    let (code, consts) = recursion_program(100.0);
    let (vm, printed, exit) = run_program(&code, consts);
    assert_eq!(exit, Exit::Halted);
    assert_eq!(printed, vec![num(100.0)]);
    assert_eq!(vm.depth(), 0);
    assert_eq!(vm.base_register(), 0);
}

#[test]
fn recursion_past_the_register_file_is_fatal() {
    let (code, consts) = recursion_program(1000.0);
    let (vm, printed, exit) = run_program(&code, consts);
    assert!(printed.is_empty());
    assert!(matches!(exit, Exit::Fault(Fault::RegisterOutOfRange { .. })));
    assert!(vm.depth() > 600);
}

#[test]
fn arithmetic_on_string_and_number_leaves_destination() {
    let code = [0, 0, 0, 0, 1, 1, 0, 2, 2, 1, 2, 0, 1, 3, 2, 1, 0, 255];
    let mut vm = VM::new();
    vm.load(vec![text("a"), num(1.0), num(9.0)]);
    for _ in 0..3 {
        assert_eq!(vm.step(&code), Step::Continue);
    }
    // Add r2, r0, r1 and Mult r2, r1, r0: no arithmetic is asked of the host
    assert_eq!(vm.step(&code), Step::Continue);
    assert_eq!(vm.step(&code), Step::Continue);
    assert_eq!(*vm.register(2), num(9.0));
    assert_eq!(vm.step(&code), Step::Done(Exit::Halted));
}

#[test]
fn arithmetic_on_numbers_asks_the_host() {
    let code = [0, 0, 0, 0, 1, 1, 4, 2, 0, 1, 255];
    let mut vm = VM::new();
    vm.load(vec![num(1.0), num(4.0)]);
    assert_eq!(vm.run(&code, 10), Step::Arith {
        op: ArithOp::Div,
        dest: 2,
        lhs: 1.0f64.to_bits(),
        rhs: 4.0f64.to_bits(),
    });
    assert_eq!(*vm.register(2), VMValue::Nil);
    assert_eq!(vm.instruction_pointer(), 10);
}

#[test]
fn arithmetic_inverse_recovers_operand() {
    // r2 = (r0 + r1) - r1, r3 = (r0 * r1) / r1
    let code = [0, 0, 0, 0, 1, 1, 1, 2, 0, 1, 2, 2, 2, 1, 3, 3, 0, 1, 4, 3, 3, 1, 255];
    for (a, b) in [(3.5, 2.25), (-1e10, 7.0), (0.1, 0.2), (123456.789, -0.001)] {
        let (vm, _, exit) = run_program(&code, vec![num(a), num(b)]);
        assert_eq!(exit, Exit::Halted);
        assert!((as_num(vm.register(2)) - a).abs() <= 1e-9 * a.abs().max(1.0));
        assert!((as_num(vm.register(3)) - a).abs() <= 1e-9 * a.abs().max(1.0));
    }
}

#[test]
fn object_round_trip_and_absent_key() {
    let code = [
        12, 0, // CreateObj r0
        0, 1, 1, // LoadConst r1, 5.0
        13, 0, 0, 1, // SetProp r0, "key", r1
        14, 2, 0, 0, // GetProp r2, r0, "key"
        14, 3, 0, 2, // GetProp r3, r0, "other"
        255,
    ];
    let (vm, _, exit) = run_program(&code, vec![text("key"), num(5.0), text("other")]);
    assert_eq!(exit, Exit::Halted);
    assert_eq!(*vm.register(2), num(5.0));
    assert_eq!(*vm.register(3), VMValue::Nil);
    assert_eq!(
        *vm.register(0),
        VMValue::Object(vec![("key".to_string(), num(5.0))])
    );
}

#[test]
fn set_prop_overwrites_existing_key() {
    let code = [12, 0, 0, 1, 1, 13, 0, 0, 1, 0, 1, 2, 13, 0, 0, 1, 14, 2, 0, 0, 255];
    let (vm, _, _) = run_program(&code, vec![text("k"), num(1.0), num(2.0)]);
    assert_eq!(*vm.register(2), num(2.0));
    assert_eq!(*vm.register(0), VMValue::Object(vec![("k".to_string(), num(2.0))]));
}

#[test]
fn get_prop_on_non_object_is_nil_and_set_prop_is_noop() {
    let code = [0, 0, 1, 13, 0, 0, 0, 14, 1, 0, 0, 255];
    let (vm, _, _) = run_program(&code, vec![text("k"), num(3.0)]);
    assert_eq!(*vm.register(0), num(3.0));
    assert_eq!(*vm.register(1), VMValue::Nil);
}

#[test]
fn arrays_are_created_and_pushed() {
    let code = [15, 0, 0, 1, 0, 16, 0, 1, 16, 0, 1, 16, 2, 1, 255];
    let (vm, _, _) = run_program(&code, vec![num(8.0)]);
    assert_eq!(*vm.register(0), VMValue::Array(vec![num(8.0), num(8.0)]));
    assert_eq!(*vm.register(2), VMValue::Nil);
}

fn jump_taken(cond: VMValue) -> bool {
    // LoadConst r0, #0; JumpIfFalse r0, 9; Print r0; Halt; 9: Halt
    let code = [0, 0, 0, 7, 0, 9, 5, 0, 255, 255];
    let mut vm = VM::new();
    vm.load(vec![cond]);
    assert_eq!(vm.step(&code), Step::Continue);
    assert_eq!(vm.step(&code), Step::Continue);
    vm.instruction_pointer() == 9
}

#[test]
fn jump_if_false_follows_truthiness() {
    assert!(jump_taken(VMValue::Nil));
    assert!(jump_taken(num(0.0)));
    assert!(jump_taken(num(-0.0)));
    assert!(jump_taken(VMValue::Bool(false)));
    assert!(!jump_taken(text("")));
    assert!(!jump_taken(text("anything")));
    assert!(!jump_taken(VMValue::Bool(true)));
    assert!(!jump_taken(num(2.5)));
    assert!(!jump_taken(num(f64::NAN)));
    assert!(!jump_taken(VMValue::Array(vec![])));
    assert!(!jump_taken(func(0, 0)));
}

#[test]
fn jump_is_absolute() {
    let code = [6, 5, 0, 0, 0, 255];
    let mut vm = VM::new();
    vm.load(vec![num(1.0)]);
    assert_eq!(vm.step(&code), Step::Continue);
    assert_eq!(vm.instruction_pointer(), 5);
}

#[test]
fn comparisons_on_numbers_only() {
    let code = [0, 0, 0, 0, 1, 1, 9, 2, 0, 1, 10, 3, 0, 1, 0, 4, 2, 9, 5, 4, 0, 255];
    let (vm, _, _) = run_program(&code, vec![num(2.0), num(1.0), text("s")]);
    assert_eq!(*vm.register(2), VMValue::Bool(true));
    assert_eq!(*vm.register(3), VMValue::Bool(false));
    assert_eq!(*vm.register(4), text("s"));
}

#[test]
fn equal_compares_structurally() {
    let code = [0, 0, 0, 0, 1, 1, 8, 2, 0, 1, 8, 3, 0, 0, 255];
    let (vm, _, _) = run_program(&code, vec![num(0.0), num(-0.0)]);
    assert_eq!(*vm.register(2), VMValue::Bool(true));
    assert_eq!(*vm.register(3), VMValue::Bool(true));
    let (vm, _, _) = run_program(&code, vec![text("a"), text("b")]);
    assert_eq!(*vm.register(2), VMValue::Bool(false));
    assert_eq!(*vm.register(3), VMValue::Bool(true));
}

#[test]
fn equal_on_one_register_is_true_even_for_nan() {
    let code = [0, 0, 0, 8, 1, 0, 0, 255];
    let (vm, _, _) = run_program(&code, vec![num(f64::NAN)]);
    assert_eq!(*vm.register(1), VMValue::Bool(true));
}

#[test]
fn move_copies_value() {
    let code = [0, 0, 0, 11, 1, 0, 255];
    let (vm, _, _) = run_program(&code, vec![text("v")]);
    assert_eq!(*vm.register(1), text("v"));
    assert_eq!(*vm.register(0), text("v"));
}

#[test]
fn fatal_conditions_are_reported() {
    let (_, _, exit) = run_program(&[0, 0, 0, 99], vec![num(1.0)]);
    assert_eq!(exit, Exit::Fault(Fault::UnknownOpcode { at: 3, opcode: 99 }));
    let (_, _, exit) = run_program(&[1, 0, 1], vec![]);
    assert_eq!(exit, Exit::Fault(Fault::Truncated { at: 0 }));
    let (_, _, exit) = run_program(&[0, 0, 4], vec![num(1.0)]);
    assert_eq!(exit, Exit::Fault(Fault::ConstantOutOfRange { at: 0 }));
}

#[test]
fn end_of_stream_and_top_level_return() {
    let (_, _, exit) = run_program(&[0, 0, 0], vec![num(1.0)]);
    assert_eq!(exit, Exit::EndOfStream);
    let (vm, _, exit) = run_program(&[0, 3, 0, 18, 3], vec![num(6.0)]);
    assert_eq!(exit, Exit::Returned { reg: 3 });
    assert_eq!(*vm.register(3), num(6.0));
}

#[test]
fn terminal_step_repeats() {
    let code = [255];
    let mut vm = VM::new();
    vm.load(vec![]);
    assert_eq!(vm.step(&code), Step::Done(Exit::Halted));
    assert_eq!(vm.step(&code), Step::Done(Exit::Halted));
    assert_eq!(vm.instruction_pointer(), 0);
}

#[test]
fn fuel_bounds_a_run() {
    let code = [6, 0];
    let mut vm = VM::new();
    vm.load(vec![]);
    assert_eq!(vm.run(&code, 50), Step::Continue);
    assert_eq!(vm.instruction_pointer(), 0);
}
