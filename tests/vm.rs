use bytevm::data::{display, Data, HeapAddress};
use bytevm::instr::{Instruction, InstructionAddress, StackOffset};
use bytevm::vm::{arithmetic, ArithOp, Effect, Fault, Lines, SystemCalls, VM};

struct TestSysCall {
    prints: Vec<String>,
}

impl SystemCalls for TestSysCall {
    fn lines(&self) -> Lines {
        panic!("the emitted lines are a specification-only view; read `prints` instead")
    }

    fn print(&mut self, s: String) {
        self.prints.push(s);
    }
}

fn run_program(instructions: Vec<Instruction>, entry: usize) -> (VM, TestSysCall, Result<(), Fault>) {
    let mut sys = TestSysCall { prints: vec![] };
    let mut vm = VM::new(instructions, InstructionAddress(entry));
    let r = vm.run(&mut sys);
    (vm, sys, r)
}

#[test]
fn run_should_exit() {
    let mut sys = TestSysCall { prints: vec![] };
    let mut vm = VM::new(vec![Instruction::Exit], InstructionAddress(0));

    vm.run(&mut sys).unwrap();
}

#[test]
fn cons_bool_should_leave_bool_on_heap() {
    let mut sys = TestSysCall { prints: vec![] };
    let mut vm = VM::new(vec![Instruction::ConsBool(true), Instruction::Exit], InstructionAddress(0));

    vm.run(&mut sys).unwrap();

    let v = &vm.heap()[vm.return_pointer().0];

    assert!(matches!(v, Data::Bool(true)));
}

#[test]
fn run_should_print() {
    let mut sys = TestSysCall { prints: vec![] };
    let mut vm = VM::new(
        vec![
            Instruction::ConsBool(true),
            Instruction::PushReturnPointerToStack,
            Instruction::Print(StackOffset(0)),
            Instruction::Exit,
        ],
        InstructionAddress(0),
    );

    vm.run(&mut sys).unwrap();

    assert_eq!(sys.prints.len(), 1);
    assert_eq!(sys.prints[0], "true");
}

#[test]
fn call_should_setup_internals_correctly() {
    let mut sys = TestSysCall { prints: vec![] };
    let mut vm = VM::new(
        vec![
            Instruction::Call(InstructionAddress(2)),
            Instruction::Exit,
            Instruction::Call(InstructionAddress(4)),
            Instruction::Exit,
            Instruction::Exit,
        ],
        InstructionAddress(0),
    );

    vm.run(&mut sys).unwrap();

    assert_eq!(vm.frames().len(), 2);
    assert_eq!(vm.frames()[0].return_address.0, 0);
    assert_eq!(vm.frames()[1].return_address.0, 1);
    assert_eq!(vm.current_frame().return_address.0, 3);
}

#[test]
fn should_return() {
    let mut sys = TestSysCall { prints: vec![] };
    let mut vm = VM::new(
        vec![
            Instruction::Call(InstructionAddress(10)),
            Instruction::PushReturnPointerToStack,
            Instruction::Call(InstructionAddress(13)),
            Instruction::PushReturnPointerToStack,
            Instruction::Call(InstructionAddress(10)),
            Instruction::PushReturnPointerToStack,
            Instruction::Print(StackOffset(0)),
            Instruction::Print(StackOffset(1)),
            Instruction::Print(StackOffset(2)),
            Instruction::Exit,
            Instruction::ConsBool(false),
            Instruction::PushReturnPointerToStack,
            Instruction::Return(StackOffset(0)),
            Instruction::ConsBool(true),
            Instruction::PushReturnPointerToStack,
            Instruction::Return(StackOffset(0)),
        ],
        InstructionAddress(0),
    );

    vm.run(&mut sys).unwrap();

    assert_eq!(sys.prints.len(), 3);
    assert_eq!(sys.prints[0], "false");
    assert_eq!(sys.prints[1], "true");
    assert_eq!(sys.prints[2], "false");
}

#[test]
fn should_ref_and_deref() {
    let mut sys = TestSysCall { prints: vec![] };
    let mut vm = VM::new(
        vec![
            Instruction::ConsBool(true),
            Instruction::PushReturnPointerToStack,
            Instruction::ConsRef(StackOffset(0)),
            Instruction::PushReturnPointerToStack,
            Instruction::Deref(StackOffset(1)),
            Instruction::PushReturnPointerToStack,
            Instruction::Print(StackOffset(2)),
            Instruction::Exit,
        ],
        InstructionAddress(0),
    );

    vm.run(&mut sys).unwrap();

    assert_eq!(sys.prints.len(), 1);
    assert_eq!(sys.prints[0], "true");
}

#[test]
fn should_use_params() {
    let mut sys = TestSysCall { prints: vec![] };
    let mut vm = VM::new(
        vec![
            Instruction::ConsBool(true),
            Instruction::PushReturnPointerToStack,
            Instruction::ConsBool(false),
            Instruction::PushReturnPointerToStack,
            Instruction::PushStackToParam(StackOffset(0)),
            Instruction::PushStackToParam(StackOffset(1)),
            Instruction::Call(InstructionAddress(8)),
            Instruction::Exit,
            Instruction::Print(StackOffset(0)),
            Instruction::Print(StackOffset(1)),
            Instruction::Return(StackOffset(0)),
        ],
        InstructionAddress(0),
    );

    vm.run(&mut sys).unwrap();

    assert_eq!(sys.prints.len(), 2);
    assert_eq!(sys.prints[0], "true");
    assert_eq!(sys.prints[1], "false");
}

#[test]
fn should_call_from_heap() {
    let mut sys = TestSysCall { prints: vec![] };
    let mut vm = VM::new(
        vec![
            Instruction::Print(StackOffset(0)),
            Instruction::Return(StackOffset(0)),
            Instruction::ConsBool(true),
            Instruction::PushReturnPointerToStack,
            Instruction::PushStackToParam(StackOffset(0)),
            Instruction::ConsFunAddress(InstructionAddress(0)),
            Instruction::PushReturnPointerToStack,
            Instruction::CallFromHeap(StackOffset(1)),
            Instruction::Exit,
        ],
        InstructionAddress(2),
    );

    vm.run(&mut sys).unwrap();
    assert_eq!(sys.prints.len(), 1);
    assert_eq!(sys.prints[0], "true");
}

#[test]
fn exit_alone_leaves_heap_empty_and_prints_nothing() {
    let (vm, sys, r) = run_program(vec![Instruction::Exit], 0);
    assert_eq!(r, Ok(()));
    assert_eq!(vm.heap().len(), 0);
    assert_eq!(vm.frames().len(), 0);
    assert_eq!(vm.instruction_pointer().0, 0);
    assert_eq!(vm.instructions().len(), 1);
    assert!(sys.prints.is_empty());
}

#[test]
fn print_false_renders_false() {
    let (_, sys, r) = run_program(
        vec![
            Instruction::ConsBool(false),
            Instruction::PushReturnPointerToStack,
            Instruction::Print(StackOffset(0)),
            Instruction::Exit,
        ],
        0,
    );
    assert_eq!(r, Ok(()));
    assert_eq!(sys.prints, vec!["false".to_string()]);
}

#[test]
fn call_from_heap_and_call_reach_the_same_frame() {
    let direct = vec![Instruction::Call(InstructionAddress(2)), Instruction::Exit, Instruction::Exit];
    let (vm_a, _, _) = run_program(direct, 0);
    let through_heap = vec![
        Instruction::ConsFunAddress(InstructionAddress(4)),
        Instruction::PushReturnPointerToStack,
        Instruction::CallFromHeap(StackOffset(0)),
        Instruction::Exit,
        Instruction::Exit,
    ];
    let (vm_b, _, _) = run_program(through_heap, 0);
    assert_eq!(vm_a.instruction_pointer().0, 2);
    assert_eq!(vm_b.instruction_pointer().0, 4);
    assert_eq!(vm_a.frames().len(), 1);
    assert_eq!(vm_b.frames().len(), 1);
    assert_eq!(vm_a.current_frame().return_address.0, 1);
    assert_eq!(vm_b.current_frame().return_address.0, 3);
}

fn binary(op: Instruction, a: Instruction, b: Instruction) -> (Vec<String>, Result<(), Fault>) {
    let (_, sys, r) = run_program(
        vec![
            a,
            Instruction::PushReturnPointerToStack,
            b,
            Instruction::PushReturnPointerToStack,
            op,
            Instruction::PushReturnPointerToStack,
            Instruction::Print(StackOffset(2)),
            Instruction::Exit,
        ],
        0,
    );
    (sys.prints, r)
}

fn num(n: i64) -> Instruction {
    Instruction::ConsNumber(n)
}

fn s0() -> StackOffset {
    StackOffset(0)
}

fn s1() -> StackOffset {
    StackOffset(1)
}

#[test]
fn arithmetic_instructions_compute_64_bit_results() {
    assert_eq!(binary(Instruction::Multiply(s0(), s1()), num(6), num(-7)).0, vec!["-42"]);
    assert_eq!(binary(Instruction::Addition(s0(), s1()), num(40), num(2)).0, vec!["42"]);
    assert_eq!(binary(Instruction::Substract(s0(), s1()), num(2), num(40)).0, vec!["-38"]);
    assert_eq!(binary(Instruction::Division(s0(), s1()), num(-7), num(2)).0, vec!["-3"]);
    assert_eq!(binary(Instruction::Remainder(s0(), s1()), num(-7), num(2)).0, vec!["-1"]);
    assert_eq!(binary(Instruction::Remainder(s0(), s1()), num(7), num(-2)).0, vec!["1"]);
}

#[test]
fn division_by_zero_is_a_fault() {
    let (prints, r) = binary(Instruction::Division(s0(), s1()), num(1), num(0));
    assert_eq!(r, Err(Fault::DivisionByZero));
    assert!(prints.is_empty());
    let (_, r) = binary(Instruction::Remainder(s0(), s1()), num(1), num(0));
    assert_eq!(r, Err(Fault::DivisionByZero));
}

#[test]
fn overflow_is_a_fault() {
    let (_, r) = binary(Instruction::Addition(s0(), s1()), num(i64::MAX), num(1));
    assert_eq!(r, Err(Fault::ArithmeticOverflow));
    let (_, r) = binary(Instruction::Division(s0(), s1()), num(i64::MIN), num(-1));
    assert_eq!(r, Err(Fault::ArithmeticOverflow));
    assert_eq!(arithmetic(ArithOp::Multiply, i64::MAX, 2), Err(Fault::ArithmeticOverflow));
    assert_eq!(arithmetic(ArithOp::Remainder, i64::MIN, -1), Err(Fault::ArithmeticOverflow));
}

#[test]
fn logic_and_comparison_instructions() {
    let t = || Instruction::ConsBool(true);
    let f = || Instruction::ConsBool(false);
    assert_eq!(binary(Instruction::LogicalXor(s0(), s1()), t(), t()).0, vec!["false"]);
    assert_eq!(binary(Instruction::LogicalOr(s0(), s1()), f(), t()).0, vec!["true"]);
    assert_eq!(binary(Instruction::LogicalAnd(s0(), s1()), t(), f()).0, vec!["false"]);
    assert_eq!(binary(Instruction::GreaterThan(s0(), s1()), num(3), num(2)).0, vec!["true"]);
    assert_eq!(binary(Instruction::LessThan(s0(), s1()), num(3), num(2)).0, vec!["false"]);
    assert_eq!(binary(Instruction::LogicalNot(s1()), num(0), t()).0, vec!["false"]);
}

#[test]
fn equal_compares_tagged_values() {
    let st = |s: &str| Instruction::ConsString(s.to_string());
    assert_eq!(binary(Instruction::Equal(s0(), s1()), st("ab"), st("ab")).0, vec!["true"]);
    assert_eq!(binary(Instruction::Equal(s0(), s1()), st("ab"), st("ac")).0, vec!["false"]);
    assert_eq!(binary(Instruction::Equal(s0(), s1()), num(1), Instruction::ConsBool(true)).0, vec!["false"]);
    assert_eq!(binary(Instruction::Equal(s0(), s1()), num(5), num(5)).0, vec!["true"]);
}

#[test]
fn type_mismatch_is_a_fault() {
    let (_, r) = binary(Instruction::Addition(s0(), s1()), num(1), Instruction::ConsBool(true));
    assert_eq!(r, Err(Fault::NotANumber));
    let (_, r) = binary(Instruction::LogicalAnd(s0(), s1()), num(1), Instruction::ConsBool(true));
    assert_eq!(r, Err(Fault::NotABool));
    let (_, _, r) = run_program(
        vec![Instruction::ConsBool(true), Instruction::PushReturnPointerToStack, Instruction::CallFromHeap(s0())],
        0,
    );
    assert_eq!(r, Err(Fault::NotAFunction));
    let (_, _, r) = run_program(
        vec![Instruction::ConsBool(true), Instruction::PushReturnPointerToStack, Instruction::Deref(s0())],
        0,
    );
    assert_eq!(r, Err(Fault::NotAReference));
}

#[test]
fn malformed_streams_are_faults() {
    let (_, _, r) = run_program(vec![Instruction::Return(s0())], 0);
    assert_eq!(r, Err(Fault::SlotOutOfRange));
    let (_, _, r) = run_program(
        vec![Instruction::ConsBool(true), Instruction::PushReturnPointerToStack, Instruction::Return(s0())],
        0,
    );
    assert_eq!(r, Err(Fault::NoCallerFrame));
    let (_, _, r) = run_program(vec![Instruction::ConsBool(true)], 0);
    assert_eq!(r, Err(Fault::InstructionOutOfRange));
    let (_, _, r) = run_program(vec![Instruction::Exit], 3);
    assert_eq!(r, Err(Fault::InstructionOutOfRange));
}

#[test]
fn branch_false_jumps_only_on_false() {
    let program = |b: bool| {
        vec![
            Instruction::ConsBool(b),
            Instruction::PushReturnPointerToStack,
            Instruction::BranchFalse(s0(), InstructionAddress(5)),
            Instruction::ConsString("fell through".to_string()),
            Instruction::Exit,
            Instruction::ConsString("jumped".to_string()),
            Instruction::Exit,
        ]
    };
    let (vm, _, _) = run_program(program(true), 0);
    assert!(matches!(&vm.heap()[vm.return_pointer().0], Data::String(s) if s == "fell through"));
    let (vm, _, _) = run_program(program(false), 0);
    assert!(matches!(&vm.heap()[vm.return_pointer().0], Data::String(s) if s == "jumped"));
}

#[test]
fn move_copies_a_slot() {
    let (_, sys, r) = run_program(
        vec![
            num(1),
            Instruction::PushReturnPointerToStack,
            num(2),
            Instruction::PushReturnPointerToStack,
            Instruction::Move { src: s0(), dest: s1() },
            Instruction::Print(s1()),
            Instruction::Move { src: s0(), dest: StackOffset(2) },
        ],
        0,
    );
    assert_eq!(sys.prints, vec!["1".to_string()]);
    assert_eq!(r, Err(Fault::SlotOutOfRange));
}

#[test]
fn display_renders_each_tag() {
    assert_eq!(display(&Data::Bool(true)), "true");
    assert_eq!(display(&Data::Bool(false)), "false");
    assert_eq!(display(&Data::Number(-1234)), "-1234");
    assert_eq!(display(&Data::Number(0)), "0");
    assert_eq!(display(&Data::Number(i64::MIN)), "-9223372036854775808");
    assert_eq!(display(&Data::String("hi there".to_string())), "hi there");
    assert_eq!(display(&Data::Fun(InstructionAddress(255))), "function at:  FF");
    assert_eq!(display(&Data::Ref(HeapAddress(16))), "data at:  10");
}

#[test]
fn data_equality_is_structural() {
    assert!(Data::String("a".to_string()) == Data::String("a".to_string()));
    assert!(Data::Number(1) != Data::Bool(true));
    assert!(Data::Ref(HeapAddress(3)) == Data::Ref(HeapAddress(3)));
}

#[test]
fn step_reports_each_effect() {
    let mut vm = VM::new(
        vec![
            Instruction::ConsNumber(7),
            Instruction::PushReturnPointerToStack,
            Instruction::Print(s0()),
            Instruction::Exit,
        ],
        InstructionAddress(0),
    );
    assert!(matches!(vm.step(), Ok(Effect::Continue)));
    assert!(matches!(vm.step(), Ok(Effect::Continue)));
    assert!(matches!(vm.step(), Ok(Effect::Print(s)) if s == "7"));
    assert!(matches!(vm.step(), Ok(Effect::Exit)));
    assert!(matches!(vm.step(), Ok(Effect::Exit)));
    assert_eq!(vm.instruction_pointer().0, 3);
}

#[test]
fn addresses_advance_within_their_own_space() {
    assert_eq!(InstructionAddress(4).next().0, 5);
    let mut a = InstructionAddress(9);
    a.inc();
    assert_eq!(a.0, 10);
    assert_eq!(InstructionAddress(1).advance(3).0, 4);
    assert_eq!(StackOffset(2).advance(2).0, 4);
    assert_eq!(HeapAddress(0).advance(7).0, 7);
}
