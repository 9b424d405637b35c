//! The execution loop: one machine state, its model, the transition of one
//! instruction, and the run to `Exit`.

use vstd::prelude::*;
use crate::instr::{Instruction, InstructionAddress, StackOffset};
use crate::data::{Data, Frame, FrameView, HeapAddress, display, rendering, same_value};

verus! {

/// Why a run stopped before `Exit`. Each one means that the instruction
/// stream was malformed; none can be recovered from.
#[derive(Debug, Clone, Copy, PartialEq, Eq, Structural)]
pub enum Fault {
    /// The instruction pointer left the instruction stream.
    InstructionOutOfRange,
    /// A stack offset named no local of the active frame.
    SlotOutOfRange,
    /// A local held an address past the end of the heap.
    DanglingAddress,
    /// An operand that must be a number was not.
    NotANumber,
    /// An operand that must be a boolean was not.
    NotABool,
    /// `CallFromHeap` named a cell that is not a function address.
    NotAFunction,
    /// `Deref` named a cell that is not a reference.
    NotAReference,
    /// `Division` or `Remainder` by zero.
    DivisionByZero,
    /// The exact result of an arithmetic instruction does not fit in 64 bits.
    ArithmeticOverflow,
    /// `Return` with no suspended caller.
    NoCallerFrame,
    /// The run reached its bound on the number of executed instructions.
    StepLimit,
}

/// What one executed instruction asks of the host.
#[derive(Debug)]
pub enum Effect {
    /// Nothing: go on with the next instruction.
    Continue,
    /// Emit this line, then go on.
    Print(String),
    /// `Exit` was reached: the run is over.
    Exit,
}

/// A sequence of emitted lines, oldest first. It exists only in
/// specifications: no executable code builds or reads one.
pub type Lines = Seq<Seq<char>>;

/// The host capability through which the machine emits text.
pub trait SystemCalls {
    /// The lines emitted so far, oldest first.
    spec fn lines(&self) -> Lines;

    /// Emits the line `s`.
    fn print(&mut self, s: String)
        ensures
            final(self).lines() == old(self).lines().push(s@),
    ;
}

/// A host capability that keeps every emitted line, for capture in tests.
pub struct Recorder {
    pub prints: Vec<String>,
}

impl Recorder {
    /// A recorder that has seen no line.
    pub fn new() -> (r: Recorder)
        ensures
            r.lines() == Seq::<Seq<char>>::empty(),
    {
        let r = Recorder { prints: Vec::new() };
        assert(r.lines() =~= Seq::<Seq<char>>::empty());
        r
    }
}

impl SystemCalls for Recorder {
    open spec fn lines(&self) -> Lines {
        self.prints@.map_values(|p: String| p@)
    }

    fn print(&mut self, s: String) {
        self.prints.push(s);
        assert(self.lines() =~= old(self).lines().push(s@));
    }
}

/// The model of a machine state.
pub struct VmView {
    pub ip: InstructionAddress,
    pub code: Seq<Instruction>,
    pub heap: Seq<Data>,
    pub params: Seq<HeapAddress>,
    pub frames: Seq<FrameView>,
    pub current: FrameView,
    pub rp: HeapAddress,
}

/// The model of executing one instruction.
pub enum Transition {
    /// The machine moves to `state`, emitting `output` if there is one.
    Next { state: VmView, output: Option<Seq<char>> },
    /// The instruction is `Exit`: the state stays as it is.
    Halt,
    /// The instruction cannot execute.
    Fail(Fault),
}

/// Binary operations on numbers that yield a number.
#[derive(Debug, Clone, Copy, PartialEq, Eq, Structural)]
pub enum ArithOp {
    Multiply,
    Division,
    Remainder,
    Addition,
    Substract,
}

/// Binary operations on booleans.
#[derive(Debug, Clone, Copy, PartialEq, Eq, Structural)]
pub enum LogicOp {
    Xor,
    Or,
    And,
}

/// Rust's truncating quotient: rounds toward zero.
pub open spec fn trunc_div(a: int, b: int) -> int {
    let q = (if a < 0 { -a } else { a }) / (if b < 0 { -b } else { b });
    if (a < 0) != (b < 0) { -q } else { q }
}

/// Rust's remainder: takes the sign of the dividend.
pub open spec fn trunc_rem(a: int, b: int) -> int {
    let m = (if a < 0 { -a } else { a }) % (if b < 0 { -b } else { b });
    if a < 0 { -m } else { m }
}

/// `v` as a 64-bit number, or an overflow.
pub open spec fn fit(v: int) -> Result<i64, Fault> {
    if i64::MIN <= v <= i64::MAX {
        Ok(v as i64)
    } else {
        Err(Fault::ArithmeticOverflow)
    }
}

/// The 64-bit signed result of `op` on `a` and `b`.
pub open spec fn arith(op: ArithOp, a: i64, b: i64) -> Result<i64, Fault> {
    match op {
        ArithOp::Multiply => fit(a * b),
        ArithOp::Addition => fit(a + b),
        ArithOp::Substract => fit(a - b),
        ArithOp::Division => if b == 0 {
            Err(Fault::DivisionByZero)
        } else {
            fit(trunc_div(a as int, b as int))
        },
        ArithOp::Remainder => if b == 0 {
            Err(Fault::DivisionByZero)
        } else if a == i64::MIN && b == -1 {
            Err(Fault::ArithmeticOverflow)
        } else {
            Ok(trunc_rem(a as int, b as int) as i64)
        },
    }
}

/// The result of `op` on `a` and `b`.
pub open spec fn logic(op: LogicOp, a: bool, b: bool) -> bool {
    match op {
        LogicOp::Xor => a != b,
        LogicOp::Or => a || b,
        LogicOp::And => a && b,
    }
}

/// The address held by local `o`.
pub open spec fn slot_of(stack: Seq<HeapAddress>, o: StackOffset) -> Result<HeapAddress, Fault> {
    if o.0 < stack.len() {
        Ok(stack[o.0 as int])
    } else {
        Err(Fault::SlotOutOfRange)
    }
}

/// The cell that local `o` refers to.
pub open spec fn cell_of(stack: Seq<HeapAddress>, heap: Seq<Data>, o: StackOffset) -> Result<Data, Fault> {
    match slot_of(stack, o) {
        Ok(a) => if a.0 < heap.len() {
            Ok(heap[a.0 as int])
        } else {
            Err(Fault::DanglingAddress)
        },
        Err(f) => Err(f),
    }
}

/// The number in the cell that local `o` refers to.
pub open spec fn number_of(stack: Seq<HeapAddress>, heap: Seq<Data>, o: StackOffset) -> Result<i64, Fault> {
    match cell_of(stack, heap, o) {
        Ok(Data::Number(n)) => Ok(n),
        Ok(_) => Err(Fault::NotANumber),
        Err(f) => Err(f),
    }
}

/// The boolean in the cell that local `o` refers to.
pub open spec fn bool_of(stack: Seq<HeapAddress>, heap: Seq<Data>, o: StackOffset) -> Result<bool, Fault> {
    match cell_of(stack, heap, o) {
        Ok(Data::Bool(b)) => Ok(b),
        Ok(_) => Err(Fault::NotABool),
        Err(f) => Err(f),
    }
}

impl VmView {
    /// The address held by local `o` of the active frame.
    pub open spec fn slot(self, o: StackOffset) -> Result<HeapAddress, Fault> {
        slot_of(self.current.stack, o)
    }

    /// The cell that local `o` of the active frame refers to.
    pub open spec fn cell(self, o: StackOffset) -> Result<Data, Fault> {
        cell_of(self.current.stack, self.heap, o)
    }

    /// The instruction at the instruction pointer, if there is one.
    pub open spec fn instruction(self) -> Option<Instruction> {
        if self.ip.0 < self.code.len() {
            Some(self.code[self.ip.0 as int])
        } else {
            None
        }
    }

    /// The same state, at the following instruction.
    pub open spec fn advanced(self) -> VmView {
        VmView { ip: InstructionAddress((self.ip.0 + 1) as usize), ..self }
    }

    /// `d` appended to the heap, and its address in the register.
    pub open spec fn stored(self, d: Data) -> VmView {
        VmView { heap: self.heap.push(d), rp: HeapAddress(self.heap.len() as usize), ..self }
    }

    /// `d` appended to the heap, its address in the register, at the
    /// following instruction.
    pub open spec fn allocated(self, d: Data) -> VmView {
        self.stored(d).advanced()
    }

    /// The state after a call to `target`: the staged parameters become the
    /// locals of a new frame that resumes its caller after the call.
    pub open spec fn called(self, target: InstructionAddress) -> VmView {
        VmView {
            ip: target,
            params: Seq::empty(),
            frames: self.frames.push(self.current),
            current: FrameView {
                return_address: InstructionAddress((self.ip.0 + 1) as usize),
                stack: self.params,
            },
            ..self
        }
    }

    /// The state after the active frame returns the address `a`.
    pub open spec fn returned(self, a: HeapAddress) -> VmView {
        VmView {
            ip: self.current.return_address,
            rp: a,
            current: self.frames.last(),
            frames: self.frames.drop_last(),
            ..self
        }
    }

    /// The transition of an instruction that stores the number `op` yields.
    pub open spec fn arith_step(self, op: ArithOp, x: StackOffset, y: StackOffset) -> Transition {
        match number_of(self.current.stack, self.heap, x) {
            Err(f) => Transition::Fail(f),
            Ok(a) => match number_of(self.current.stack, self.heap, y) {
                Err(f) => Transition::Fail(f),
                Ok(b) => match arith(op, a, b) {
                    Err(f) => Transition::Fail(f),
                    Ok(n) => Transition::Next { state: self.allocated(Data::Number(n)), output: None },
                },
            },
        }
    }

    /// The transition of an instruction that stores the boolean `op` yields.
    pub open spec fn logic_step(self, op: LogicOp, x: StackOffset, y: StackOffset) -> Transition {
        match bool_of(self.current.stack, self.heap, x) {
            Err(f) => Transition::Fail(f),
            Ok(a) => match bool_of(self.current.stack, self.heap, y) {
                Err(f) => Transition::Fail(f),
                Ok(b) => Transition::Next { state: self.allocated(Data::Bool(logic(op, a, b))), output: None },
            },
        }
    }

    /// The transition of a numeric comparison: `greater` for `>`, else `<`.
    pub open spec fn compare_step(self, greater: bool, x: StackOffset, y: StackOffset) -> Transition {
        match number_of(self.current.stack, self.heap, x) {
            Err(f) => Transition::Fail(f),
            Ok(a) => match number_of(self.current.stack, self.heap, y) {
                Err(f) => Transition::Fail(f),
                Ok(b) => Transition::Next {
                    state: self.allocated(Data::Bool(if greater { a > b } else { a < b })),
                    output: None,
                },
            },
        }
    }

    /// What executing the instruction at the instruction pointer does.
    pub open spec fn transition(self) -> Transition {
        match self.instruction() {
            None => Transition::Fail(Fault::InstructionOutOfRange),
            Some(instr) => match instr {
                Instruction::Print(o) => match self.cell(o) {
                    Ok(d) => Transition::Next { state: self.advanced(), output: Some(rendering(d)) },
                    Err(f) => Transition::Fail(f),
                },
                Instruction::Call(t) => Transition::Next { state: self.called(t), output: None },
                Instruction::CallFromHeap(o) => match self.cell(o) {
                    Ok(Data::Fun(t)) => Transition::Next { state: self.called(t), output: None },
                    Ok(_) => Transition::Fail(Fault::NotAFunction),
                    Err(f) => Transition::Fail(f),
                },
                Instruction::PushReturnPointerToStack => Transition::Next {
                    state: VmView {
                        current: FrameView { stack: self.current.stack.push(self.rp), ..self.current },
                        ..self.advanced()
                    },
                    output: None,
                },
                Instruction::PushStackToParam(o) => match self.slot(o) {
                    Ok(a) => Transition::Next {
                        state: VmView { params: self.params.push(a), ..self.advanced() },
                        output: None,
                    },
                    Err(f) => Transition::Fail(f),
                },
                Instruction::BranchFalse(o, t) => match bool_of(self.current.stack, self.heap, o) {
                    Ok(b) => Transition::Next {
                        state: if b { self.advanced() } else { VmView { ip: t, ..self } },
                        output: None,
                    },
                    Err(f) => Transition::Fail(f),
                },
                Instruction::Move { src, dest } => match self.slot(src) {
                    Ok(a) => if dest.0 < self.current.stack.len() {
                        Transition::Next {
                            state: VmView {
                                current: FrameView {
                                    stack: self.current.stack.update(dest.0 as int, a),
                                    ..self.current
                                },
                                ..self.advanced()
                            },
                            output: None,
                        }
                    } else {
                        Transition::Fail(Fault::SlotOutOfRange)
                    },
                    Err(f) => Transition::Fail(f),
                },
                Instruction::Exit => Transition::Halt,
                Instruction::Multiply(x, y) => self.arith_step(ArithOp::Multiply, x, y),
                Instruction::Division(x, y) => self.arith_step(ArithOp::Division, x, y),
                Instruction::Remainder(x, y) => self.arith_step(ArithOp::Remainder, x, y),
                Instruction::Addition(x, y) => self.arith_step(ArithOp::Addition, x, y),
                Instruction::Substract(x, y) => self.arith_step(ArithOp::Substract, x, y),
                Instruction::LogicalXor(x, y) => self.logic_step(LogicOp::Xor, x, y),
                Instruction::LogicalOr(x, y) => self.logic_step(LogicOp::Or, x, y),
                Instruction::LogicalAnd(x, y) => self.logic_step(LogicOp::And, x, y),
                Instruction::LogicalNot(o) => match bool_of(self.current.stack, self.heap, o) {
                    Ok(b) => Transition::Next { state: self.allocated(Data::Bool(!b)), output: None },
                    Err(f) => Transition::Fail(f),
                },
                Instruction::GreaterThan(x, y) => self.compare_step(true, x, y),
                Instruction::LessThan(x, y) => self.compare_step(false, x, y),
                Instruction::Equal(x, y) => match self.cell(x) {
                    Err(f) => Transition::Fail(f),
                    Ok(a) => match self.cell(y) {
                        Err(f) => Transition::Fail(f),
                        Ok(b) => Transition::Next {
                            state: self.allocated(Data::Bool(same_value(a, b))),
                            output: None,
                        },
                    },
                },
                Instruction::ConsBool(b) => Transition::Next { state: self.allocated(Data::Bool(b)), output: None },
                Instruction::ConsNumber(n) => Transition::Next { state: self.allocated(Data::Number(n)), output: None },
                Instruction::ConsString(s) => Transition::Next { state: self.allocated(Data::String(s)), output: None },
                Instruction::ConsFunAddress(a) => Transition::Next { state: self.allocated(Data::Fun(a)), output: None },
                Instruction::ConsRef(o) => match self.slot(o) {
                    Ok(a) => Transition::Next { state: self.allocated(Data::Ref(a)), output: None },
                    Err(f) => Transition::Fail(f),
                },
                Instruction::Deref(o) => match self.cell(o) {
                    Ok(Data::Ref(a)) => Transition::Next {
                        state: VmView { rp: a, ..self.advanced() },
                        output: None,
                    },
                    Ok(_) => Transition::Fail(Fault::NotAReference),
                    Err(f) => Transition::Fail(f),
                },
                Instruction::Return(o) => match self.slot(o) {
                    Ok(a) => if self.frames.len() == 0 {
                        Transition::Fail(Fault::NoCallerFrame)
                    } else {
                        Transition::Next { state: self.returned(a), output: None }
                    },
                    Err(f) => Transition::Fail(f),
                },
            },
        }
    }
}

/// The state `n` instructions after `s`, if none of those instructions
/// halted or failed.
pub open spec fn after(s: VmView, n: nat) -> Option<VmView>
    decreases n,
{
    if n == 0 {
        Some(s)
    } else {
        match after(s, (n - 1) as nat) {
            Some(t) => match t.transition() {
                Transition::Next { state, output: _ } => Some(state),
                _ => None,
            },
            None => None,
        }
    }
}

/// The lines emitted by the first `n` instructions executed from `s`.
pub open spec fn printed(s: VmView, n: nat) -> Seq<Seq<char>>
    decreases n,
{
    if n == 0 {
        Seq::empty()
    } else {
        match after(s, (n - 1) as nat) {
            Some(t) => match t.transition() {
                Transition::Next { state: _, output: Some(line) } => printed(s, (n - 1) as nat).push(line),
                _ => printed(s, (n - 1) as nat),
            },
            None => printed(s, (n - 1) as nat),
        }
    }
}

/// No instruction changes the instruction stream.
pub proof fn lemma_transition_keeps_code(s: VmView)
    ensures
        s.transition() matches Transition::Next { state, output: _ } ==> state.code == s.code,
{
}

/// The upper bound on the instructions that `run` executes.
pub const STEP_LIMIT: u64 = 18446744073709551615;

/// A virtual machine: the instruction stream, the instruction pointer, the
/// append-only heap, the staged outgoing parameters, the suspended caller
/// frames, the active frame and the return-pointer register.
pub struct VM {
    instruction_pointer: InstructionAddress,
    instructions: Vec<Instruction>,
    heap: Vec<Data>,
    outgoing_params: Vec<HeapAddress>,
    frames: Vec<Frame>,
    current_frame: Frame,
    return_pointer: HeapAddress,
}

impl View for VM {
    type V = VmView;

    closed spec fn view(&self) -> VmView {
        VmView {
            ip: self.instruction_pointer,
            code: self.instructions@,
            heap: self.heap@,
            params: self.outgoing_params@,
            frames: self.frames@.map_values(|f: Frame| f@),
            current: self.current_frame@,
            rp: self.return_pointer,
        }
    }
}

/// The initial state of a machine over `code` that starts at `entry`.
pub open spec fn initial(code: Seq<Instruction>, entry: InstructionAddress) -> VmView {
    VmView {
        ip: entry,
        code,
        heap: Seq::empty(),
        params: Seq::empty(),
        frames: Seq::empty(),
        current: FrameView { return_address: InstructionAddress(0), stack: Seq::empty() },
        rp: HeapAddress(0),
    }
}

/// Whether `r` is what executing one instruction returns when the model
/// moves from `before` to `after_state` by `t`.
pub open spec fn step_result(t: Transition, before: VmView, after_state: VmView, r: Result<Effect, Fault>) -> bool {
    match t {
        Transition::Next { state, output } => {
            &&& after_state == state
            &&& match output {
                Some(line) => r matches Ok(Effect::Print(p)) && p@ == line,
                None => r matches Ok(Effect::Continue),
            }
        },
        Transition::Halt => after_state == before && r matches Ok(Effect::Exit),
        Transition::Fail(f) => after_state == before && r == Err::<Effect, Fault>(f),
    }
}

fn get_instruction(instructions: &Vec<Instruction>, address: InstructionAddress) -> (r: Result<&Instruction, Fault>)
    ensures
        match r {
            Ok(i) => address.0 < instructions@.len() <= usize::MAX && *i == instructions@[address.0 as int],
            Err(f) => address.0 >= instructions@.len() && f == Fault::InstructionOutOfRange,
        },
{
    if address.0 < instructions.len() {
        Ok(&instructions[address.0])
    } else {
        Err(Fault::InstructionOutOfRange)
    }
}

fn get_stack(stack: &Vec<HeapAddress>, offset: StackOffset) -> (r: Result<HeapAddress, Fault>)
    ensures
        r == slot_of(stack@, offset),
{
    if offset.0 < stack.len() {
        Ok(stack[offset.0])
    } else {
        Err(Fault::SlotOutOfRange)
    }
}

fn get_heap(heap: &Vec<Data>, address: HeapAddress) -> (r: Result<&Data, Fault>)
    ensures
        match r {
            Ok(d) => address.0 < heap@.len() && *d == heap@[address.0 as int],
            Err(f) => address.0 >= heap@.len() && f == Fault::DanglingAddress,
        },
{
    if address.0 < heap.len() {
        Ok(&heap[address.0])
    } else {
        Err(Fault::DanglingAddress)
    }
}

fn get_heap_from_stack<'a>(stack: &Vec<HeapAddress>, heap: &'a Vec<Data>, offset: StackOffset) -> (r: Result<&'a Data, Fault>)
    ensures
        match r {
            Ok(d) => cell_of(stack@, heap@, offset) == Ok::<Data, Fault>(*d),
            Err(f) => cell_of(stack@, heap@, offset) == Err::<Data, Fault>(f),
        },
{
    match get_stack(stack, offset) {
        Ok(a) => get_heap(heap, a),
        Err(f) => Err(f),
    }
}

fn get_heap_number_from_stack(stack: &Vec<HeapAddress>, heap: &Vec<Data>, offset: StackOffset) -> (r: Result<i64, Fault>)
    ensures
        r == number_of(stack@, heap@, offset),
{
    match get_heap_from_stack(stack, heap, offset) {
        Ok(Data::Number(i)) => Ok(*i),
        Ok(_) => Err(Fault::NotANumber),
        Err(f) => Err(f),
    }
}

fn get_heap_bool_from_stack(stack: &Vec<HeapAddress>, heap: &Vec<Data>, offset: StackOffset) -> (r: Result<bool, Fault>)
    ensures
        r == bool_of(stack@, heap@, offset),
{
    match get_heap_from_stack(stack, heap, offset) {
        Ok(Data::Bool(b)) => Ok(*b),
        Ok(_) => Err(Fault::NotABool),
        Err(f) => Err(f),
    }
}

proof fn lemma_zero_quotient(b: int)
    requires
        b != 0,
    ensures
        0int / (if b < 0 { -b } else { b }) == 0,
        0int % (if b < 0 { -b } else { b }) == 0,
{
    let m = if b < 0 { -b } else { b };
    assert(0int / m == 0 && 0int % m == 0) by (nonlinear_arith)
        requires
            m > 0,
    ;
}

/// The 64-bit signed result of `op` on `a` and `b`, or why there is none.
pub fn arithmetic(op: ArithOp, a: i64, b: i64) -> (r: Result<i64, Fault>)
    ensures
        r == arith(op, a, b),
{
    let v = match op {
        ArithOp::Multiply => a.checked_mul(b),
        ArithOp::Addition => a.checked_add(b),
        ArithOp::Substract => a.checked_sub(b),
        ArithOp::Division => {
            if b == 0 {
                return Err(Fault::DivisionByZero);
            }
            proof {
                lemma_zero_quotient(b as int);
            }
            a.checked_div(b)
        },
        ArithOp::Remainder => {
            if b == 0 {
                return Err(Fault::DivisionByZero);
            }
            proof {
                lemma_zero_quotient(b as int);
            }
            a.checked_rem(b)
        },
    };
    match v {
        Some(n) => Ok(n),
        None => Err(Fault::ArithmeticOverflow),
    }
}

/// The result of `op` on `a` and `b`.
pub fn logical(op: LogicOp, a: bool, b: bool) -> (r: bool)
    ensures
        r == logic(op, a, b),
{
    match op {
        LogicOp::Xor => a ^ b,
        LogicOp::Or => a || b,
        LogicOp::And => a && b,
    }
}

impl VM {
    /// A machine over `instructions` that starts at `entry_point`, with an
    /// empty heap, no staged parameters and no suspended frames.
    pub fn new(instructions: Vec<Instruction>, entry_point: InstructionAddress) -> (r: VM)
        ensures
            r@ == initial(instructions@, entry_point),
    {
        let vm = VM {
            instruction_pointer: entry_point,
            instructions,
            heap: Vec::new(),
            outgoing_params: Vec::new(),
            frames: Vec::new(),
            current_frame: Frame { stack: Vec::new(), return_address: InstructionAddress(0) },
            return_pointer: HeapAddress(0),
        };
        assert(vm@.frames =~= Seq::<FrameView>::empty());
        assert(vm@.current.stack =~= Seq::<HeapAddress>::empty());
        vm
    }

    /// Stores `d` in a new heap cell and puts its address in the register.
    fn allocate(&mut self, d: Data)
        ensures
            final(self)@ == old(self)@.stored(d),
    {
        let address = HeapAddress(self.heap.len());
        self.heap.push(d);
        self.return_pointer = address;
    }

    /// Suspends the active frame and enters `target` with the staged
    /// parameters as the new frame's locals.
    fn enter(&mut self, target: InstructionAddress)
        requires
            old(self)@.ip.0 < old(self)@.code.len() <= usize::MAX,
        ensures
            final(self)@ == old(self)@.called(target),
    {
        let mut incoming: Vec<HeapAddress> = Vec::new();
        std::mem::swap(&mut incoming, &mut self.outgoing_params);
        let mut frame = Frame { stack: incoming, return_address: self.instruction_pointer.next() };
        std::mem::swap(&mut frame, &mut self.current_frame);
        self.frames.push(frame);
        self.instruction_pointer = target;
        proof {
            assert(self.frames@.map_values(|f: Frame| f@) =~= old(self)@.frames.push(old(self)@.current));
        }
    }

    /// Executes the instruction at the instruction pointer.
    #[verifier::spinoff_prover]
    #[verifier::rlimit(100)]
    pub fn step(&mut self) -> (r: Result<Effect, Fault>)
        ensures
            step_result(old(self)@.transition(), old(self)@, final(self)@, r),
    {
        let instruction = match get_instruction(&self.instructions, self.instruction_pointer) {
            Ok(i) => i,
            Err(f) => return Err(f),
        };
        let ghost before = self@;
        match instruction {
            Instruction::Print(offset) => {
                match get_heap_from_stack(&self.current_frame.stack, &self.heap, *offset) {
                    Ok(d) => {
                        let line = display(d);
                        self.instruction_pointer.inc();
                        Ok(Effect::Print(line))
                    },
                    Err(f) => Err(f),
                }
            },
            Instruction::Call(address) => {
                let target = *address;
                self.enter(target);
                Ok(Effect::Continue)
            },
            Instruction::CallFromHeap(offset) => {
                let target = match get_heap_from_stack(&self.current_frame.stack, &self.heap, *offset) {
                    Ok(Data::Fun(x)) => *x,
                    Ok(_) => return Err(Fault::NotAFunction),
                    Err(f) => return Err(f),
                };
                self.enter(target);
                Ok(Effect::Continue)
            },
            Instruction::PushReturnPointerToStack => {
                self.current_frame.stack.push(self.return_pointer);
                self.instruction_pointer.inc();
                Ok(Effect::Continue)
            },
            Instruction::PushStackToParam(offset) => {
                match get_stack(&self.current_frame.stack, *offset) {
                    Ok(v) => {
                        self.outgoing_params.push(v);
                        self.instruction_pointer.inc();
                        Ok(Effect::Continue)
                    },
                    Err(f) => Err(f),
                }
            },
            Instruction::BranchFalse(offset, dest) => {
                match get_heap_bool_from_stack(&self.current_frame.stack, &self.heap, *offset) {
                    Ok(b) => {
                        if b {
                            self.instruction_pointer.inc();
                        } else {
                            self.instruction_pointer = *dest;
                        }
                        Ok(Effect::Continue)
                    },
                    Err(f) => Err(f),
                }
            },
            Instruction::Move { src, dest } => {
                match get_stack(&self.current_frame.stack, *src) {
                    Ok(v) => {
                        if dest.0 < self.current_frame.stack.len() {
                            self.current_frame.stack.set(dest.0, v);
                            self.instruction_pointer.inc();
                            Ok(Effect::Continue)
                        } else {
                            Err(Fault::SlotOutOfRange)
                        }
                    },
                    Err(f) => Err(f),
                }
            },
            Instruction::Exit => Ok(Effect::Exit),
            Instruction::Multiply(x, y) => self.arithmetic_step(ArithOp::Multiply, *x, *y),
            Instruction::Division(x, y) => self.arithmetic_step(ArithOp::Division, *x, *y),
            Instruction::Remainder(x, y) => self.arithmetic_step(ArithOp::Remainder, *x, *y),
            Instruction::Addition(x, y) => self.arithmetic_step(ArithOp::Addition, *x, *y),
            Instruction::Substract(x, y) => self.arithmetic_step(ArithOp::Substract, *x, *y),
            Instruction::LogicalXor(x, y) => self.logical_step(LogicOp::Xor, *x, *y),
            Instruction::LogicalOr(x, y) => self.logical_step(LogicOp::Or, *x, *y),
            Instruction::LogicalAnd(x, y) => self.logical_step(LogicOp::And, *x, *y),
            Instruction::LogicalNot(offset) => {
                match get_heap_bool_from_stack(&self.current_frame.stack, &self.heap, *offset) {
                    Ok(a) => {
                        self.allocate(Data::Bool(!a));
                        self.instruction_pointer.inc();
                        Ok(Effect::Continue)
                    },
                    Err(f) => Err(f),
                }
            },
            Instruction::GreaterThan(x, y) => self.comparison_step(true, *x, *y),
            Instruction::LessThan(x, y) => self.comparison_step(false, *x, *y),
            Instruction::Equal(x, y) => {
                let a = match get_heap_from_stack(&self.current_frame.stack, &self.heap, *x) {
                    Ok(a) => a,
                    Err(f) => return Err(f),
                };
                let b = match get_heap_from_stack(&self.current_frame.stack, &self.heap, *y) {
                    Ok(b) => b,
                    Err(f) => return Err(f),
                };
                let same = a == b;
                self.allocate(Data::Bool(same));
                self.instruction_pointer.inc();
                Ok(Effect::Continue)
            },
            Instruction::ConsBool(b) => {
                let v = *b;
                self.allocate(Data::Bool(v));
                self.instruction_pointer.inc();
                Ok(Effect::Continue)
            },
            Instruction::ConsNumber(n) => {
                let v = *n;
                self.allocate(Data::Number(v));
                self.instruction_pointer.inc();
                Ok(Effect::Continue)
            },
            Instruction::ConsString(text) => {
                let v = text.clone();
                self.allocate(Data::String(v));
                self.instruction_pointer.inc();
                Ok(Effect::Continue)
            },
            Instruction::ConsFunAddress(instr_addr) => {
                let v = *instr_addr;
                self.allocate(Data::Fun(v));
                self.instruction_pointer.inc();
                Ok(Effect::Continue)
            },
            Instruction::ConsRef(offset) => {
                match get_stack(&self.current_frame.stack, *offset) {
                    Ok(r) => {
                        self.allocate(Data::Ref(r));
                        self.instruction_pointer.inc();
                        Ok(Effect::Continue)
                    },
                    Err(f) => Err(f),
                }
            },
            Instruction::Deref(offset) => {
                match get_heap_from_stack(&self.current_frame.stack, &self.heap, *offset) {
                    Ok(Data::Ref(h)) => {
                        self.return_pointer = *h;
                        self.instruction_pointer.inc();
                        Ok(Effect::Continue)
                    },
                    Ok(_) => Err(Fault::NotAReference),
                    Err(f) => Err(f),
                }
            },
            Instruction::Return(offset) => {
                let r = match get_stack(&self.current_frame.stack, *offset) {
                    Ok(r) => r,
                    Err(f) => return Err(f),
                };
                match self.frames.pop() {
                    Some(mut prev_frame) => {
                        self.return_pointer = r;
                        self.instruction_pointer = self.current_frame.return_address;
                        std::mem::swap(&mut self.current_frame, &mut prev_frame);
                        proof {
                            assert(self.frames@.map_values(|f: Frame| f@) =~= before.frames.drop_last());
                        }
                        Ok(Effect::Continue)
                    },
                    None => Err(Fault::NoCallerFrame),
                }
            },
        }
    }

    /// Executes instructions until `Exit`, a fault, or `STEP_LIMIT`
    /// instructions, handing every printed line to `sys_calls` as it comes.
    /// The machine is left in the state where it stopped.
    pub fn run(&mut self, sys_calls: &mut impl SystemCalls) -> (r: Result<(), Fault>)
        ensures
            final(self)@.code == old(self)@.code,
            exists|n: nat|
                after(old(self)@, n) == Some(final(self)@)
                    && final(sys_calls).lines() == old(sys_calls).lines() + printed(old(self)@, n)
                    && (r == Err::<(), Fault>(Fault::StepLimit) ==> n == STEP_LIMIT),
            match r {
                Ok(()) => final(self)@.transition() is Halt,
                Err(Fault::StepLimit) => true,
                Err(f) => final(self)@.transition() == Transition::Fail(f),
            },
    {
        let mut count: u64 = 0;
        let ghost n: nat = 0;
        while count < STEP_LIMIT
            invariant
                after(old(self)@, n) == Some(self@),
                self@.code == old(self)@.code,
                sys_calls.lines() == old(sys_calls).lines() + printed(old(self)@, n),
                n == count,
            decreases STEP_LIMIT - count,
        {
            proof {
                lemma_transition_keeps_code(self@);
            }
            match self.step() {
                Ok(Effect::Continue) => {},
                Ok(Effect::Print(line)) => {
                    sys_calls.print(line);
                },
                Ok(Effect::Exit) => {
                    return Ok(());
                },
                Err(f) => {
                    return Err(f);
                },
            }
            proof {
                assert(after(old(self)@, n + 1) == Some(self@));
                assert(sys_calls.lines() =~= old(sys_calls).lines() + printed(old(self)@, n + 1));
                n = n + 1;
            }
            count = count + 1;
        }
        Err(Fault::StepLimit)
    }

    /// The instruction stream.
    pub fn instructions(&self) -> (r: &Vec<Instruction>)
        ensures
            r@ == self@.code,
    {
        &self.instructions
    }

    /// The heap, oldest cell first.
    pub fn heap(&self) -> (r: &Vec<Data>)
        ensures
            r@ == self@.heap,
    {
        &self.heap
    }

    /// The return-pointer register.
    pub fn return_pointer(&self) -> (r: HeapAddress)
        ensures
            r == self@.rp,
    {
        self.return_pointer
    }

    /// The suspended caller frames, outermost first.
    pub fn frames(&self) -> (r: &Vec<Frame>)
        ensures
            r@.map_values(|f: Frame| f@) == self@.frames,
    {
        &self.frames
    }

    /// The active frame.
    pub fn current_frame(&self) -> (r: &Frame)
        ensures
            r@ == self@.current,
    {
        &self.current_frame
    }

    /// The instruction pointer.
    pub fn instruction_pointer(&self) -> (r: InstructionAddress)
        ensures
            r == self@.ip,
    {
        self.instruction_pointer
    }

    fn arithmetic_step(&mut self, op: ArithOp, x: StackOffset, y: StackOffset) -> (r: Result<Effect, Fault>)
        requires
            old(self)@.ip.0 < old(self)@.code.len() <= usize::MAX,
        ensures
            step_result(old(self)@.arith_step(op, x, y), old(self)@, final(self)@, r),
    {
        let a = match get_heap_number_from_stack(&self.current_frame.stack, &self.heap, x) {
            Ok(a) => a,
            Err(f) => return Err(f),
        };
        let b = match get_heap_number_from_stack(&self.current_frame.stack, &self.heap, y) {
            Ok(b) => b,
            Err(f) => return Err(f),
        };
        match arithmetic(op, a, b) {
            Ok(n) => {
                self.allocate(Data::Number(n));
                self.instruction_pointer.inc();
                Ok(Effect::Continue)
            },
            Err(f) => Err(f),
        }
    }

    fn logical_step(&mut self, op: LogicOp, x: StackOffset, y: StackOffset) -> (r: Result<Effect, Fault>)
        requires
            old(self)@.ip.0 < old(self)@.code.len() <= usize::MAX,
        ensures
            step_result(old(self)@.logic_step(op, x, y), old(self)@, final(self)@, r),
    {
        let a = match get_heap_bool_from_stack(&self.current_frame.stack, &self.heap, x) {
            Ok(a) => a,
            Err(f) => return Err(f),
        };
        let b = match get_heap_bool_from_stack(&self.current_frame.stack, &self.heap, y) {
            Ok(b) => b,
            Err(f) => return Err(f),
        };
        self.allocate(Data::Bool(logical(op, a, b)));
        self.instruction_pointer.inc();
        Ok(Effect::Continue)
    }

    fn comparison_step(&mut self, greater: bool, x: StackOffset, y: StackOffset) -> (r: Result<Effect, Fault>)
        requires
            old(self)@.ip.0 < old(self)@.code.len() <= usize::MAX,
        ensures
            step_result(old(self)@.compare_step(greater, x, y), old(self)@, final(self)@, r),
    {
        let a = match get_heap_number_from_stack(&self.current_frame.stack, &self.heap, x) {
            Ok(a) => a,
            Err(f) => return Err(f),
        };
        let b = match get_heap_number_from_stack(&self.current_frame.stack, &self.heap, y) {
            Ok(b) => b,
            Err(f) => return Err(f),
        };
        let v = if greater { a > b } else { a < b };
        self.allocate(Data::Bool(v));
        self.instruction_pointer.inc();
        Ok(Effect::Continue)
    }
}

} // verus!
