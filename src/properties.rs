//! Properties of the machine's semantics, proved over the model.

use vstd::prelude::*;
use crate::instr::{Instruction, InstructionAddress, StackOffset};
use crate::data::{Data, FrameView, HeapAddress};
use crate::vm::{Transition, VmView, after, printed};

verus! {

/// Once a run has stopped, no further states follow.
proof fn lemma_stopped_stays(s: VmView, k: nat, m: nat)
    requires
        after(s, k) is None,
        k <= m,
    ensures
        after(s, m) is None,
    decreases m - k,
{
    if k < m {
        lemma_stopped_stays(s, k, (m - 1) as nat);
    }
}

/// Nothing is printed by a run that executes no instruction.
proof fn lemma_printed_none_after(s: VmView, m: nat)
    requires
        s.transition() is Halt,
    ensures
        printed(s, m).len() == 0,
    decreases m,
{
    if m > 0 {
        lemma_printed_none_after(s, (m - 1) as nat);
        if m >= 2 {
            assert(after(s, 0) == Some(s));
            assert(after(s, 1) is None);
            lemma_stopped_stays(s, 1, (m - 1) as nat);
        }
    }
}

/// `Exit` terminates immediately: from a state whose next instruction is
/// `Exit`, the only state a run can reach is that state itself (same heap,
/// same frames), and nothing is printed on the way.
pub proof fn lemma_exit_terminates_immediately(s: VmView, n: nat, t: VmView)
    requires
        s.instruction() == Some(Instruction::Exit),
        after(s, n) == Some(t),
    ensures
        s.transition() == Transition::Halt,
        t == s,
        t.heap == s.heap,
        printed(s, n).len() == 0,
{
    if n >= 1 {
        assert(after(s, 0) == Some(s));
        assert(after(s, 1) is None);
        lemma_stopped_stays(s, 1, n);
    }
    lemma_printed_none_after(s, n);
}

/// Constructing a boolean, pushing it and printing it emits exactly one
/// line: `true` for `true` and `false` for `false`.
pub proof fn lemma_construct_and_print_bool(s: VmView, b: bool)
    requires
        s.ip.0 + 2 < s.code.len() <= usize::MAX,
        s.code[s.ip.0 as int] == Instruction::ConsBool(b),
        s.code[s.ip.0 + 1] == Instruction::PushReturnPointerToStack,
        s.code[s.ip.0 + 2] == Instruction::Print(StackOffset(s.current.stack.len() as usize)),
        s.current.stack.len() < usize::MAX,
        s.heap.len() < usize::MAX,
    ensures
        printed(s, 3) == seq![if b { "true"@ } else { "false"@ }],
        after(s, 3) is Some,
{
    assert(after(s, 0) == Some(s));
    let s1 = s.allocated(Data::Bool(b));
    assert(after(s, 1) == Some(s1));
    let s2 = VmView {
        current: FrameView { stack: s1.current.stack.push(s1.rp), ..s1.current },
        ..s1.advanced()
    };
    assert(after(s, 2) == Some(s2));
    assert(s2.cell(StackOffset(s.current.stack.len() as usize)) == Ok::<Data, crate::vm::Fault>(Data::Bool(b)));
    assert(after(s, 3) == Some(s2.advanced()));
    assert(printed(s, 0) =~= Seq::<Seq<char>>::empty());
    assert(printed(s, 1) =~= Seq::<Seq<char>>::empty());
    assert(printed(s, 2) =~= Seq::<Seq<char>>::empty());
    assert(printed(s, 3) =~= seq![if b { "true"@ } else { "false"@ }]);
}

/// A call links a new frame: the caller's frame is suspended on top of the
/// caller stack, which grows by one; the new frame resumes its caller at the
/// instruction right after the call site; its locals are the staged
/// parameters, and the staging area is emptied.
pub proof fn lemma_call_links_frame(s: VmView, target: InstructionAddress)
    requires
        s.instruction() == Some(Instruction::Call(target)),
        s.code.len() <= usize::MAX,
    ensures
        s.transition() matches Transition::Next { state: t, output: None } && {
            &&& t.ip == target
            &&& t.frames.len() == s.frames.len() + 1
            &&& t.frames == s.frames.push(s.current)
            &&& t.current.return_address.0 == s.ip.0 + 1
            &&& t.current.stack == s.params
            &&& t.params.len() == 0
            &&& t.heap == s.heap
        },
{
}

/// Reference and dereference undo each other: wrapping a local's value in a
/// reference (`ConsRef`), pushing that reference, and dereferencing it
/// leaves the wrapped value's address in the register.
pub proof fn lemma_ref_deref_round_trip(s: VmView, o: StackOffset)
    requires
        s.ip.0 + 2 < s.code.len() <= usize::MAX,
        s.code[s.ip.0 as int] == Instruction::ConsRef(o),
        s.code[s.ip.0 + 1] == Instruction::PushReturnPointerToStack,
        s.code[s.ip.0 + 2] == Instruction::Deref(StackOffset(s.current.stack.len() as usize)),
        s.slot(o) is Ok,
        s.current.stack.len() < usize::MAX,
        s.heap.len() < usize::MAX,
    ensures
        after(s, 3) matches Some(t) && {
            &&& t.rp == s.slot(o)->Ok_0
            &&& t.ip.0 == s.ip.0 + 3
            &&& t.frames == s.frames
            &&& s.cell(o) is Ok ==> t.heap[t.rp.0 as int] == s.cell(o)->Ok_0
        },
{
    let a = s.slot(o)->Ok_0;
    assert(after(s, 0) == Some(s));
    let s1 = s.allocated(Data::Ref(a));
    assert(after(s, 1) == Some(s1));
    let s2 = VmView {
        current: FrameView { stack: s1.current.stack.push(s1.rp), ..s1.current },
        ..s1.advanced()
    };
    assert(after(s, 2) == Some(s2));
    assert(s2.current.stack[s.current.stack.len() as int] == HeapAddress(s.heap.len() as usize));
    assert(s2.cell(StackOffset(s.current.stack.len() as usize)) == Ok::<Data, crate::vm::Fault>(Data::Ref(a)));
    let s3 = VmView { rp: a, ..s2.advanced() };
    assert(after(s, 3) == Some(s3));
}

/// A return resumes the caller exactly where it was suspended: the caller's
/// frame becomes active again as it was, the caller stack shrinks by one,
/// execution goes on at the returning frame's return address, and the
/// returned local's address is in the register.
pub proof fn lemma_return_resumes_caller(s: VmView, o: StackOffset)
    requires
        s.instruction() == Some(Instruction::Return(o)),
        o.0 < s.current.stack.len(),
        s.frames.len() > 0,
    ensures
        s.transition() matches Transition::Next { state: t, output: None } && {
            &&& t.current == s.frames.last()
            &&& t.frames == s.frames.drop_last()
            &&& t.ip == s.current.return_address
            &&& t.rp == s.current.stack[o.0 as int]
            &&& t.heap == s.heap
        },
{
}

/// A call followed at once by a return threads the returned value back: the
/// caller's frame and caller stack are as they were before the call, the
/// caller goes on right after the call site, and the register holds the
/// address of the returned parameter.
pub proof fn lemma_call_return_threads_value(s: VmView, target: InstructionAddress, k: StackOffset)
    requires
        s.ip.0 < s.code.len() <= usize::MAX,
        target.0 < s.code.len(),
        s.code[s.ip.0 as int] == Instruction::Call(target),
        s.code[target.0 as int] == Instruction::Return(k),
        k.0 < s.params.len(),
    ensures
        after(s, 2) matches Some(u) && {
            &&& u.current == s.current
            &&& u.frames == s.frames
            &&& u.ip.0 == s.ip.0 + 1
            &&& u.rp == s.params[k.0 as int]
            &&& u.params.len() == 0
            &&& u.heap == s.heap
        },
{
    assert(after(s, 0) == Some(s));
    let s1 = s.called(target);
    assert(after(s, 1) == Some(s1));
    assert(s1.frames.drop_last() =~= s.frames);
    let s2 = s1.returned(s.params[k.0 as int]);
    assert(after(s, 2) == Some(s2));
}

/// Parameters arrive in push order: two locals staged with
/// `PushStackToParam` and then a `Call` become slots 0 and 1 of the callee,
/// whatever their slot numbers were in the caller.
pub proof fn lemma_parameters_in_push_order(s: VmView, a: StackOffset, b: StackOffset, target: InstructionAddress)
    requires
        s.ip.0 + 2 < s.code.len() <= usize::MAX,
        s.params.len() == 0,
        s.code[s.ip.0 as int] == Instruction::PushStackToParam(a),
        s.code[s.ip.0 + 1] == Instruction::PushStackToParam(b),
        s.code[s.ip.0 + 2] == Instruction::Call(target),
        a.0 < s.current.stack.len(),
        b.0 < s.current.stack.len(),
    ensures
        after(s, 3) matches Some(t) && {
            &&& t.ip == target
            &&& t.current.stack == seq![s.current.stack[a.0 as int], s.current.stack[b.0 as int]]
            &&& t.current.return_address.0 == s.ip.0 + 3
        },
{
    assert(after(s, 0) == Some(s));
    let s1 = VmView { params: s.params.push(s.current.stack[a.0 as int]), ..s.advanced() };
    assert(after(s, 1) == Some(s1));
    let s2 = VmView { params: s1.params.push(s.current.stack[b.0 as int]), ..s1.advanced() };
    assert(after(s, 2) == Some(s2));
    let s3 = s2.called(target);
    assert(after(s, 3) == Some(s3));
    assert(s3.current.stack =~= seq![s.current.stack[a.0 as int], s.current.stack[b.0 as int]]);
}

/// A call through the heap goes where the direct call would: when local `o`
/// refers to the function address `target`, `CallFromHeap(o)` and
/// `Call(target)` from otherwise equal states lead to the same instruction,
/// frames, staging area, heap and register.
pub proof fn lemma_call_from_heap_matches_call(s1: VmView, s2: VmView, o: StackOffset, target: InstructionAddress)
    requires
        s1.instruction() == Some(Instruction::CallFromHeap(o)),
        s1.cell(o) == Ok::<Data, crate::vm::Fault>(Data::Fun(target)),
        s2.instruction() == Some(Instruction::Call(target)),
        s2.ip == s1.ip,
        s2.heap == s1.heap,
        s2.params == s1.params,
        s2.frames == s1.frames,
        s2.current == s1.current,
        s2.rp == s1.rp,
    ensures
        s1.transition() matches Transition::Next { state: t1, output: None }
            && s2.transition() matches Transition::Next { state: t2, output: None } && {
            &&& t1.ip == t2.ip
            &&& t1.ip == target
            &&& t1.frames == t2.frames
            &&& t1.current == t2.current
            &&& t1.params == t2.params
            &&& t1.heap == t2.heap
            &&& t1.rp == t2.rp
        },
{
}

} // verus!
