//! Heap cells (tagged values), heap addresses and call frames.

use vstd::prelude::*;
use crate::instr::InstructionAddress;
use crate::render::{decimal, hex, decimal_string, hex_string};

verus! {

/// An index into the append-only heap.
#[derive(Debug, Clone, Copy, PartialEq, Eq, Structural)]
pub struct HeapAddress(pub usize);

impl HeapAddress {
    /// The address `n` cells further on.
    pub fn advance(&self, n: usize) -> (r: HeapAddress)
        requires
            self.0 + n <= usize::MAX,
        ensures
            r.0 == self.0 + n,
    {
        HeapAddress(self.0 + n)
    }
}

/// One immutable heap cell: a tagged value.
#[derive(Debug)]
pub enum Data {
    Bool(bool),
    Number(i64),
    String(String),
    Fun(InstructionAddress),
    Ref(HeapAddress),
}

/// Structural equality of two values: same tag and same payload, strings
/// compared character by character.
pub open spec fn same_value(a: Data, b: Data) -> bool {
    match (a, b) {
        (Data::Bool(x), Data::Bool(y)) => x == y,
        (Data::Number(x), Data::Number(y)) => x == y,
        (Data::String(x), Data::String(y)) => x@ == y@,
        (Data::Fun(x), Data::Fun(y)) => x == y,
        (Data::Ref(x), Data::Ref(y)) => x == y,
        _ => false,
    }
}

impl PartialEq for Data {
    fn eq(&self, other: &Data) -> (r: bool)
        ensures
            r == same_value(*self, *other),
    {
        match (self, other) {
            (Data::Bool(x), Data::Bool(y)) => *x == *y,
            (Data::Number(x), Data::Number(y)) => *x == *y,
            (Data::String(x), Data::String(y)) => *x == *y,
            (Data::Fun(x), Data::Fun(y)) => x.0 == y.0,
            (Data::Ref(x), Data::Ref(y)) => x.0 == y.0,
            _ => false,
        }
    }
}

impl vstd::std_specs::cmp::PartialEqSpecImpl for Data {
    open spec fn obeys_eq_spec() -> bool {
        true
    }

    open spec fn eq_spec(&self, other: &Data) -> bool {
        same_value(*self, *other)
    }
}

/// The text that `Print` emits for a value.
pub open spec fn rendering(d: Data) -> Seq<char> {
    match d {
        Data::Bool(b) => if b { "true"@ } else { "false"@ },
        Data::Number(n) => decimal(n as int),
        Data::String(s) => s@,
        Data::Fun(a) => "function at:  "@ + hex(a.0 as nat),
        Data::Ref(a) => "data at:  "@ + hex(a.0 as nat),
    }
}

/// Renders a value as `Print` shows it.
pub fn display(d: &Data) -> (r: String)
    ensures
        r@ == rendering(*d),
{
    match d {
        Data::Bool(b) => {
            if *b {
                String::from_str("true")
            } else {
                String::from_str("false")
            }
        },
        Data::Number(n) => decimal_string(*n),
        Data::String(s) => s.clone(),
        Data::Fun(address) => {
            let mut out = String::from_str("function at:  ");
            let digits = hex_string(address.0);
            out.append(digits.as_str());
            out
        },
        Data::Ref(address) => {
            let mut out = String::from_str("data at:  ");
            let digits = hex_string(address.0);
            out.append(digits.as_str());
            out
        },
    }
}

/// The model of a frame: where its caller resumes, and its locals.
pub struct FrameView {
    pub return_address: InstructionAddress,
    pub stack: Seq<HeapAddress>,
}

/// One activation: the address its caller resumes at, and its locals (the
/// incoming parameters first, then whatever the activation pushes).
#[derive(Debug)]
pub struct Frame {
    pub return_address: InstructionAddress,
    pub stack: Vec<HeapAddress>,
}

impl View for Frame {
    type V = FrameView;

    open spec fn view(&self) -> FrameView {
        FrameView { return_address: self.return_address, stack: self.stack@ }
    }
}

} // verus!
