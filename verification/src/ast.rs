//! The data model of a parsed flow: positioned instruction trees, the
//! instruction-type tags that name them, and parse-error values.

use vstd::prelude::*;

verus! {

/// A line/column position in the source text (both 1-based; the duplicate-step
/// error alone is reported at the sentinel position 0,0).
#[derive(Clone, Copy, PartialEq, Eq, Debug)]
pub struct Interval {
    pub line: u32,
    pub column: u32,
}

/// The source span of a construct, from its first to its last position.
#[derive(Clone, Copy, PartialEq, Eq, Debug)]
pub struct RangeInterval {
    pub start: Interval,
    pub end: Interval,
}

/// The argument of an emission instruction: a string literal or a variable
/// reference, resolved against memory at execution time.
#[derive(Clone, PartialEq, Eq, Debug)]
pub enum SayArg {
    Lit(Vec<u8>),
    Var(Vec<u8>),
}

/// An instruction that carries no nested block.
#[derive(Clone, PartialEq, Eq, Debug)]
pub enum SimpleInstr {
    /// Emit a message.
    Say(SayArg, Interval),
    /// Write a memory entry: name, value.
    DoSet(Vec<u8>, Vec<u8>, Interval),
    /// Suspend execution here, recording a durable `Hold`.
    HoldDir(Interval),
    /// End the step without output.
    Stop(Interval),
}

/// A loop: loop variable, optional index variable, the literal items iterated
/// over, the body, and the span of the whole construct.
#[derive(Clone, PartialEq, Eq, Debug)]
pub struct ForeachInstr {
    pub var: Vec<u8>,
    pub index_var: Option<Vec<u8>>,
    pub items: Vec<Vec<u8>>,
    pub body: Vec<SimpleInstr>,
    pub range: RangeInterval,
}

/// One node of a step's instruction list.
#[derive(Clone, PartialEq, Eq, Debug)]
pub enum Instr {
    Simple(SimpleInstr),
    Foreach(ForeachInstr),
}

/// The tag under which an instruction block is registered in a flow: the
/// start marker, or a named step.
#[derive(Clone, PartialEq, Eq, Debug)]
pub enum InstructionType {
    StartFlow,
    NormalStep(Vec<u8>),
}

/// Whether two instruction-type tags name the same block.
pub open spec fn it_eq(a: InstructionType, b: InstructionType) -> bool {
    match (a, b) {
        (InstructionType::StartFlow, InstructionType::StartFlow) => true,
        (InstructionType::NormalStep(x), InstructionType::NormalStep(y)) => x@ == y@,
        _ => false,
    }
}

/// A named block as the parser hands it over: its tag, its instruction list,
/// and its source span.
#[derive(Clone, PartialEq, Eq, Debug)]
pub struct Instruction {
    pub instruction_type: InstructionType,
    pub actions: Vec<Instr>,
    pub range: RangeInterval,
}

/// A parsed program: its instruction blocks, with pairwise distinct tags.
#[derive(Clone, PartialEq, Eq, Debug)]
pub struct Flow {
    pub flow_instructions: Vec<Instruction>,
}

/// No two blocks of the sequence share a tag.
pub open spec fn unique_types(s: Seq<Instruction>) -> bool {
    forall|i: int, j: int|
        0 <= i < j < s.len() ==> !it_eq(s[i].instruction_type, s[j].instruction_type)
}

impl Flow {
    /// The flow invariant: step tags are pairwise distinct.
    pub open spec fn wf(self) -> bool {
        unique_types(self.flow_instructions@)
    }
}

/// The kind of a parse failure.
#[derive(Clone, Copy, PartialEq, Eq, Debug)]
pub enum ParseErrorKind {
    /// Two instruction blocks share a tag.
    StepDuplicate,
    /// The input ended before a construct closed.
    Incomplete,
    /// A token other than the expected one.
    Unexpected,
}

/// A positioned parse error.
#[derive(Clone, Copy, PartialEq, Eq, Debug)]
pub struct ErrorInfo {
    pub interval: Interval,
    pub kind: ParseErrorKind,
}

impl ErrorInfo {
    /// A human-readable description of the error kind.
    pub fn message(&self) -> String {
        match self.kind {
            ParseErrorKind::StepDuplicate => "duplicate step declaration".to_owned(),
            ParseErrorKind::Incomplete => "incomplete input".to_owned(),
            ParseErrorKind::Unexpected => "unexpected token".to_owned(),
        }
    }
}

} // verus!
