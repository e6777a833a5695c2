//! The virtual machine: executes a chunk on an operand stack.
//!
//! The machine decodes instructions and moves values; it does not compute
//! with them, except to negate. When an arithmetic instruction is due, the
//! machine stops and hands the operator and its two operands to its host,
//! which computes the result and resumes the machine with it.

use vstd::prelude::*;
use vstd::string::StringSliceAdditionalSpecFns;
use crate::chunk::decode_at;
use crate::chunk::operand_width;
use crate::chunk::resolve_constant;
use crate::chunk::Chunk;
use crate::chunk::ChunkView;
use crate::chunk::OpCode;
use crate::chunk::Value;
use crate::compiler::compile;
use crate::compiler::compiled;
use crate::compiler::parser::diagnostics_view;
use crate::compiler::Report;
use crate::lox_errors::VmError;

verus! {

/// The most values that the operand stack holds.
pub const STACK_MAX: usize = 256;

/// The bit that holds the sign of a number.
pub const SIGN_BIT: u64 = 0x8000_0000_0000_0000;

/// How an interpretation ended.
#[derive(Debug, Clone, Copy, PartialEq, Eq, Structural)]
pub enum InterpretResult {
    Success,
    CompileError,
    RuntimeError,
}

/// What one instruction did, where it raised no fault.
#[derive(Debug, Clone, Copy, PartialEq, Eq)]
pub enum Step {
    /// The instruction is done; the next one is due.
    Continue,
    /// The program returned, with the value on top of the stack if there
    /// was one.
    Halt(Option<Value>),
    /// An arithmetic instruction took its operands off the stack; its
    /// result is to be pushed before the next instruction runs.
    Arithmetic { op: OpCode, lhs: Value, rhs: Value },
}

/// Where a run of the machine stopped.
#[derive(Debug, Clone, PartialEq, Eq)]
pub enum Progress {
    /// The program returned, with the value on top of the stack if there
    /// was one.
    Done(Option<Value>),
    /// A fault ended the run.
    Failed(VmError),
    /// The machine waits for the result of `lhs op rhs`.
    Arithmetic { op: OpCode, lhs: Value, rhs: Value },
}

/// The state of a machine: the offset of the next instruction, and the
/// operand stack, bottom first.
pub struct Machine {
    pub ip: int,
    pub stack: Seq<Value>,
}

/// The number with the opposite sign.
pub open spec fn negated(value: Value) -> Value {
    Value(value.0 ^ SIGN_BIT)
}

/// Whether an opcode is one of the four arithmetic operators.
pub open spec fn is_arithmetic(op: OpCode) -> bool {
    op == OpCode::Add || op == OpCode::Subtract || op == OpCode::Multiply || op == OpCode::Divide
}

/// What the instruction at the machine's instruction pointer does, and the
/// state it leaves, or the fault it raises.
///
/// A constant instruction pushes its constant. `Negate` replaces the top
/// of the stack by its negation. An arithmetic instruction pops the right
/// operand, then the left one. `Return` pops the top value if there is one.
/// In each case the instruction pointer moves past the instruction.
pub open spec fn step_of(chunk: ChunkView, machine: Machine) -> Result<(Step, Machine), VmError> {
    match decode_at(chunk.code, machine.ip) {
        Err(fault) => Err(fault),
        Ok(instruction) => {
            let next = machine.ip + 1 + operand_width(instruction.op);
            let depth = machine.stack.len() as int;
            match instruction.op {
                OpCode::Constant | OpCode::ConstantLong => match resolve_constant(
                    chunk.constants,
                    instruction.operand,
                ) {
                    Err(fault) => Err(fault),
                    Ok(constant) => if depth >= STACK_MAX {
                        Err(VmError::StackOverflow)
                    } else {
                        Ok(
                            (
                                Step::Continue,
                                Machine { ip: next, stack: machine.stack.push(constant->0.value) },
                            ),
                        )
                    },
                },
                OpCode::Negate => if depth < 1 {
                    Err(VmError::StackUnderflow)
                } else {
                    Ok(
                        (
                            Step::Continue,
                            Machine {
                                ip: next,
                                stack: machine.stack.update(
                                    depth - 1,
                                    negated(machine.stack[depth - 1]),
                                ),
                            },
                        ),
                    )
                },
                OpCode::Return => if depth < 1 {
                    Ok((Step::Halt(None), Machine { ip: next, stack: machine.stack }))
                } else {
                    Ok(
                        (
                            Step::Halt(Some(machine.stack[depth - 1])),
                            Machine { ip: next, stack: machine.stack.drop_last() },
                        ),
                    )
                },
                _ => if depth < 2 {
                    Err(VmError::StackUnderflow)
                } else {
                    Ok(
                        (
                            Step::Arithmetic {
                                op: instruction.op,
                                lhs: machine.stack[depth - 2],
                                rhs: machine.stack[depth - 1],
                            },
                            Machine { ip: next, stack: machine.stack.subrange(0, depth - 2) },
                        ),
                    )
                },
            }
        },
    }
}

/// Where the machine stops when it runs from `machine`, and the state it
/// stops in: at the first instruction that returns, asks for arithmetic or
/// raises a fault. A fault leaves the state as the faulting instruction
/// found it.
pub open spec fn run_of(chunk: ChunkView, machine: Machine) -> (Progress, Machine)
    decreases chunk.code.len() - machine.ip,
{
    match step_of(chunk, machine) {
        Err(fault) => (Progress::Failed(fault), machine),
        Ok((Step::Continue, next)) => run_of(chunk, next),
        Ok((Step::Halt(value), next)) => (Progress::Done(value), next),
        Ok((Step::Arithmetic { op, lhs, rhs }, next)) => (
            Progress::Arithmetic { op, lhs, rhs },
            next,
        ),
    }
}

/// Where the machine stops when it is resumed with the result of the
/// arithmetic it asked for: the result is pushed and the run goes on. With
/// a full stack the push is a fault.
pub open spec fn resume_of(chunk: ChunkView, machine: Machine, value: Value) -> (Progress, Machine) {
    if machine.stack.len() >= STACK_MAX {
        (Progress::Failed(VmError::StackOverflow), machine)
    } else {
        run_of(chunk, Machine { ip: machine.ip, stack: machine.stack.push(value) })
    }
}

/// A chunk with nothing in it.
pub open spec fn empty_chunk() -> ChunkView {
    ChunkView { code: Seq::empty(), constants: Seq::empty(), lines: Seq::empty() }
}

/// A machine at the start of a program, with an empty stack.
pub open spec fn fresh_machine() -> Machine {
    Machine { ip: 0, stack: Seq::empty() }
}

impl Progress {
    /// The status that this stop maps to, if the run is over.
    pub fn status(&self) -> (status: Option<InterpretResult>)
        ensures
            status == match *self {
                Progress::Done(_) => Some(InterpretResult::Success),
                Progress::Failed(_) => Some(InterpretResult::RuntimeError),
                Progress::Arithmetic { .. } => None::<InterpretResult>,
            },
    {
        match self {
            Progress::Done(_) => Some(InterpretResult::Success),
            Progress::Failed(_) => Some(InterpretResult::RuntimeError),
            Progress::Arithmetic { .. } => None,
        }
    }
}

/// What interpreting a source text gave: the compiler's report, the chunk
/// it wrote, and where the run stopped. There is no run after a compile
/// error.
#[derive(Debug)]
pub struct Interpretation<'src> {
    pub report: Report<'src>,
    pub chunk: Chunk,
    pub progress: Option<Progress>,
}

impl<'src> Interpretation<'src> {
    /// The status of the interpretation, if it is over.
    pub fn status(&self) -> (status: Option<InterpretResult>)
        ensures
            status == match self.progress {
                None => Some(InterpretResult::CompileError),
                Some(Progress::Done(_)) => Some(InterpretResult::Success),
                Some(Progress::Failed(_)) => Some(InterpretResult::RuntimeError),
                Some(Progress::Arithmetic { .. }) => None::<InterpretResult>,
            },
    {
        match &self.progress {
            None => Some(InterpretResult::CompileError),
            Some(progress) => progress.status(),
        }
    }
}

/// The virtual machine: an instruction pointer and an operand stack of
/// bounded depth.
#[derive(Debug)]
pub struct VM {
    ip: usize,
    stack: Vec<Value>,
}

impl View for VM {
    type V = Machine;

    closed spec fn view(&self) -> Machine {
        Machine { ip: self.ip as int, stack: self.stack@ }
    }
}

impl VM {
    /// The stack is no deeper than its capacity.
    pub closed spec fn well_formed(&self) -> bool {
        self.stack@.len() <= STACK_MAX
    }

    /// What well-formedness says of the machine's state.
    pub proof fn lemma_well_formed(&self)
        requires
            self.well_formed(),
        ensures
            self@.stack.len() <= STACK_MAX,
            0 <= self@.ip <= usize::MAX,
    {
    }

    /// A machine at the start of a program, with an empty stack.
    pub fn new() -> (vm: VM)
        ensures
            vm.well_formed(),
            vm@ == fresh_machine(),
    {
        VM { ip: 0usize, stack: Vec::with_capacity(STACK_MAX) }
    }

    /// Empties the stack.
    pub fn init(&mut self)
        ensures
            final(self).well_formed(),
            final(self)@ == (Machine { ip: old(self)@.ip, stack: Seq::empty() }),
    {
        self.reset_stack();
    }

    fn reset_stack(&mut self)
        ensures
            final(self).ip == old(self).ip,
            final(self).stack@ == Seq::<Value>::empty(),
    {
        self.stack.clear();
    }

    /// The offset of the next instruction.
    pub fn ip(&self) -> (ip: usize)
        ensures
            ip == self@.ip,
    {
        self.ip
    }

    /// The operand stack, bottom first.
    pub fn stack(&self) -> (stack: &Vec<Value>)
        ensures
            stack@ == self@.stack,
    {
        &self.stack
    }

    /// Pushes a value. With a full stack the push is refused.
    pub fn push_value(&mut self, value: Value) -> (pushed: Result<(), VmError>)
        requires
            old(self).well_formed(),
        ensures
            final(self).well_formed(),
            match pushed {
                Ok(_) => old(self)@.stack.len() < STACK_MAX && final(self)@ == (Machine {
                    ip: old(self)@.ip,
                    stack: old(self)@.stack.push(value),
                }),
                Err(fault) => old(self)@.stack.len() >= STACK_MAX && fault
                    == VmError::StackOverflow && final(self)@ == old(self)@,
            },
    {
        if self.stack.len() >= STACK_MAX {
            return Err(VmError::StackOverflow);
        }
        self.stack.push(value);
        Ok(())
    }

    /// Pops the top value, if there is one.
    pub fn pop(&mut self) -> (top: Option<Value>)
        requires
            old(self).well_formed(),
        ensures
            final(self).well_formed(),
            final(self)@.ip == old(self)@.ip,
            match top {
                Some(value) => old(self)@.stack.len() > 0 && value == old(self)@.stack.last()
                    && final(self)@.stack == old(self)@.stack.drop_last(),
                None => old(self)@.stack.len() == 0 && final(self)@.stack == old(self)@.stack,
            },
    {
        self.stack.pop()
    }

    /// The value of the constant that a decoded instruction refers to.
    fn read_constant(chunk: &Chunk, operand: Option<usize>) -> (constant: Result<Value, VmError>)
        requires
            operand is Some,
        ensures
            match constant {
                Ok(value) => resolve_constant(chunk@.constants, operand) matches Ok(Some(found))
                    && found.value == value,
                Err(fault) => resolve_constant(chunk@.constants, operand) == Err::<
                    Option<crate::chunk::ConstantRef>,
                    VmError,
                >(fault),
            },
    {
        match chunk.constant_of(operand) {
            Err(fault) => Err(fault),
            Ok(Some(found)) => Ok(found.value),
            Ok(None) => Err(VmError::UnexpectedEnd),
        }
    }

    /// Executes the instruction at the instruction pointer. A fault leaves
    /// the machine as it was.
    pub fn step(&mut self, chunk: &Chunk) -> (done: Result<Step, VmError>)
        requires
            old(self).well_formed(),
        ensures
            final(self).well_formed(),
            match done {
                Ok(step) => step_of(chunk@, old(self)@) == Ok::<(Step, Machine), VmError>(
                    (step, final(self)@),
                ),
                Err(fault) => step_of(chunk@, old(self)@) == Err::<(Step, Machine), VmError>(fault)
                    && final(self)@ == old(self)@,
            },
    {
        let instruction = match chunk.decode(self.ip) {
            Err(fault) => {
                return Err(fault);
            },
            Ok(instruction) => instruction,
        };
        let ghost before = self.stack@;
        let depth: usize = self.stack.len();
        assert(instruction.next == self.ip + 1 + operand_width(instruction.op)) by {
            assert(chunk.code@.len() == chunk.code.len());
        }
        match instruction.op {
            OpCode::Constant | OpCode::ConstantLong => {
                let value: Value = match Self::read_constant(chunk, instruction.operand) {
                    Err(fault) => {
                        return Err(fault);
                    },
                    Ok(value) => value,
                };
                if depth >= STACK_MAX {
                    return Err(VmError::StackOverflow);
                }
                self.stack.push(value);
                self.ip = instruction.next;
                Ok(Step::Continue)
            },
            OpCode::Negate => {
                match self.stack.pop() {
                    None => Err(VmError::StackUnderflow),
                    Some(top) => {
                        self.stack.push(Value(top.0 ^ SIGN_BIT));
                        self.ip = instruction.next;
                        assert(self.stack@ =~= before.update(depth - 1, negated(before[depth - 1])));
                        Ok(Step::Continue)
                    },
                }
            },
            OpCode::Return => {
                let top: Option<Value> = self.stack.pop();
                self.ip = instruction.next;
                assert(depth >= 1 ==> self.stack@ =~= before.drop_last());
                Ok(Step::Halt(top))
            },
            OpCode::Add | OpCode::Divide | OpCode::Multiply | OpCode::Subtract => {
                if depth < 2 {
                    return Err(VmError::StackUnderflow);
                }
                let rhs: Value = self.stack[depth - 1];
                let lhs: Value = self.stack[depth - 2];
                self.stack.truncate(depth - 2);
                self.ip = instruction.next;
                assert(self.stack@ =~= before.subrange(0, depth - 2));
                Ok(Step::Arithmetic { op: instruction.op, lhs, rhs })
            },
        }
    }

    /// Runs from the instruction pointer until the program returns, asks
    /// for arithmetic or raises a fault.
    pub fn run(&mut self, chunk: &Chunk) -> (progress: Progress)
        requires
            old(self).well_formed(),
        ensures
            final(self).well_formed(),
            (progress, final(self)@) == run_of(chunk@, old(self)@),
    {
        loop
            invariant
                self.well_formed(),
                run_of(chunk@, old(self)@) == run_of(chunk@, self@),
            decreases chunk.code@.len() - self.ip,
        {
            match self.step(chunk) {
                Err(fault) => {
                    return Progress::Failed(fault);
                },
                Ok(Step::Continue) => {},
                Ok(Step::Halt(value)) => {
                    return Progress::Done(value);
                },
                Ok(Step::Arithmetic { op, lhs, rhs }) => {
                    return Progress::Arithmetic { op, lhs, rhs };
                },
            }
        }
    }

    /// Pushes the result of the arithmetic that the machine asked for and
    /// runs on.
    pub fn resume(&mut self, chunk: &Chunk, value: Value) -> (progress: Progress)
        requires
            old(self).well_formed(),
        ensures
            final(self).well_formed(),
            (progress, final(self)@) == resume_of(chunk@, old(self)@, value),
    {
        match self.push_value(value) {
            Err(fault) => Progress::Failed(fault),
            Ok(_) => self.run(chunk),
        }
    }

    /// Compiles `source` and, if that met no error, runs the program from
    /// its start on an empty stack. `numbers` holds the values of the
    /// number literals of `source`, in the order they occur. After a
    /// compile error nothing is executed and the machine stays as it was.
    pub fn interpret<'src>(&mut self, source: &'src str, numbers: &[Value]) -> (outcome:
        Interpretation<'src>)
        requires
            old(self).well_formed(),
            source.spec_bytes().len() < u32::MAX,
        ensures
            final(self).well_formed(),
            ({
                let done = compiled(source.spec_bytes(), numbers@, empty_chunk());
                &&& outcome.chunk@ == done.chunk
                &&& outcome.report.success == !done.parser.had_error
                &&& diagnostics_view(outcome.report.diagnostics@) == done.parser.diagnostics
                &&& if done.parser.had_error {
                    outcome.progress is None && final(self)@ == old(self)@
                } else {
                    outcome.progress matches Some(progress) && (progress, final(self)@) == run_of(
                        done.chunk,
                        fresh_machine(),
                    )
                }
            }),
    {
        let mut chunk: Chunk = Chunk::new();
        assert(chunk@ == empty_chunk());
        let report: Report<'src> = compile(source, numbers, &mut chunk);
        if !report.success {
            return Interpretation { report, chunk, progress: None };
        }
        self.ip = 0;
        self.reset_stack();
        let progress: Progress = self.run(&chunk);
        Interpretation { report, chunk, progress: Some(progress) }
    }
}

/// One instruction moves the instruction pointer forward and keeps the
/// stack within its capacity; after a request for arithmetic there is room
/// for the result.
pub proof fn lemma_step_keeps_stack_bounded(chunk: ChunkView, machine: Machine)
    requires
        machine.stack.len() <= STACK_MAX,
    ensures
        match step_of(chunk, machine) {
            Ok((step, next)) => {
                &&& machine.ip < next.ip <= chunk.code.len()
                &&& next.stack.len() <= STACK_MAX
                &&& step is Arithmetic ==> next.stack.len() + 2 <= STACK_MAX
            },
            Err(_) => true,
        },
{
}

/// A run keeps the stack within its capacity, wherever it stops, and a run
/// that stops for arithmetic leaves room for the result: resuming it with
/// the result raises no stack overflow at the push.
pub proof fn lemma_run_keeps_stack_bounded(chunk: ChunkView, machine: Machine)
    requires
        machine.stack.len() <= STACK_MAX,
    ensures
        run_of(chunk, machine).1.stack.len() <= STACK_MAX,
        run_of(chunk, machine).0 is Arithmetic ==> run_of(chunk, machine).1.stack.len() + 2
            <= STACK_MAX,
        run_of(chunk, machine).0 is Arithmetic ==> forall|value: Value|
            resume_of(chunk, run_of(chunk, machine).1, value) == run_of(
                chunk,
                Machine {
                    ip: run_of(chunk, machine).1.ip,
                    stack: run_of(chunk, machine).1.stack.push(value),
                },
            ),
    decreases chunk.code.len() - machine.ip,
{
    lemma_step_keeps_stack_bounded(chunk, machine);
    match step_of(chunk, machine) {
        Ok((Step::Continue, next)) => {
            lemma_run_keeps_stack_bounded(chunk, next);
        },
        _ => {},
    }
}

/// Where a program ends when its host computes every arithmetic result
/// with `arithmetic` and resumes the machine with it: at the first
/// instruction that returns or raises a fault.
pub open spec fn finish_of(
    chunk: ChunkView,
    machine: Machine,
    arithmetic: spec_fn(OpCode, Value, Value) -> Value,
) -> (Progress, Machine)
    decreases chunk.code.len() - machine.ip,
{
    match step_of(chunk, machine) {
        Err(fault) => (Progress::Failed(fault), machine),
        Ok((Step::Continue, next)) => finish_of(chunk, next, arithmetic),
        Ok((Step::Halt(value), next)) => (Progress::Done(value), next),
        Ok((Step::Arithmetic { op, lhs, rhs }, next)) => finish_of(
            chunk,
            Machine { ip: next.ip, stack: next.stack.push(arithmetic(op, lhs, rhs)) },
            arithmetic,
        ),
    }
}

/// A program's end is reached by running, and resuming with the result
/// each time the run stops for arithmetic.
pub proof fn lemma_finish_by_resuming(
    chunk: ChunkView,
    machine: Machine,
    arithmetic: spec_fn(OpCode, Value, Value) -> Value,
)
    requires
        machine.stack.len() <= STACK_MAX,
    ensures
        !(finish_of(chunk, machine, arithmetic).0 is Arithmetic),
        !(run_of(chunk, machine).0 is Arithmetic) ==> finish_of(chunk, machine, arithmetic)
            == run_of(chunk, machine),
        run_of(chunk, machine).0 matches Progress::Arithmetic { op, lhs, rhs } ==> finish_of(
            chunk,
            machine,
            arithmetic,
        ) == finish_of(
            chunk,
            Machine {
                ip: run_of(chunk, machine).1.ip,
                stack: run_of(chunk, machine).1.stack.push(arithmetic(op, lhs, rhs)),
            },
            arithmetic,
        ),
    decreases chunk.code.len() - machine.ip,
{
    lemma_step_keeps_stack_bounded(chunk, machine);
    match step_of(chunk, machine) {
        Ok((Step::Continue, next)) => {
            lemma_finish_by_resuming(chunk, next, arithmetic);
        },
        Ok((Step::Arithmetic { op, lhs, rhs }, next)) => {
            lemma_finish_by_resuming(
                chunk,
                Machine { ip: next.ip, stack: next.stack.push(arithmetic(op, lhs, rhs)) },
                arithmetic,
            );
        },
        _ => {},
    }
}

} // verus!
