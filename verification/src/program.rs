//! Compiled programs on the machine. The code that the compiler writes for
//! an expression leaves exactly one more value on the stack, whatever the
//! arithmetic computes: a source that compiles without error runs to its
//! `Return` and gives a result, unless it needs more stack than there is.

use vstd::prelude::*;
use crate::chunk::constant_encoding;
use crate::chunk::decode_at;
use crate::chunk::lemma_constant_round_trip;
use crate::chunk::lemma_opcode_round_trip;
use crate::chunk::opcode_byte;
use crate::chunk::operand_width;
use crate::chunk::ChunkView;
use crate::chunk::Instruction;
use crate::chunk::OpCode;
use crate::chunk::Value;
use crate::compiler::binary_opcode;
use crate::compiler::compiled;
use crate::compiler::errors::lemma_advanced_follows;
use crate::compiler::errors::lemma_consumed_follows;
use crate::compiler::errors::lemma_infix_loop_follows;
use crate::compiler::errors::lemma_parse_precedence_follows;
use crate::compiler::errors::lemma_reported_follows;
use crate::compiler::errors::lemma_run_rule_follows;
use crate::compiler::errors::settled;
use crate::compiler::expect_end;
use crate::compiler::expect_expression;
use crate::compiler::expect_right_paren;
use crate::compiler::expect_value;
use crate::compiler::infix_loop;
use crate::compiler::initial_state;
use crate::compiler::output::lemma_infix_loop_grown;
use crate::compiler::output::lemma_parse_precedence_grown;
use crate::compiler::output::lemma_run_rule_grown;
use crate::compiler::output::pool_limit;
use crate::compiler::parse_precedence;
use crate::compiler::parse_rule;
use crate::compiler::parser::lemma_advanced;
use crate::compiler::parser::remaining;
use crate::compiler::precedence_level;
use crate::compiler::progress::lemma_run_rule_progress;
use crate::compiler::run_rule;
use crate::compiler::tighter;
use crate::compiler::CompilerView;
use crate::compiler::ParseFn;
use crate::compiler::Precedence;
use crate::listing::extends;
use crate::listing::lemma_decode_is_stable;
use crate::lox_errors::VmError;
use crate::token::Kind;
use crate::vm::finish_of;
use crate::vm::step_of;
use crate::vm::Machine;
use crate::vm::Progress;
use crate::vm::Step;
use crate::vm::STACK_MAX;

verus! {

/// How a run towards a place in the code ends.
pub enum Reached {
    /// The instruction pointer came to the place, in this state.
    At(Machine),
    /// A fault ended the run before the place.
    Fault(VmError),
    /// The program returned before the place, or the run went past it.
    Missed,
}

/// How the run from `machine` towards the offset `target` ends, with every
/// arithmetic result computed by `arithmetic`.
pub open spec fn runs_to(
    chunk: ChunkView,
    machine: Machine,
    target: int,
    arithmetic: spec_fn(OpCode, Value, Value) -> Value,
) -> Reached
    decreases chunk.code.len() - machine.ip,
{
    if machine.ip == target {
        Reached::At(machine)
    } else if machine.ip > target {
        Reached::Missed
    } else {
        match step_of(chunk, machine) {
            Err(fault) => Reached::Fault(fault),
            Ok((Step::Continue, next)) => runs_to(chunk, next, target, arithmetic),
            Ok((Step::Halt(_), _)) => Reached::Missed,
            Ok((Step::Arithmetic { op, lhs, rhs }, next)) => runs_to(
                chunk,
                Machine { ip: next.ip, stack: next.stack.push(arithmetic(op, lhs, rhs)) },
                target,
                arithmetic,
            ),
        }
    }
}

/// The lowest `kept` values of the stack `before` are still in place in
/// the stack `after`.
pub open spec fn same_below(before: Seq<Value>, after: Seq<Value>, kept: int) -> bool {
    &&& kept <= before.len()
    &&& kept <= after.len()
    &&& forall|i: int| 0 <= i < kept ==> after[i] == before[i]
}

/// The run from `machine` to `target` leaves one more value on the stack
/// and what was there before in place, or ends in a stack overflow.
pub open spec fn pushes_one(
    chunk: ChunkView,
    machine: Machine,
    target: int,
    arithmetic: spec_fn(OpCode, Value, Value) -> Value,
) -> bool {
    match runs_to(chunk, machine, target, arithmetic) {
        Reached::At(end) => {
            &&& end.ip == target
            &&& end.stack.len() == machine.stack.len() + 1
            &&& end.stack.len() <= STACK_MAX
            &&& same_below(machine.stack, end.stack, machine.stack.len() as int)
        },
        Reached::Fault(fault) => fault == VmError::StackOverflow,
        Reached::Missed => false,
    }
}

/// The run from `machine` to `target` leaves the stack as deep as it was
/// and what was below its top in place, or ends in a stack overflow.
pub open spec fn replaces_top(
    chunk: ChunkView,
    machine: Machine,
    target: int,
    arithmetic: spec_fn(OpCode, Value, Value) -> Value,
) -> bool {
    match runs_to(chunk, machine, target, arithmetic) {
        Reached::At(end) => {
            &&& end.ip == target
            &&& end.stack.len() == machine.stack.len()
            &&& same_below(machine.stack, end.stack, machine.stack.len() - 1)
        },
        Reached::Fault(fault) => fault == VmError::StackOverflow,
        Reached::Missed => false,
    }
}

/// A run to a place goes on from there: the run to a later place is the
/// run from the state reached, and a fault on the way is a fault of both.
pub proof fn lemma_runs_to_compose(
    chunk: ChunkView,
    machine: Machine,
    middle: int,
    target: int,
    arithmetic: spec_fn(OpCode, Value, Value) -> Value,
)
    requires
        middle <= target,
    ensures
        match runs_to(chunk, machine, middle, arithmetic) {
            Reached::At(reached) => runs_to(chunk, machine, target, arithmetic) == runs_to(
                chunk,
                reached,
                target,
                arithmetic,
            ),
            Reached::Fault(fault) => runs_to(chunk, machine, target, arithmetic) == Reached::Fault(
                fault,
            ),
            Reached::Missed => true,
        },
    decreases chunk.code.len() - machine.ip,
{
    if machine.ip < middle {
        match step_of(chunk, machine) {
            Ok((Step::Continue, next)) => {
                lemma_runs_to_compose(chunk, next, middle, target, arithmetic);
            },
            Ok((Step::Arithmetic { op, lhs, rhs }, next)) => {
                lemma_runs_to_compose(
                    chunk,
                    Machine { ip: next.ip, stack: next.stack.push(arithmetic(op, lhs, rhs)) },
                    middle,
                    target,
                    arithmetic,
                );
            },
            _ => {},
        }
    }
}

/// The end of a program is the end of its run from any state that the
/// run comes to.
pub proof fn lemma_finish_after(
    chunk: ChunkView,
    machine: Machine,
    target: int,
    arithmetic: spec_fn(OpCode, Value, Value) -> Value,
)
    ensures
        match runs_to(chunk, machine, target, arithmetic) {
            Reached::At(reached) => finish_of(chunk, machine, arithmetic) == finish_of(
                chunk,
                reached,
                arithmetic,
            ),
            Reached::Fault(fault) => finish_of(chunk, machine, arithmetic).0 == Progress::Failed(
                fault,
            ),
            Reached::Missed => true,
        },
    decreases chunk.code.len() - machine.ip,
{
    if machine.ip < target {
        match step_of(chunk, machine) {
            Ok((Step::Continue, next)) => {
                lemma_finish_after(chunk, next, target, arithmetic);
            },
            Ok((Step::Arithmetic { op, lhs, rhs }, next)) => {
                lemma_finish_after(
                    chunk,
                    Machine { ip: next.ip, stack: next.stack.push(arithmetic(op, lhs, rhs)) },
                    target,
                    arithmetic,
                );
            },
            _ => {},
        }
    }
}

/// An opcode without operands that was written into a chunk decodes, in
/// every chunk that extends the result, at the place where it was written.
pub proof fn lemma_written_opcode_decodes(
    before: ChunkView,
    op: OpCode,
    line: u32,
    program: ChunkView,
)
    requires
        operand_width(op) == 0,
        extends(before.write(opcode_byte(op), line), program),
    ensures
        decode_at(program.code, before.code.len() as int) == Ok::<Instruction, VmError>(
            Instruction { op, operand: None, next: (before.code.len() + 1) as usize },
        ),
{
    let after = before.write(opcode_byte(op), line);
    lemma_opcode_round_trip(op, opcode_byte(op));
    assert(after.code[before.code.len() as int] == opcode_byte(op));
    lemma_decode_is_stable(after.code, program.code, before.code.len() as int);
}

/// A constant that was written into a chunk is found, in every chunk that
/// extends the result, by the instruction at the place where it was
/// written.
pub proof fn lemma_written_constant_decodes(
    before: ChunkView,
    value: Value,
    line: u32,
    program: ChunkView,
)
    requires
        before.constants.len() < pool_limit(),
        extends(before.write_constant(value, line), program),
    ensures
        decode_at(program.code, before.code.len() as int) == Ok::<Instruction, VmError>(
            Instruction {
                op: if before.constants.len() < 256 {
                    OpCode::Constant
                } else {
                    OpCode::ConstantLong
                },
                operand: Some(before.constants.len() as usize),
                next: (before.code.len() + constant_encoding(before.constants.len()).len()) as usize,
            },
        ),
        before.constants.len() < program.constants.len(),
        program.constants[before.constants.len() as int] == value,
{
    let after = before.write_constant(value, line);
    lemma_constant_round_trip(before.code, before.constants.len());
    lemma_decode_is_stable(after.code, program.code, before.code.len() as int);
    assert(after.constants[before.constants.len() as int] == value);
}

/// What holds of a step of the compilation that met no error, with
/// `program` the chunk that the whole compilation writes and `machine` a
/// state of the machine at the place where the step begins to write.
pub open spec fn at_start(
    before: CompilerView,
    after: CompilerView,
    program: ChunkView,
    machine: Machine,
) -> bool {
    &&& settled(before.parser)
    &&& !after.parser.had_error
    &&& extends(after.chunk, program)
    &&& program.constants.len() <= pool_limit()
    &&& machine.ip == before.chunk.code.len()
    &&& machine.stack.len() <= STACK_MAX
}

/// The code of an expression pushes one value.
pub proof fn lemma_expression_pushes(
    state: CompilerView,
    numbers: Seq<Value>,
    min: Precedence,
    program: ChunkView,
    machine: Machine,
    arithmetic: spec_fn(OpCode, Value, Value) -> Value,
)
    requires
        at_start(state, parse_precedence(state, numbers, min), program, machine),
    ensures
        pushes_one(
            program,
            machine,
            parse_precedence(state, numbers, min).chunk.code.len() as int,
            arithmetic,
        ),
    decreases remaining(state.parser), 0nat,
{
    lemma_advanced(state.parser);
    lemma_advanced_follows(state.parser);
    let stepped = state.advance();
    match parse_rule(stepped.parser.previous.kind).prefix {
        None => {
            lemma_reported_follows(stepped.parser, stepped.parser.previous, expect_expression());
        },
        Some(rule) => {
            let operand = run_rule(stepped, numbers, rule);
            lemma_run_rule_progress(stepped, numbers, rule);
            lemma_run_rule_follows(stepped, numbers, rule);
            lemma_run_rule_grown(stepped, numbers, rule);
            lemma_infix_loop_follows(operand, numbers, min);
            lemma_infix_loop_grown(operand, numbers, min);
            let done = infix_loop(operand, numbers, min);
            let middle = operand.chunk.code.len() as int;
            let target = done.chunk.code.len() as int;
            lemma_rule_runs(stepped, numbers, rule, program, machine, arithmetic);
            lemma_runs_to_compose(program, machine, middle, target, arithmetic);
            match runs_to(program, machine, middle, arithmetic) {
                Reached::At(reached) => {
                    lemma_operators_keep(operand, numbers, min, program, reached, arithmetic);
                },
                _ => {},
            }
        },
    }
}

/// The code of the infix operators that follow an operand replaces the
/// operand's value by the value of the whole.
pub proof fn lemma_operators_keep(
    state: CompilerView,
    numbers: Seq<Value>,
    min: Precedence,
    program: ChunkView,
    machine: Machine,
    arithmetic: spec_fn(OpCode, Value, Value) -> Value,
)
    requires
        at_start(state, infix_loop(state, numbers, min), program, machine),
        machine.stack.len() >= 1,
    ensures
        replaces_top(
            program,
            machine,
            infix_loop(state, numbers, min).chunk.code.len() as int,
            arithmetic,
        ),
    decreases remaining(state.parser), 0nat,
{
    let rule = parse_rule(state.parser.current.kind);
    if rule.infix is Some && precedence_level(min) <= precedence_level(rule.precedence) {
        lemma_advanced(state.parser);
        lemma_advanced_follows(state.parser);
        let stepped = state.advance();
        let applied = run_rule(stepped, numbers, rule.infix->0);
        lemma_run_rule_progress(stepped, numbers, rule.infix->0);
        lemma_run_rule_follows(stepped, numbers, rule.infix->0);
        lemma_run_rule_grown(stepped, numbers, rule.infix->0);
        lemma_infix_loop_follows(applied, numbers, min);
        lemma_infix_loop_grown(applied, numbers, min);
        let done = infix_loop(applied, numbers, min);
        let middle = applied.chunk.code.len() as int;
        let target = done.chunk.code.len() as int;
        lemma_rule_runs(stepped, numbers, rule.infix->0, program, machine, arithmetic);
        lemma_runs_to_compose(program, machine, middle, target, arithmetic);
        match runs_to(program, machine, middle, arithmetic) {
            Reached::At(reached) => {
                lemma_operators_keep(applied, numbers, min, program, reached, arithmetic);
            },
            _ => {},
        }
    }
}

/// The code of a grammar rule: a rule that starts an expression pushes one
/// value, and an infix operator replaces its left operand by its result.
pub proof fn lemma_rule_runs(
    state: CompilerView,
    numbers: Seq<Value>,
    rule: ParseFn,
    program: ChunkView,
    machine: Machine,
    arithmetic: spec_fn(OpCode, Value, Value) -> Value,
)
    requires
        at_start(state, run_rule(state, numbers, rule), program, machine),
        rule == ParseFn::Binary ==> machine.stack.len() >= 1 && binary_opcode(
            state.parser.previous.kind,
        ) is Some,
    ensures
        rule == ParseFn::Binary ==> replaces_top(
            program,
            machine,
            run_rule(state, numbers, rule).chunk.code.len() as int,
            arithmetic,
        ),
        rule != ParseFn::Binary ==> pushes_one(
            program,
            machine,
            run_rule(state, numbers, rule).chunk.code.len() as int,
            arithmetic,
        ),
    decreases remaining(state.parser), 1nat,
{
    match rule {
        ParseFn::Grouping => {
            let inner = parse_precedence(state, numbers, Precedence::Assignment);
            lemma_parse_precedence_follows(state, numbers, Precedence::Assignment);
            lemma_consumed_follows(inner.parser, Kind::RightParen, expect_right_paren());
            lemma_expression_pushes(
                state,
                numbers,
                Precedence::Assignment,
                program,
                machine,
                arithmetic,
            );
        },
        ParseFn::Number => {
            lemma_reported_follows(state.parser, state.parser.previous, expect_value());
            let value = numbers[state.used as int];
            lemma_written_constant_decodes(
                state.chunk,
                value,
                state.parser.previous.line,
                program,
            );
            let target = run_rule(state, numbers, rule).chunk.code.len() as int;
            if machine.stack.len() < STACK_MAX {
                let next = Machine { ip: target, stack: machine.stack.push(value) };
                assert(step_of(program, machine) == Ok::<(Step, Machine), VmError>(
                    (Step::Continue, next),
                ));
                assert(runs_to(program, next, target, arithmetic) == Reached::At(next));
            }
        },
        ParseFn::Unary => {
            let operand = parse_precedence(state, numbers, Precedence::Unary);
            lemma_parse_precedence_follows(state, numbers, Precedence::Unary);
            lemma_expression_pushes(state, numbers, Precedence::Unary, program, machine, arithmetic);
            if state.parser.previous.kind == Kind::Minus {
                let middle = operand.chunk.code.len() as int;
                lemma_written_opcode_decodes(
                    operand.chunk,
                    OpCode::Negate,
                    operand.parser.previous.line,
                    program,
                );
                lemma_runs_to_compose(program, machine, middle, middle + 1, arithmetic);
                match runs_to(program, machine, middle, arithmetic) {
                    Reached::At(reached) => {
                        let depth = reached.stack.len() as int;
                        let next = Machine {
                            ip: middle + 1,
                            stack: reached.stack.update(
                                depth - 1,
                                crate::vm::negated(reached.stack[depth - 1]),
                            ),
                        };
                        assert(step_of(program, reached) == Ok::<(Step, Machine), VmError>(
                            (Step::Continue, next),
                        ));
                        assert(runs_to(program, next, middle + 1, arithmetic) == Reached::At(next));
                    },
                    _ => {},
                }
            }
        },
        ParseFn::Binary => {
            let operator = state.parser.previous.kind;
            let min = tighter(parse_rule(operator).precedence);
            let operand = parse_precedence(state, numbers, min);
            lemma_parse_precedence_follows(state, numbers, min);
            lemma_expression_pushes(state, numbers, min, program, machine, arithmetic);
            let op = binary_opcode(operator)->0;
            let middle = operand.chunk.code.len() as int;
            lemma_written_opcode_decodes(operand.chunk, op, operand.parser.previous.line, program);
            lemma_runs_to_compose(program, machine, middle, middle + 1, arithmetic);
            match runs_to(program, machine, middle, arithmetic) {
                Reached::At(reached) => {
                    let depth = reached.stack.len() as int;
                    let lhs = reached.stack[depth - 2];
                    let rhs = reached.stack[depth - 1];
                    let popped = Machine {
                        ip: middle + 1,
                        stack: reached.stack.subrange(0, depth - 2),
                    };
                    assert(step_of(program, reached) == Ok::<(Step, Machine), VmError>(
                        (Step::Arithmetic { op, lhs, rhs }, popped),
                    ));
                    let next = Machine {
                        ip: middle + 1,
                        stack: popped.stack.push(arithmetic(op, lhs, rhs)),
                    };
                    assert(runs_to(program, next, middle + 1, arithmetic) == Reached::At(next));
                },
                _ => {},
            }
        },
    }
}

/// A source that compiles without error gives a program that runs to its
/// end, whatever the arithmetic computes: it returns a value, or it stops
/// because the stack is full. It never finds the stack empty, a byte that
/// is no opcode, a constant that is missing, or the code at an end.
pub proof fn lemma_compiled_program_runs(
    source: Seq<u8>,
    numbers: Seq<Value>,
    chunk: ChunkView,
    arithmetic: spec_fn(OpCode, Value, Value) -> Value,
)
    requires
        !compiled(source, numbers, chunk).parser.had_error,
        compiled(source, numbers, chunk).chunk.constants.len() <= pool_limit(),
    ensures
        match finish_of(
            compiled(source, numbers, chunk).chunk,
            Machine { ip: chunk.code.len() as int, stack: Seq::empty() },
            arithmetic,
        ).0 {
            Progress::Done(value) => value is Some,
            Progress::Failed(fault) => fault == VmError::StackOverflow,
            Progress::Arithmetic { .. } => false,
        },
{
    let program = compiled(source, numbers, chunk).chunk;
    let machine = Machine { ip: chunk.code.len() as int, stack: Seq::empty() };
    let start = initial_state(source, chunk).advance();
    lemma_advanced_follows(initial_state(source, chunk).parser);
    let parsed = parse_precedence(start, numbers, Precedence::Assignment);
    lemma_parse_precedence_follows(start, numbers, Precedence::Assignment);
    lemma_parse_precedence_grown(start, numbers, Precedence::Assignment);
    lemma_consumed_follows(parsed.parser, Kind::EOF, expect_end());
    let closed = parsed.consume(Kind::EOF, expect_end());
    let target = parsed.chunk.code.len() as int;
    lemma_expression_pushes(start, numbers, Precedence::Assignment, program, machine, arithmetic);
    lemma_written_opcode_decodes(
        closed.chunk,
        OpCode::Return,
        closed.parser.previous.line,
        program,
    );
    lemma_finish_after(program, machine, target, arithmetic);
}

} // verus!
