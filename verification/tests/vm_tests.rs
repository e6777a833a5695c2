use rlox::chunk::{Chunk, OpCode, Value};
use rlox::lox_errors::VmError;
use rlox::scanner::number_lexemes;
use rlox::vm::{InterpretResult, Interpretation, Progress, Step, STACK_MAX, VM};

fn number(x: f64) -> Value {
    Value(x.to_bits())
}

fn values(source: &str) -> Vec<Value> {
    number_lexemes(source)
        .iter()
        .map(|l| number(std::str::from_utf8(l).unwrap().parse::<f64>().unwrap()))
        .collect()
}

fn apply(op: OpCode, lhs: Value, rhs: Value) -> Value {
    let (a, b) = (f64::from_bits(lhs.0), f64::from_bits(rhs.0));
    number(match op {
        OpCode::Add => a + b,
        OpCode::Subtract => a - b,
        OpCode::Multiply => a * b,
        OpCode::Divide => a / b,
        _ => unreachable!(),
    })
}

fn finish(vm: &mut VM, chunk: &Chunk, mut progress: Progress) -> Progress {
    while let Progress::Arithmetic { op, lhs, rhs } = progress {
        progress = vm.resume(chunk, apply(op, lhs, rhs));
    }
    progress
}

fn evaluate(source: &str) -> (InterpretResult, Option<f64>) {
    let mut vm = VM::new();
    let numbers = values(source);
    let Interpretation { chunk, progress, .. } = vm.interpret(source, &numbers);
    match progress {
        None => (InterpretResult::CompileError, None),
        Some(progress) => match finish(&mut vm, &chunk, progress) {
            Progress::Done(value) => (InterpretResult::Success, value.map(|v| f64::from_bits(v.0))),
            _ => (InterpretResult::RuntimeError, None),
        },
    }
}

#[test]
fn interpret_arithmetic() {
    assert_eq!(evaluate("2 + 3 * 4"), (InterpretResult::Success, Some(14.0)));
}

#[test]
fn interpret_left_associative_subtraction() {
    assert_eq!(evaluate("8 - 3 - 2"), (InterpretResult::Success, Some(3.0)));
}

#[test]
fn interpret_more_expressions() {
    assert_eq!(evaluate("(2 + 3) * 4"), (InterpretResult::Success, Some(20.0)));
    assert_eq!(evaluate("-(1.5 + 2.5) / 8"), (InterpretResult::Success, Some(-0.5)));
    assert_eq!(evaluate("8 / 4 / 2"), (InterpretResult::Success, Some(1.0)));
    assert_eq!(evaluate("1 + 2 * 3"), (InterpretResult::Success, Some(7.0)));
    assert_eq!(evaluate("42.01"), (InterpretResult::Success, Some(42.01)));
    assert_eq!(evaluate("--3"), (InterpretResult::Success, Some(3.0)));
    assert_eq!(evaluate("7 - -2"), (InterpretResult::Success, Some(9.0)));
}

#[test]
fn division_by_zero_is_no_fault() {
    assert_eq!(evaluate("1 / 0"), (InterpretResult::Success, Some(f64::INFINITY)));
    assert_eq!(evaluate("-1 / 0"), (InterpretResult::Success, Some(f64::NEG_INFINITY)));
    let (status, value) = evaluate("0 / 0");
    assert_eq!(status, InterpretResult::Success);
    assert!(value.unwrap().is_nan());
}

#[test]
fn interpret_compile_error_executes_nothing() {
    let mut vm = VM::new();
    vm.push_value(number(5.0)).unwrap();
    let before_ip = vm.ip();
    let outcome = vm.interpret("(1 +", &values("(1 +"));
    assert_eq!(outcome.status(), Some(InterpretResult::CompileError));
    assert!(outcome.progress.is_none());
    assert!(!outcome.report.success);
    assert_eq!(outcome.report.diagnostics.len(), 1);
    assert_eq!(vm.stack(), &vec![number(5.0)]);
    assert_eq!(vm.ip(), before_ip);
    assert_eq!(evaluate("(1 +"), (InterpretResult::CompileError, None));
}

#[test]
fn interpret_clears_the_stack_first() {
    let mut vm = VM::new();
    vm.push_value(number(5.0)).unwrap();
    let outcome = vm.interpret("7", &values("7"));
    assert_eq!(outcome.progress, Some(Progress::Done(Some(number(7.0)))));
    assert_eq!(outcome.status(), Some(InterpretResult::Success));
    assert!(vm.stack().is_empty());
}

#[test]
fn interpret_stops_for_arithmetic() {
    let mut vm = VM::new();
    let outcome = vm.interpret("6 / 3", &values("6 / 3"));
    assert_eq!(outcome.status(), None);
    assert_eq!(
        outcome.progress,
        Some(Progress::Arithmetic { op: OpCode::Divide, lhs: number(6.0), rhs: number(3.0) })
    );
    assert!(vm.stack().is_empty());
    assert_eq!(vm.resume(&outcome.chunk, number(2.0)), Progress::Done(Some(number(2.0))));
}

#[test]
fn negate_on_empty_stack_is_a_runtime_error() {
    let mut chunk = Chunk::new();
    chunk.write_chunk(OpCode::Negate, 1);
    let mut vm = VM::new();
    let progress = vm.run(&chunk);
    assert_eq!(progress, Progress::Failed(VmError::StackUnderflow));
    assert_eq!(progress.status(), Some(InterpretResult::RuntimeError));
    assert_eq!(vm.ip(), 0);
}

#[test]
fn binary_operator_needs_two_operands() {
    let mut chunk = Chunk::new();
    chunk.write_constant(number(1.0), 1);
    chunk.write_chunk(OpCode::Add, 1);
    let mut vm = VM::new();
    assert_eq!(vm.run(&chunk), Progress::Failed(VmError::StackUnderflow));
    assert_eq!(vm.stack(), &vec![number(1.0)]);
    assert_eq!(vm.ip(), 2);
}

#[test]
fn return_on_empty_stack_is_no_error() {
    let mut chunk = Chunk::new();
    chunk.write_chunk(OpCode::Return, 1);
    let mut vm = VM::new();
    let progress = vm.run(&chunk);
    assert_eq!(progress, Progress::Done(None));
    assert_eq!(progress.status(), Some(InterpretResult::Success));
}

#[test]
fn negate_flips_the_sign() {
    for x in [1.5f64, -2.0, 0.0, -0.0, f64::INFINITY, f64::MAX, f64::MIN_POSITIVE] {
        let mut chunk = Chunk::new();
        chunk.write_constant(number(x), 1);
        chunk.write_chunk(OpCode::Negate, 1);
        chunk.write_chunk(OpCode::Return, 1);
        let mut vm = VM::new();
        assert_eq!(vm.run(&chunk), Progress::Done(Some(number(-x))));
    }
    let mut chunk = Chunk::new();
    chunk.write_constant(number(f64::NAN), 1);
    chunk.write_chunk(OpCode::Negate, 1);
    chunk.write_chunk(OpCode::Return, 1);
    let mut vm = VM::new();
    assert_eq!(vm.run(&chunk), Progress::Done(Some(number(-f64::NAN))));
}

#[test]
fn operands_come_off_the_stack_right_then_left() {
    let mut chunk = Chunk::new();
    chunk.write_constant(number(1.0), 1);
    chunk.write_constant(number(8.0), 1);
    chunk.write_constant(number(2.0), 1);
    chunk.write_chunk(OpCode::Subtract, 1);
    chunk.write_chunk(OpCode::Return, 1);
    let mut vm = VM::new();
    let progress = vm.run(&chunk);
    assert_eq!(
        progress,
        Progress::Arithmetic { op: OpCode::Subtract, lhs: number(8.0), rhs: number(2.0) }
    );
    assert_eq!(vm.stack(), &vec![number(1.0)]);
    assert_eq!(vm.ip(), 7);
    assert_eq!(finish(&mut vm, &chunk, progress), Progress::Done(Some(number(6.0))));
    assert_eq!(vm.stack(), &vec![number(1.0)]);
}

#[test]
fn long_constants_are_read_little_endian() {
    let mut chunk = Chunk::new();
    for i in 0..300 {
        chunk.add_constant(number(i as f64));
    }
    chunk.write_chunk(OpCode::ConstantLong, 1);
    chunk.write(0x2b, 1);
    chunk.write(0x01, 1);
    chunk.write(0x00, 1);
    chunk.write_chunk(OpCode::Return, 1);
    let mut vm = VM::new();
    assert_eq!(vm.run(&chunk), Progress::Done(Some(number(299.0))));
}

#[test]
fn missing_constant_is_a_runtime_error() {
    let mut chunk = Chunk::new();
    chunk.write_chunk(OpCode::Constant, 1);
    chunk.write(0, 1);
    let mut vm = VM::new();
    assert_eq!(vm.run(&chunk), Progress::Failed(VmError::InvalidConstant(0)));
    let mut long = Chunk::new();
    long.write_constant(number(1.0), 1);
    long.write_chunk(OpCode::ConstantLong, 1);
    long.write(1, 1);
    long.write(0, 1);
    long.write(0, 1);
    let mut vm = VM::new();
    assert_eq!(vm.run(&long), Progress::Failed(VmError::InvalidConstant(1)));
    assert_eq!(vm.stack(), &vec![number(1.0)]);
}

#[test]
fn invalid_opcode_is_a_runtime_error() {
    let mut chunk = Chunk::new();
    chunk.write(99, 1);
    let mut vm = VM::new();
    assert_eq!(vm.run(&chunk), Progress::Failed(VmError::InvalidOpcode(99)));
}

#[test]
fn running_off_the_end_is_a_runtime_error() {
    let mut chunk = Chunk::new();
    chunk.write_constant(number(1.0), 1);
    let mut vm = VM::new();
    assert_eq!(vm.run(&chunk), Progress::Failed(VmError::UnexpectedEnd));
    assert_eq!(VM::new().run(&Chunk::new()), Progress::Failed(VmError::UnexpectedEnd));
}

#[test]
fn stack_overflow_is_a_runtime_error() {
    let mut chunk = Chunk::new();
    chunk.add_constant(number(1.0));
    for _ in 0..STACK_MAX + 1 {
        chunk.write_chunk(OpCode::Constant, 1);
        chunk.write(0, 1);
    }
    chunk.write_chunk(OpCode::Return, 1);
    let mut vm = VM::new();
    assert_eq!(vm.run(&chunk), Progress::Failed(VmError::StackOverflow));
    assert_eq!(vm.stack().len(), STACK_MAX);
    assert_eq!(vm.ip(), 2 * STACK_MAX);
}

#[test]
fn push_and_pop() {
    let mut vm = VM::new();
    assert_eq!(vm.pop(), None);
    for i in 0..STACK_MAX {
        assert_eq!(vm.push_value(number(i as f64)), Ok(()));
    }
    assert_eq!(vm.push_value(number(0.5)), Err(VmError::StackOverflow));
    assert_eq!(vm.stack().len(), STACK_MAX);
    assert_eq!(vm.pop(), Some(number((STACK_MAX - 1) as f64)));
    assert_eq!(vm.stack().len(), STACK_MAX - 1);
    vm.init();
    assert!(vm.stack().is_empty());
    assert_eq!(vm.pop(), None);
}

#[test]
fn resume_on_a_full_stack_is_a_runtime_error() {
    let mut vm = VM::new();
    for i in 0..STACK_MAX {
        vm.push_value(number(i as f64)).unwrap();
    }
    let mut chunk = Chunk::new();
    chunk.write_chunk(OpCode::Return, 1);
    assert_eq!(vm.resume(&chunk, number(1.0)), Progress::Failed(VmError::StackOverflow));
    assert_eq!(vm.ip(), 0);
}

#[test]
fn step_by_step() {
    let mut chunk = Chunk::new();
    chunk.write_constant(number(2.0), 1);
    chunk.write_constant(number(3.0), 1);
    chunk.write_chunk(OpCode::Multiply, 1);
    chunk.write_chunk(OpCode::Negate, 1);
    chunk.write_chunk(OpCode::Return, 1);
    let mut vm = VM::new();
    assert_eq!(vm.step(&chunk), Ok(Step::Continue));
    assert_eq!(vm.ip(), 2);
    assert_eq!(vm.step(&chunk), Ok(Step::Continue));
    assert_eq!(vm.stack(), &vec![number(2.0), number(3.0)]);
    assert_eq!(
        vm.step(&chunk),
        Ok(Step::Arithmetic { op: OpCode::Multiply, lhs: number(2.0), rhs: number(3.0) })
    );
    assert!(vm.stack().is_empty());
    assert_eq!(vm.ip(), 5);
    vm.push_value(number(6.0)).unwrap();
    assert_eq!(vm.step(&chunk), Ok(Step::Continue));
    assert_eq!(vm.stack(), &vec![number(-6.0)]);
    assert_eq!(vm.step(&chunk), Ok(Step::Halt(Some(number(-6.0)))));
    assert!(vm.stack().is_empty());
    assert_eq!(vm.ip(), 7);
    assert_eq!(vm.step(&chunk), Err(VmError::UnexpectedEnd));
}

#[test]
fn compiled_programs_return_a_value_whatever_the_arithmetic() {
    let sources = ["1", "-1", "1 + 2", "(1 + 2) * -(3 - 4) / 5", "((7))", "1 - 2 - 3 - 4", "--1 * --2"];
    for source in sources {
        let mut vm = VM::new();
        let numbers = values(source);
        let Interpretation { chunk, progress, report } = vm.interpret(source, &numbers);
        assert!(report.success, "{source}");
        let mut progress = progress.unwrap();
        // An arithmetic that gives the same answer to every question.
        while let Progress::Arithmetic { .. } = progress {
            progress = vm.resume(&chunk, number(0.25));
        }
        assert!(matches!(progress, Progress::Done(Some(_))), "{source}: {progress:?}");
        assert!(vm.stack().is_empty());
        assert_eq!(vm.ip(), chunk.code.len());
    }
}

#[test]
fn deep_nesting_overflows_the_stack() {
    let depth = STACK_MAX + 10;
    let mut source = String::new();
    for _ in 0..depth {
        source.push_str("1 + (");
    }
    source.push('1');
    for _ in 0..depth {
        source.push(')');
    }
    let mut vm = VM::new();
    let numbers = values(&source);
    let outcome = vm.interpret(&source, &numbers);
    assert!(outcome.report.success);
    assert_eq!(outcome.progress, Some(Progress::Failed(VmError::StackOverflow)));
    assert_eq!(outcome.status(), Some(InterpretResult::RuntimeError));
    assert_eq!(vm.stack().len(), STACK_MAX);
    // One level less than the capacity still fits.
    let shallow = format!("{}1{}", "1 + (".repeat(STACK_MAX - 1), ")".repeat(STACK_MAX - 1));
    assert_eq!(evaluate(&shallow), (InterpretResult::Success, Some(STACK_MAX as f64)));
}
