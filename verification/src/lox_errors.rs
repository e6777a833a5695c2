//! The faults that decoding or running bytecode can end in.

use vstd::prelude::*;
use vstd::string::StringExecFns;

verus! {

/// A fault found while decoding or executing a chunk. Every one is handed
/// back to the caller as a value.
#[derive(Debug, Clone, PartialEq, Eq)]
pub enum VmError {
    /// A push would grow the operand stack beyond its capacity.
    StackOverflow,
    /// An instruction needed more operands than the stack holds.
    StackUnderflow,
    /// The byte at an instruction's place names no opcode.
    InvalidOpcode(u8),
    /// An instruction refers to a constant that the pool does not hold.
    InvalidConstant(usize),
    /// The instruction stream ends where an opcode or an operand byte is due.
    UnexpectedEnd,
    /// A fault reported by the host, with its message.
    Runtime(String),
}

/// The character of a decimal digit.
pub open spec fn digit_char(digit: nat) -> char {
    if digit == 0 {
        '0'
    } else if digit == 1 {
        '1'
    } else if digit == 2 {
        '2'
    } else if digit == 3 {
        '3'
    } else if digit == 4 {
        '4'
    } else if digit == 5 {
        '5'
    } else if digit == 6 {
        '6'
    } else if digit == 7 {
        '7'
    } else if digit == 8 {
        '8'
    } else {
        '9'
    }
}

/// A number written in decimal, without leading zeros.
pub open spec fn decimal_text(number: nat) -> Seq<char>
    decreases number,
{
    if number < 10 {
        seq![digit_char(number)]
    } else {
        decimal_text(number / 10).push(digit_char(number % 10))
    }
}

/// The text of a decimal digit.
fn digit_text(digit: usize) -> (text: &'static str)
    requires
        digit < 10,
    ensures
        text@ == seq![digit_char(digit as nat)],
{
    proof {
        reveal_strlit("0");
        reveal_strlit("1");
        reveal_strlit("2");
        reveal_strlit("3");
        reveal_strlit("4");
        reveal_strlit("5");
        reveal_strlit("6");
        reveal_strlit("7");
        reveal_strlit("8");
        reveal_strlit("9");
    }
    let text: &'static str = match digit {
        0 => "0",
        1 => "1",
        2 => "2",
        3 => "3",
        4 => "4",
        5 => "5",
        6 => "6",
        7 => "7",
        8 => "8",
        _ => "9",
    };
    assert(text@ =~= seq![digit_char(digit as nat)]);
    text
}

/// Appends a number in decimal to a text.
fn append_decimal(text: &mut String, number: usize)
    ensures
        final(text)@ == old(text)@ + decimal_text(number as nat),
    decreases number,
{
    if number >= 10 {
        append_decimal(text, number / 10);
    }
    text.append(digit_text(number % 10));
    assert(final(text)@ =~= old(text)@ + decimal_text(number as nat));
}

/// What a fault is called in a message.
pub open spec fn fault_text(fault: VmError) -> Seq<char> {
    match fault {
        VmError::StackOverflow => "Stack overflow"@,
        VmError::StackUnderflow => "Stack underflow"@,
        VmError::InvalidOpcode(byte) => "Invalid opcode: "@ + decimal_text(byte as nat),
        VmError::InvalidConstant(index) => "Invalid constant: "@ + decimal_text(index as nat),
        VmError::UnexpectedEnd => "Unexpected end of bytecode"@,
        VmError::Runtime(message) => "Runtime error: "@ + message@,
    }
}

impl VmError {
    /// The fault as a line of text for the user.
    pub fn message(&self) -> (text: String)
        ensures
            text@ == fault_text(*self),
    {
        match self {
            VmError::StackOverflow => String::from_str("Stack overflow"),
            VmError::StackUnderflow => String::from_str("Stack underflow"),
            VmError::InvalidOpcode(byte) => {
                let mut text = String::from_str("Invalid opcode: ");
                append_decimal(&mut text, *byte as usize);
                text
            },
            VmError::InvalidConstant(index) => {
                let mut text = String::from_str("Invalid constant: ");
                append_decimal(&mut text, *index);
                text
            },
            VmError::UnexpectedEnd => String::from_str("Unexpected end of bytecode"),
            VmError::Runtime(message) => {
                let mut text = String::from_str("Runtime error: ");
                text.append(message.as_str());
                text
            },
        }
    }
}

} // verus!
