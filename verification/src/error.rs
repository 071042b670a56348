//! The errors of parsing, registering and running commands.

use vstd::prelude::*;
use vstd::string::StringExecFns;

verus! {

/// Errors that can occur during command parsing, registration, or execution.
#[derive(Debug)]
pub enum CommandError {
    /// The requested command was not found in the registry.
    NotFound(String),
    /// The command input could not be parsed correctly.
    ParseError(String),
    /// The number of arguments provided doesn't match what the command expects.
    ArgumentCountMismatch {
        /// Number of arguments the command expects
        expected: usize,
        /// Number of arguments actually provided
        got: usize,
    },
    /// An argument could not be converted to the expected type.
    TypeConversionError {
        /// The argument value that failed to convert
        arg: String,
        /// The target type name
        target_type: &'static str,
    },
    /// An error occurred during command execution.
    ExecutionError(String),
    /// An async command was called with a sync execution method.
    RequiresAsyncRuntime,
    /// A sync command was called with an async execution method.
    SyncCommandInAsyncContext,
}

/// Result type alias for Quark operations.
pub type Result<T> = core::result::Result<T, CommandError>;

/// The decimal digit `d` (for `d < 10`) as a character.
pub open spec fn digit_char(d: nat) -> char {
    if d == 0 {
        '0'
    } else if d == 1 {
        '1'
    } else if d == 2 {
        '2'
    } else if d == 3 {
        '3'
    } else if d == 4 {
        '4'
    } else if d == 5 {
        '5'
    } else if d == 6 {
        '6'
    } else if d == 7 {
        '7'
    } else if d == 8 {
        '8'
    } else {
        '9'
    }
}

/// The decimal representation of `n`, most significant digit first, without
/// leading zeros.
pub open spec fn decimal(n: nat) -> Seq<char>
    decreases n,
{
    if n < 10 {
        seq![digit_char(n)]
    } else {
        decimal(n / 10).push(digit_char(n % 10))
    }
}

/// The value of a decimal digit character (0 for any other character).
pub open spec fn digit_value(c: char) -> nat {
    if c == '1' {
        1
    } else if c == '2' {
        2
    } else if c == '3' {
        3
    } else if c == '4' {
        4
    } else if c == '5' {
        5
    } else if c == '6' {
        6
    } else if c == '7' {
        7
    } else if c == '8' {
        8
    } else if c == '9' {
        9
    } else {
        0
    }
}

/// The number that the decimal digits `s` denote.
pub open spec fn decimal_value(s: Seq<char>) -> nat
    decreases s.len(),
{
    if s.len() == 0 {
        0
    } else {
        decimal_value(s.drop_last()) * 10 + digit_value(s.last())
    }
}

/// Reading back the decimal representation of `n` gives `n`, and it has a
/// leading zero only when it is `0` itself.
pub proof fn lemma_decimal_reads_back(n: nat)
    ensures
        decimal_value(decimal(n)) == n,
        decimal(n).len() > 0,
        decimal(n)[0] == '0' ==> n == 0,
    decreases n,
{
    let d = decimal(n);
    assert(digit_value(digit_char(n % 10)) == n % 10);
    if n >= 10 {
        lemma_decimal_reads_back(n / 10);
        assert(d.drop_last() =~= decimal(n / 10));
        assert(d[0] == decimal(n / 10)[0]);
        assert(d.last() == digit_char(n % 10));
        assert(n == (n / 10) * 10 + n % 10);
        assert(decimal_value(d) == decimal_value(decimal(n / 10)) * 10 + digit_value(d.last()));
    } else {
        assert(d.drop_last() =~= Seq::<char>::empty());
        assert(n % 10 == n);
        assert(d.last() == digit_char(n));
        assert(decimal_value(d) == decimal_value(d.drop_last()) * 10 + digit_value(d.last()));
        assert(decimal_value(d.drop_last()) == 0);
    }
}

fn digit(d: usize) -> (c: char)
    requires
        d < 10,
    ensures
        c == digit_char(d as nat),
{
    if d == 0 {
        '0'
    } else if d == 1 {
        '1'
    } else if d == 2 {
        '2'
    } else if d == 3 {
        '3'
    } else if d == 4 {
        '4'
    } else if d == 5 {
        '5'
    } else if d == 6 {
        '6'
    } else if d == 7 {
        '7'
    } else if d == 8 {
        '8'
    } else {
        '9'
    }
}

/// The decimal representation of `n`, as `{}` formats it.
pub fn decimal_string(n: usize) -> (s: String)
    ensures
        s@ == decimal(n as nat),
    decreases n,
{
    if n < 10 {
        let mut s = String::new();
        crate::text::push_char(&mut s, digit(n));
        assert(s@ =~= seq![digit_char(n as nat)]);
        s
    } else {
        let mut s = decimal_string(n / 10);
        crate::text::push_char(&mut s, digit(n % 10));
        s
    }
}

impl CommandError {
    /// The human-readable message of this error.
    pub open spec fn message(&self) -> Seq<char> {
        match self {
            CommandError::NotFound(name) => "Command not found: "@ + name@,
            CommandError::ParseError(msg) => "Parse error: "@ + msg@,
            CommandError::ArgumentCountMismatch { expected, got } => "Argument count mismatch: expected "@
                + decimal(*expected as nat) + ", got "@ + decimal(*got as nat),
            CommandError::TypeConversionError { arg, target_type } =>
                "Type conversion error: could not convert '"@ + arg@ + "' to "@ + target_type@,
            CommandError::ExecutionError(msg) => "Execution error: "@ + msg@,
            CommandError::RequiresAsyncRuntime =>
                "This command requires an async runtime - use run_async() instead of run()"@,
            CommandError::SyncCommandInAsyncContext =>
                "This command is synchronous - use run() instead of run_async()"@,
        }
    }

    /// Renders the error as its human-readable message.
    pub fn to_string(&self) -> (s: String)
        ensures
            s@ == self.message(),
    {
        match self {
            CommandError::NotFound(name) => {
                let mut s = String::from_str("Command not found: ");
                s.append(name.as_str());
                s
            },
            CommandError::ParseError(msg) => {
                let mut s = String::from_str("Parse error: ");
                s.append(msg.as_str());
                s
            },
            CommandError::ArgumentCountMismatch { expected, got } => {
                let mut s = String::from_str("Argument count mismatch: expected ");
                let e = decimal_string(*expected);
                s.append(e.as_str());
                s.append(", got ");
                let g = decimal_string(*got);
                s.append(g.as_str());
                s
            },
            CommandError::TypeConversionError { arg, target_type } => {
                let mut s = String::from_str("Type conversion error: could not convert '");
                s.append(arg.as_str());
                s.append("' to ");
                s.append(target_type);
                s
            },
            CommandError::ExecutionError(msg) => {
                let mut s = String::from_str("Execution error: ");
                s.append(msg.as_str());
                s
            },
            CommandError::RequiresAsyncRuntime => String::from_str(
                "This command requires an async runtime - use run_async() instead of run()",
            ),
            CommandError::SyncCommandInAsyncContext => String::from_str(
                "This command is synchronous - use run() instead of run_async()",
            ),
        }
    }
}

} // verus!
