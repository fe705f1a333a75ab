//! The ways in which a program can fail.

use vstd::prelude::*;

verus! {

/// Why the interpreter stopped before the end of the program.
#[derive(Clone, Copy, Debug, PartialEq, Eq, Structural)]
pub enum ForthError {
    /// A value was needed from an empty stack.
    StackUnderflow,
    /// A value was pushed onto a full stack.
    StackOverflow,
    /// The divisor of `/` was zero.
    DivisionByZero,
    /// A token is neither a word, an operator nor a 16-bit integer literal.
    UnknownToken,
    /// The name after `:` reads as a 16-bit integer literal.
    InvalidWordName,
    /// The program ended right after `:`, before any name.
    MissingWordName,
    /// The program ended before the `;` that closes a definition.
    UnterminatedDefinition,
    /// The program ended before the `THEN` that closes a conditional.
    MissingThen,
    /// The program ended before the closing quote of a string literal.
    UnterminatedString,
    /// Words and conditionals were nested deeper than the engine allows.
    RecursionLimitExceeded,
}

/// The message shown to the user for each error.
pub open spec fn message_text(e: ForthError) -> Seq<char> {
    match e {
        ForthError::StackUnderflow => "stack-underflow"@,
        ForthError::StackOverflow => "stack-overflow"@,
        ForthError::DivisionByZero => "division-by-zero"@,
        ForthError::UnknownToken => "?"@,
        ForthError::InvalidWordName => "invalid-word"@,
        ForthError::MissingWordName => "Error: Se esperaba un nombre para la palabra"@,
        ForthError::UnterminatedDefinition => "Error: Se esperaba ';' al final de la definición"@,
        ForthError::MissingThen => "Error: Falta 'THEN' en la estructura de control"@,
        ForthError::UnterminatedString => "Error: cadena de texto sin comilla final"@,
        ForthError::RecursionLimitExceeded => "recursion-limit-exceeded"@,
    }
}

impl ForthError {
    /// The message shown to the user for this error.
    pub fn message(&self) -> (text: String)
        ensures
            text@ == message_text(*self),
    {
        match self {
            ForthError::StackUnderflow => "stack-underflow".to_string(),
            ForthError::StackOverflow => "stack-overflow".to_string(),
            ForthError::DivisionByZero => "division-by-zero".to_string(),
            ForthError::UnknownToken => "?".to_string(),
            ForthError::InvalidWordName => "invalid-word".to_string(),
            ForthError::MissingWordName => "Error: Se esperaba un nombre para la palabra".to_string(),
            ForthError::UnterminatedDefinition => "Error: Se esperaba ';' al final de la definición".to_string(),
            ForthError::MissingThen => "Error: Falta 'THEN' en la estructura de control".to_string(),
            ForthError::UnterminatedString => "Error: cadena de texto sin comilla final".to_string(),
            ForthError::RecursionLimitExceeded => "recursion-limit-exceeded".to_string(),
        }
    }
}

} // verus!
