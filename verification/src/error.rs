use vstd::prelude::*;
use crate::text::{decimal, zero_pad, append_decimal, append_decimal_padded};

verus! {

/// A structured error produced by the lexer, parser, compiler or VM.
#[derive(Debug, Clone)]
pub enum LiabError {
    /// A syntax error produced by the lexer or parser.
    SyntaxError(String),
    /// An error produced during bytecode compilation.
    CompileError { message: String, line: usize, column: usize },
    /// An error encountered during VM execution, with the instruction
    /// pointer and the name of the running function (or `"<script>"`).
    RuntimeError { message: String, ip: usize, frame_name: String },
}

impl LiabError {
    /// The human-readable text of the error.
    pub open spec fn text(&self) -> Seq<char> {
        match self {
            LiabError::SyntaxError(msg) => "Syntax Error: "@ + msg@,
            LiabError::CompileError { message, line, column } =>
                "Compile Error at ["@ + decimal(*line as nat) + ":"@ + decimal(*column as nat)
                    + "]: "@ + message@,
            LiabError::RuntimeError { message, ip, frame_name } =>
                "Runtime Error in '"@ + frame_name@ + "' at IP "@ + zero_pad(decimal(*ip as nat), 4)
                    + ": "@ + message@,
        }
    }

    /// Renders the error as text, e.g. `Runtime Error in '<script>' at IP 0005: division by zero`.
    pub fn to_string(&self) -> (s: String)
        ensures
            s@ == self.text(),
    {
        match self {
            LiabError::SyntaxError(msg) => {
                let mut s = String::from_str("Syntax Error: ");
                s.append(msg.as_str());
                s
            },
            LiabError::CompileError { message, line, column } => {
                let mut s = String::from_str("Compile Error at [");
                append_decimal(&mut s, *line);
                s.append(":");
                append_decimal(&mut s, *column);
                s.append("]: ");
                s.append(message.as_str());
                s
            },
            LiabError::RuntimeError { message, ip, frame_name } => {
                let mut s = String::from_str("Runtime Error in '");
                s.append(frame_name.as_str());
                s.append("' at IP ");
                append_decimal_padded(&mut s, *ip, 4);
                s.append(": ");
                s.append(message.as_str());
                s
            },
        }
    }
}

} // verus!
