use vstd::prelude::*;

verus! {

/// An error raised while reading a variable out of literal text.
///
/// `SyntaxError` carries the one-based line the lexer had reached; the
/// message strings are diagnostics and are not pinned by any contract.
#[derive(Debug)]
pub enum LuaParseError {
    FileNotFound(String),
    IoError(String),
    SyntaxError { line: usize, message: String },
    VariableNotFound(String),
    UnexpectedToken { expected: String, actual: String },
    UnexpectedEof,
}

/// An error raised on the write path, before any byte of the target file
/// has been touched.
#[derive(Debug)]
pub enum WriteError {
    WowRunning,
    BackupFailed(String),
    WriteFailed(String),
    ParseFailed(String),
}

impl LuaParseError {
    /// A short human-readable description.
    pub fn message(&self) -> String {
        match self {
            LuaParseError::FileNotFound(p) => {
                let mut s = String::new();
                s.append("file not found: ");
                s.append(p.as_str());
                s
            },
            LuaParseError::IoError(e) => {
                let mut s = String::new();
                s.append("file read failed: ");
                s.append(e.as_str());
                s
            },
            LuaParseError::SyntaxError { line: _, message } => {
                let mut s = String::new();
                s.append("syntax error: ");
                s.append(message.as_str());
                s
            },
            LuaParseError::VariableNotFound(name) => {
                let mut s = String::new();
                s.append("variable not found: ");
                s.append(name.as_str());
                s
            },
            LuaParseError::UnexpectedToken { expected, actual } => {
                let mut s = String::new();
                s.append("unexpected token: expected ");
                s.append(expected.as_str());
                s.append(", got ");
                s.append(actual.as_str());
                s
            },
            LuaParseError::UnexpectedEof => {
                let mut s = String::new();
                s.append("unexpected end of input");
                s
            },
        }
    }
}

impl WriteError {
    /// A short human-readable description.
    pub fn message(&self) -> String {
        match self {
            WriteError::WowRunning => {
                let mut s = String::new();
                s.append("the game is running");
                s
            },
            WriteError::BackupFailed(e) => {
                let mut s = String::new();
                s.append("backup failed: ");
                s.append(e.as_str());
                s
            },
            WriteError::WriteFailed(e) => {
                let mut s = String::new();
                s.append("write failed: ");
                s.append(e.as_str());
                s
            },
            WriteError::ParseFailed(e) => {
                let mut s = String::new();
                s.append("parse failed: ");
                s.append(e.as_str());
                s
            },
        }
    }
}

} // verus!
