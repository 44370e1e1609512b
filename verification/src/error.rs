use vstd::prelude::*;

use crate::text::{chars_to_string, push_str, push_u64, push_usize, decimal};

verus! {

/// The errors of the ogre toolchain.
#[derive(Debug, Clone)]
pub enum OgreError {
    UnmatchedCloseBracket,
    UnmatchedOpenBracket(usize),
    BracketMismatch(String),
    TapeOverflow(String),
    CycleDetected(String),
    ImportCycle(String),
    FileNotFound(String),
    UnknownFunction(String),
    UnknownDirective(String),
    UnknownStdModule(String),
    CompilerNotFound,
    CompilationFailed(String),
    InvalidProject(String),
    ParseError(String),
    Timeout(u64),
    Other(String),
}

/// The value of an [`OgreError`]: the same error, with its texts as sequences.
pub enum Fail {
    UnmatchedCloseBracket,
    UnmatchedOpenBracket(usize),
    BracketMismatch(Seq<char>),
    TapeOverflow(Seq<char>),
    CycleDetected(Seq<char>),
    ImportCycle(Seq<char>),
    FileNotFound(Seq<char>),
    UnknownFunction(Seq<char>),
    UnknownDirective(Seq<char>),
    UnknownStdModule(Seq<char>),
    CompilerNotFound,
    CompilationFailed(Seq<char>),
    InvalidProject(Seq<char>),
    ParseError(Seq<char>),
    Timeout(u64),
    Other(Seq<char>),
}

impl View for OgreError {
    type V = Fail;

    open spec fn view(&self) -> Fail {
        match self {
            OgreError::UnmatchedCloseBracket => Fail::UnmatchedCloseBracket,
            OgreError::UnmatchedOpenBracket(n) => Fail::UnmatchedOpenBracket(*n),
            OgreError::BracketMismatch(s) => Fail::BracketMismatch(s@),
            OgreError::TapeOverflow(s) => Fail::TapeOverflow(s@),
            OgreError::CycleDetected(s) => Fail::CycleDetected(s@),
            OgreError::ImportCycle(s) => Fail::ImportCycle(s@),
            OgreError::FileNotFound(s) => Fail::FileNotFound(s@),
            OgreError::UnknownFunction(s) => Fail::UnknownFunction(s@),
            OgreError::UnknownDirective(s) => Fail::UnknownDirective(s@),
            OgreError::UnknownStdModule(s) => Fail::UnknownStdModule(s@),
            OgreError::CompilerNotFound => Fail::CompilerNotFound,
            OgreError::CompilationFailed(s) => Fail::CompilationFailed(s@),
            OgreError::InvalidProject(s) => Fail::InvalidProject(s@),
            OgreError::ParseError(s) => Fail::ParseError(s@),
            OgreError::Timeout(n) => Fail::Timeout(*n),
            OgreError::Other(s) => Fail::Other(s@),
        }
    }
}

/// The value of a result whose success carries a string.
pub open spec fn text_result(r: Result<String, OgreError>) -> Result<Seq<char>, Fail> {
    match r {
        Ok(s) => Ok(s@),
        Err(e) => Err(e@),
    }
}

/// The one-line message of an error, as the command line prints it.
pub open spec fn fail_message(e: Fail) -> Seq<char> {
    match e {
        Fail::UnmatchedCloseBracket => "unmatched `]`"@,
        Fail::UnmatchedOpenBracket(n) => "unmatched `[` at op index "@ + decimal(n as nat),
        Fail::BracketMismatch(s) => "bracket mismatch: "@ + s,
        Fail::TapeOverflow(s) => "data pointer out of bounds ("@ + s + ")"@,
        Fail::CycleDetected(s) => "cycle detected: "@ + s,
        Fail::ImportCycle(s) => "import cycle detected: "@ + s,
        Fail::FileNotFound(s) => "file not found: "@ + s,
        Fail::UnknownFunction(s) => "unknown function: "@ + s,
        Fail::UnknownDirective(s) => "unknown directive: @"@ + s,
        Fail::UnknownStdModule(s) => "unknown standard library module: "@ + s,
        Fail::CompilerNotFound =>
            "no C compiler found. Install gcc, clang, or ensure 'cc' is available on PATH"@,
        Fail::CompilationFailed(s) => "compilation failed: "@ + s,
        Fail::InvalidProject(s) => "invalid project: "@ + s,
        Fail::ParseError(s) => "parse error: "@ + s,
        Fail::Timeout(n) => "timeout: instruction limit of "@ + decimal(n as nat) + " reached"@,
        Fail::Other(s) => s,
    }
}

/// The one-line message of an error.
pub open spec fn error_message(e: OgreError) -> Seq<char> {
    fail_message(e@)
}

impl OgreError {
    /// The message of this error (what `Display` shows on the command line).
    pub fn message(&self) -> (s: String)
        ensures
            s@ == error_message(*self),
    {
        let mut v: Vec<char> = Vec::new();
        match self {
            OgreError::UnmatchedCloseBracket => push_str(&mut v, "unmatched `]`"),
            OgreError::UnmatchedOpenBracket(n) => {
                push_str(&mut v, "unmatched `[` at op index ");
                push_usize(&mut v, *n);
            },
            OgreError::BracketMismatch(s) => {
                push_str(&mut v, "bracket mismatch: ");
                push_str(&mut v, s.as_str());
            },
            OgreError::TapeOverflow(s) => {
                push_str(&mut v, "data pointer out of bounds (");
                push_str(&mut v, s.as_str());
                push_str(&mut v, ")");
            },
            OgreError::CycleDetected(s) => {
                push_str(&mut v, "cycle detected: ");
                push_str(&mut v, s.as_str());
            },
            OgreError::ImportCycle(s) => {
                push_str(&mut v, "import cycle detected: ");
                push_str(&mut v, s.as_str());
            },
            OgreError::FileNotFound(s) => {
                push_str(&mut v, "file not found: ");
                push_str(&mut v, s.as_str());
            },
            OgreError::UnknownFunction(s) => {
                push_str(&mut v, "unknown function: ");
                push_str(&mut v, s.as_str());
            },
            OgreError::UnknownDirective(s) => {
                push_str(&mut v, "unknown directive: @");
                push_str(&mut v, s.as_str());
            },
            OgreError::UnknownStdModule(s) => {
                push_str(&mut v, "unknown standard library module: ");
                push_str(&mut v, s.as_str());
            },
            OgreError::CompilerNotFound => push_str(
                &mut v,
                "no C compiler found. Install gcc, clang, or ensure 'cc' is available on PATH",
            ),
            OgreError::CompilationFailed(s) => {
                push_str(&mut v, "compilation failed: ");
                push_str(&mut v, s.as_str());
            },
            OgreError::InvalidProject(s) => {
                push_str(&mut v, "invalid project: ");
                push_str(&mut v, s.as_str());
            },
            OgreError::ParseError(s) => {
                push_str(&mut v, "parse error: ");
                push_str(&mut v, s.as_str());
            },
            OgreError::Timeout(n) => {
                push_str(&mut v, "timeout: instruction limit of ");
                push_u64(&mut v, *n);
                push_str(&mut v, " reached");
            },
            OgreError::Other(s) => push_str(&mut v, s.as_str()),
        }
        proof {
            assert(v@ =~= error_message(*self));
        }
        chars_to_string(&v)
    }
}

} // verus!
