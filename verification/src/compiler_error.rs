//! Errors reported by the compiler, with the place in the source they point at.

use vstd::prelude::*;
use crate::numbers::{spec_dec, u64_to_dec};
use crate::text::{push_str, push_char};

verus! {

/// What went wrong.
#[derive(Clone, Copy, Debug, PartialEq, Eq, Structural)]
pub enum CompilerErrorKind {
    /// Unknown token
    BadToken,
    UnexpectedToken,
    Expected,
    UnderlaredVariable,
    ReeclaretedVariable,
    UnknownFunction,
}

/// The name of an error kind, as it is printed.
pub open spec fn spec_kind_name(k: CompilerErrorKind) -> Seq<char> {
    match k {
        CompilerErrorKind::BadToken => "BadToken"@,
        CompilerErrorKind::UnexpectedToken => "UnexpectedToken"@,
        CompilerErrorKind::Expected => "Expected"@,
        CompilerErrorKind::UnderlaredVariable => "UnderlaredVariable"@,
        CompilerErrorKind::ReeclaretedVariable => "ReeclaretedVariable"@,
        CompilerErrorKind::UnknownFunction => "UnknownFunction"@,
    }
}

impl CompilerErrorKind {
    /// The name of the kind.
    pub fn to_str(&self) -> (r: &'static str)
        ensures
            r@ == spec_kind_name(*self),
    {
        match self {
            CompilerErrorKind::BadToken => "BadToken",
            CompilerErrorKind::UnexpectedToken => "UnexpectedToken",
            CompilerErrorKind::Expected => "Expected",
            CompilerErrorKind::UnderlaredVariable => "UnderlaredVariable",
            CompilerErrorKind::ReeclaretedVariable => "ReeclaretedVariable",
            CompilerErrorKind::UnknownFunction => "UnknownFunction",
        }
    }
}

/// An error at a place of a source file: its kind and message, the file, the text of
/// the line and its number, the column, and an optional hint (message and snippet).
#[derive(Debug)]
pub struct CompilerError {
    pub kind: CompilerErrorKind,
    pub message: String,
    pub file: String,
    pub line: String,
    pub line_number: u32,
    pub col_number: u32,
    /// message, snippet
    pub hint: Option<(String, String)>,
}

/// The error `e` has exactly these parts; a column of 0 is shown as column 1.
pub open spec fn spec_error_is(
    e: CompilerError,
    kind: CompilerErrorKind,
    message: Seq<char>,
    file: Seq<char>,
    line: Seq<char>,
    line_number: u32,
    col_number: u32,
) -> bool {
    &&& e.kind == kind
    &&& e.message@ == message
    &&& e.file@ == file
    &&& e.line@ == line
    &&& e.line_number == line_number
    &&& e.col_number == (if col_number == 0 { 1 } else { col_number })
}

impl CompilerError {
    /// An error with the given parts; a column of 0 becomes column 1.
    pub fn new(
        kind: CompilerErrorKind,
        message: &str,
        file: &str,
        line: &str,
        line_number: u32,
        col_number: u32,
        hint_: Option<(&str, &str)>,
    ) -> (r: Self)
        ensures
            spec_error_is(r, kind, message@, file@, line@, line_number, col_number),
            match hint_ {
                Some(h) => r.hint matches Some(rh) && rh.0@ == h.0@ && rh.1@ == h.1@,
                None => r.hint is None,
            },
    {
        let hint = match hint_ {
            Some(h) => Some((h.0.to_owned(), h.1.to_owned())),
            None => None,
        };
        CompilerError {
            kind,
            message: message.to_owned(),
            file: file.to_owned(),
            line: line.to_owned(),
            line_number,
            col_number: if col_number == 0 { 1 } else { col_number },
            hint,
        }
    }
}


/// `n` spaces.
pub open spec fn spaces(n: nat) -> Seq<char>
    decreases n,
{
    if n == 0 {
        Seq::empty()
    } else {
        spaces((n - 1) as nat).push(' ')
    }
}

/// `n` in decimal, right-aligned in a field of 4 characters as `{:4}` formats it.
pub open spec fn pad4(n: nat) -> Seq<char> {
    let d = spec_dec(n);
    if d.len() < 4 {
        spaces((4 - d.len()) as nat) + d
    } else {
        d
    }
}

/// How an error is printed: a colored header with its kind and message, the place in
/// the file, the line with its number, a marker under the column, and the hint, if
/// any, with its snippet.
pub open spec fn spec_render(e: CompilerError) -> Seq<char> {
    let main = "\x1b[91;1mError\x1b[0;1m["@ + spec_kind_name(e.kind) + "]: "@ + e.message@
        + "\x1b[0;0m\n  \x1b[36;1m-->\x1b[0m "@ + e.file@ + ":"@ + spec_dec(e.line_number as nat) + ":"@
        + spec_dec(e.col_number as nat) + "\n    \x1b[36;1m|\n"@ + pad4(e.line_number as nat) + "|\x1b[0m "@
        + e.line@ + "\n    \x1b[36;1m| \x1b[91m"@ + spaces((e.col_number - 1) as nat) + "^~~~"@ + "\n\x1b[0m"@;
    match e.hint {
        Some(h) => main + "\x1b[92;1mhelp\x1b[0m: "@ + h.0@ + "\n    \x1b[36;1m|\n"@ + pad4(e.line_number as nat)
            + "| "@ + h.1@ + "\n    |\x1b[0m\n"@,
        None => main,
    }
}

/// Appends `n` spaces.
fn push_spaces(s: &mut String, n: u32)
    ensures
        final(s)@ == old(s)@ + spaces(n as nat),
{
    let mut i: u32 = 0;
    while i < n
        invariant
            0 <= i <= n,
            s@ == old(s)@ + spaces(i as nat),
        decreases n - i,
    {
        push_char(s, ' ');
        i += 1;
    }
}

/// Appends `n` right-aligned in 4 characters.
fn push_pad4(s: &mut String, n: u32)
    ensures
        final(s)@ == old(s)@ + pad4(n as nat),
{
    let d = u64_to_dec(n as u64);
    let len = d.as_str().unicode_len();
    if len < 4 {
        push_spaces(s, (4 - len) as u32);
    }
    push_str(s, d.as_str());
}

impl CompilerError {
    /// The error as it is printed.
    pub fn render(&self) -> (r: String)
        requires
            self.col_number >= 1,
        ensures
            r@ == spec_render(*self),
    {
        let mut s = "\x1b[91;1mError\x1b[0;1m[".to_owned();
        push_str(&mut s, self.kind.to_str());
        push_str(&mut s, "]: ");
        push_str(&mut s, self.message.as_str());
        push_str(&mut s, "\x1b[0;0m\n  \x1b[36;1m-->\x1b[0m ");
        push_str(&mut s, self.file.as_str());
        push_str(&mut s, ":");
        push_str(&mut s, u64_to_dec(self.line_number as u64).as_str());
        push_str(&mut s, ":");
        push_str(&mut s, u64_to_dec(self.col_number as u64).as_str());
        push_str(&mut s, "\n    \x1b[36;1m|\n");
        push_pad4(&mut s, self.line_number);
        push_str(&mut s, "|\x1b[0m ");
        push_str(&mut s, self.line.as_str());
        push_str(&mut s, "\n    \x1b[36;1m| \x1b[91m");
        push_spaces(&mut s, self.col_number - 1);
        push_str(&mut s, "^~~~");
        push_str(&mut s, "\n\x1b[0m");
        match &self.hint {
            Some(h) => {
                push_str(&mut s, "\x1b[92;1mhelp\x1b[0m: ");
                push_str(&mut s, h.0.as_str());
                push_str(&mut s, "\n    \x1b[36;1m|\n");
                push_pad4(&mut s, self.line_number);
                push_str(&mut s, "| ");
                push_str(&mut s, h.1.as_str());
                push_str(&mut s, "\n    |\x1b[0m\n");
            },
            None => {},
        }
        s
    }
}

} // verus!
