use vstd::prelude::*;

use crate::chars::{char_view, ParseCharElt, SpecChar};
use crate::strutil::{dec_str, str_eq, usize_to_string};
use vstd::string::StringExecFns;

verus! {

/// The structural errors the parser can surface.
#[derive(PartialEq, Eq, Structural, Clone, Copy, Debug)]
pub enum ParseErrorKind {
    MismatchedClosingBrace,
    MismatchedClosingBracket,
    MissingComma,
    UnexpectedEndOfInput,
}

/// A structural parse error: its kind, and the offending character's position
/// when there is one (end of input carries none).
#[derive(Debug)]
pub struct ParseError {
    pub kind: ParseErrorKind,
    pub at: Option<ParseCharElt>,
}

/// The mathematical image of a `ParseError`.
pub struct SpecErr {
    pub kind: ParseErrorKind,
    pub at: Option<SpecChar>,
}

pub open spec fn err_view(e: ParseError) -> SpecErr {
    SpecErr {
        kind: e.kind,
        at: match e.at {
            Some(p) => Some(char_view(p)),
            None => None,
        },
    }
}

pub type SResult<A> = Result<A, ParseError>;

/// The message for an error raised at a position: the source label, line and
/// column, then the description.
pub open spec fn raise_msg(msg: Seq<char>, at: SpecChar) -> Seq<char> {
    at.path + ":"@ + dec_str(at.line) + ":"@ + dec_str(at.col) + ": "@ + msg
}

pub fn raise(msg: &str, elt: &ParseCharElt) -> (r: String)
    ensures
        r@ == raise_msg(msg@, char_view(*elt)),
{
    let mut s = elt.path.clone();
    s.append(":");
    let line = usize_to_string(elt.line);
    s.append(line.as_str());
    s.append(":");
    let col = usize_to_string(elt.col);
    s.append(col.as_str());
    s.append(": ");
    s.append(msg);
    s
}

/// The short description of each error kind.
pub open spec fn kind_text(k: ParseErrorKind) -> Seq<char> {
    match k {
        ParseErrorKind::MismatchedClosingBrace => "Mismatched closing brace"@,
        ParseErrorKind::MismatchedClosingBracket => "Mismatched closing bracket"@,
        ParseErrorKind::MissingComma => "Missing comma"@,
        ParseErrorKind::UnexpectedEndOfInput => "EOF: missing closing bracket"@,
    }
}

/// The human-readable surface of an error: position-carrying errors are
/// rendered through `raise_msg`, end of input by its description alone.
pub open spec fn error_message(e: SpecErr) -> Seq<char> {
    match e.at {
        Some(at) => raise_msg(kind_text(e.kind), at),
        None => kind_text(e.kind),
    }
}

impl ParseError {
    pub fn message(&self) -> (r: String)
        ensures
            r@ == error_message(err_view(*self)),
    {
        let text = match self.kind {
            ParseErrorKind::MismatchedClosingBrace => "Mismatched closing brace",
            ParseErrorKind::MismatchedClosingBracket => "Mismatched closing bracket",
            ParseErrorKind::MissingComma => "Missing comma",
            ParseErrorKind::UnexpectedEndOfInput => "EOF: missing closing bracket",
        };
        match &self.at {
            Some(elt) => raise(text, elt),
            None => text.to_owned(),
        }
    }
}

/// The terminal escape that selects each of the named colors; an unknown name
/// is handed back unchanged.
pub open spec fn color_code(c: Seq<char>) -> Seq<char> {
    if c == "d"@ || c == "dark"@ || c == "black"@ {
        "\x1b[38;5;0m"@
    } else if c == "r"@ || c == "red"@ || c == "r1"@ || c == "dimmedred"@ || c == "dr"@ {
        "\x1b[38;5;1m"@
    } else if c == "r2"@ || c == "red2"@ || c == "brightred"@ || c == "br"@ {
        "\x1b[38;5;9m"@
    } else if c == "g"@ || c == "green"@ {
        "\x1b[38;5;2m"@
    } else if c == "g2"@ || c == "green2"@ || c == "brightgreen"@ || c == "bg"@ {
        "\x1b[38;5;10m"@
    } else if c == "y"@ || c == "yellow"@ {
        "\x1b[38;5;3m"@
    } else if c == "y2"@ || c == "yellow2"@ || c == "brightyellow"@ || c == "by"@ {
        "\x1b[38;5;11m"@
    } else if c == "b"@ || c == "blue"@ {
        "\x1b[38;5;4m"@
    } else if c == "b2"@ || c == "blue2"@ || c == "brightblue"@ || c == "bb"@ {
        "\x1b[38;5;12m"@
    } else if c == "m"@ || c == "magenta"@ || c == "pink"@ {
        "\x1b[38;5;5m"@
    } else if c == "m2"@ || c == "magenta2"@ || c == "brightmagenta"@ || c == "bm"@ {
        "\x1b[38;5;13m"@
    } else if c == "c"@ || c == "cyan"@ {
        "\x1b[38;5;6m"@
    } else if c == "c2"@ || c == "cyan2"@ || c == "brightcyan"@ || c == "bc"@ {
        "\x1b[38;5;14m"@
    } else if c == "w"@ || c == "white"@ || c == "light"@ {
        "\x1b[38;5;15m"@
    } else {
        c
    }
}

pub fn get_code_color(color: &str) -> (r: String)
    ensures
        r@ == color_code(color@),
{
    if str_eq(color, "d") || str_eq(color, "dark") || str_eq(color, "black") {
        "\x1b[38;5;0m".to_owned()
    } else if str_eq(color, "r") || str_eq(color, "red") || str_eq(color, "r1") || str_eq(
        color,
        "dimmedred",
    ) || str_eq(color, "dr") {
        "\x1b[38;5;1m".to_owned()
    } else if str_eq(color, "r2") || str_eq(color, "red2") || str_eq(color, "brightred")
        || str_eq(color, "br") {
        "\x1b[38;5;9m".to_owned()
    } else if str_eq(color, "g") || str_eq(color, "green") {
        "\x1b[38;5;2m".to_owned()
    } else if str_eq(color, "g2") || str_eq(color, "green2") || str_eq(color, "brightgreen")
        || str_eq(color, "bg") {
        "\x1b[38;5;10m".to_owned()
    } else if str_eq(color, "y") || str_eq(color, "yellow") {
        "\x1b[38;5;3m".to_owned()
    } else if str_eq(color, "y2") || str_eq(color, "yellow2") || str_eq(color, "brightyellow")
        || str_eq(color, "by") {
        "\x1b[38;5;11m".to_owned()
    } else if str_eq(color, "b") || str_eq(color, "blue") {
        "\x1b[38;5;4m".to_owned()
    } else if str_eq(color, "b2") || str_eq(color, "blue2") || str_eq(color, "brightblue")
        || str_eq(color, "bb") {
        "\x1b[38;5;12m".to_owned()
    } else if str_eq(color, "m") || str_eq(color, "magenta") || str_eq(color, "pink") {
        "\x1b[38;5;5m".to_owned()
    } else if str_eq(color, "m2") || str_eq(color, "magenta2") || str_eq(color, "brightmagenta")
        || str_eq(color, "bm") {
        "\x1b[38;5;13m".to_owned()
    } else if str_eq(color, "c") || str_eq(color, "cyan") {
        "\x1b[38;5;6m".to_owned()
    } else if str_eq(color, "c2") || str_eq(color, "cyan2") || str_eq(color, "brightcyan")
        || str_eq(color, "bc") {
        "\x1b[38;5;14m".to_owned()
    } else if str_eq(color, "w") || str_eq(color, "white") || str_eq(color, "light") {
        "\x1b[38;5;15m".to_owned()
    } else {
        color.to_owned()
    }
}

} // verus!
