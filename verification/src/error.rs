use vstd::prelude::*;
use vstd::string::StringExecFns;
use crate::host::RuntimeError;
use crate::token::{Token, TokenView};
use crate::token_type::TokenType;

verus! {

/// Taken on trust from the standard library: `String::push` appends the
/// character `c` to the end of the text and leaves what was there as it was.
pub assume_specification[ std::string::String::push ](text: &mut std::string::String, c: char)
    ensures
        final(text)@ == old(text)@.push(c),
;

/// The character that stands for a digit below ten.
pub open spec fn digit(d: nat) -> char {
    if d == 0 {
        '0'
    } else if d == 1 {
        '1'
    } else if d == 2 {
        '2'
    } else if d == 3 {
        '3'
    } else if d == 4 {
        '4'
    } else if d == 5 {
        '5'
    } else if d == 6 {
        '6'
    } else if d == 7 {
        '7'
    } else if d == 8 {
        '8'
    } else {
        '9'
    }
}

/// A natural number in decimal: no sign, no leading zero, `0` for zero.
pub open spec fn decimal(n: nat) -> Seq<char>
    decreases n,
{
    if n < 10 {
        seq![digit(n)]
    } else {
        decimal(n / 10).push(digit(n % 10))
    }
}

fn digit_char(d: usize) -> (c: char)
    requires
        d < 10,
    ensures
        c == digit(d as nat),
{
    match d {
        0 => '0',
        1 => '1',
        2 => '2',
        3 => '3',
        4 => '4',
        5 => '5',
        6 => '6',
        7 => '7',
        8 => '8',
        _ => '9',
    }
}

/// Appends `n` in decimal to `text`.
pub fn push_decimal(text: &mut String, n: usize)
    ensures
        final(text)@ == old(text)@ + decimal(n as nat),
    decreases n,
{
    if n >= 10 {
        push_decimal(text, n / 10);
    }
    text.push(digit_char(n % 10));
}

/// What `report` hands back: where the fault lies and what it is.
pub open spec fn report_line(line: usize, location: Seq<char>, message: Seq<char>) -> Seq<char> {
    "[line "@ + decimal(line as nat) + "] Error "@ + location + ": "@ + message
}

/// Where `error` places a fault: at the end of input, or at a token by its text.
pub open spec fn location_of(token: TokenView) -> Seq<char> {
    if token.token_type == TokenType::Eof {
        "at end"@
    } else {
        "at '"@ + token.lexeme + "'"@
    }
}

/// The line that `error` hands back for a fault at `token`.
pub open spec fn error_line(token: TokenView, message: Seq<char>) -> Seq<char> {
    report_line(token.line, location_of(token), message)
}

/// The text that `runtime_error` hands back.
pub open spec fn runtime_error_text(line: usize, message: Seq<char>) -> Seq<char> {
    message + "\n[line "@ + decimal(line as nat) + "]"@
}

/// The diagnostic for a fault on `line`: `[line N] Error <location>: <message>`.
pub fn report(line: usize, location: &str, message: &str) -> (text: String)
    ensures
        text@ == report_line(line, location@, message@),
{
    let mut text = String::from_str("[line ");
    push_decimal(&mut text, line);
    text.append("] Error ");
    text.append(location);
    text.append(": ");
    text.append(message);
    text
}

/// The diagnostic for a syntax error at `token`.
pub fn error(token: &Token, message: &str) -> (text: String)
    ensures
        text@ == error_line(token@, message@),
{
    if token.token_type == TokenType::Eof {
        report(token.line, "at end", message)
    } else {
        let mut location = String::from_str("at '");
        location.append(token.lexeme.as_str());
        location.append("'");
        report(token.line, location.as_str(), message)
    }
}

/// The diagnostic for a runtime error raised at `operator`: the message, then
/// the line on a line of its own.
pub fn runtime_error(operator: &Token, message: &str) -> (text: String)
    ensures
        text@ == runtime_error_text(operator.line, message@),
{
    let mut text = String::from_str(message);
    text.append("\n[line ");
    push_decimal(&mut text, operator.line);
    text.append("]");
    text
}

impl RuntimeError {
    /// The diagnostic for this error: the message, then the line on a line of
    /// its own.
    pub fn text(&self) -> (text: String)
        ensures
            text@ == runtime_error_text(self.line, self.message@),
    {
        let mut text = self.message.clone();
        text.append("\n[line ");
        push_decimal(&mut text, self.line);
        text.append("]");
        text
    }
}

} // verus!
