use vstd::prelude::*;
use crate::error::{report, report_line};
use crate::keywords::{keyword, lookup};
use crate::literal::{Literal, LiteralView, Number, NumberView};
use crate::token::{Token, TokenView, views};
use crate::token_type::TokenType;

verus! {

/// The digits `0` to `9`.
pub open spec fn is_digit(c: char) -> bool {
    '0' <= c && c <= '9'
}

/// The letters `a` to `z` and `A` to `Z`, and the underscore.
pub open spec fn is_alpha(c: char) -> bool {
    ('a' <= c && c <= 'z') || ('A' <= c && c <= 'Z') || c == '_'
}

/// The characters of an identifier.
pub open spec fn is_alphanumeric(c: char) -> bool {
    is_alpha(c) || is_digit(c)
}

/// The character at `pos`, or the null character beyond the end.
pub open spec fn at(source: Seq<char>, pos: int) -> char {
    if 0 <= pos < source.len() {
        source[pos]
    } else {
        '\0'
    }
}

/// How many digits stand at `pos` in a row.
pub open spec fn digits(source: Seq<char>, pos: int) -> nat
    decreases source.len() - pos,
{
    if 0 <= pos < source.len() && is_digit(source[pos]) {
        1 + digits(source, pos + 1)
    } else {
        0
    }
}

/// How many letters, digits and underscores stand at `pos` in a row.
pub open spec fn letters(source: Seq<char>, pos: int) -> nat
    decreases source.len() - pos,
{
    if 0 <= pos < source.len() && is_alphanumeric(source[pos]) {
        1 + letters(source, pos + 1)
    } else {
        0
    }
}

/// How many characters stand at `pos` before the next newline or the end.
pub open spec fn until_newline(source: Seq<char>, pos: int) -> nat
    decreases source.len() - pos,
{
    if 0 <= pos < source.len() && source[pos] != '\n' {
        1 + until_newline(source, pos + 1)
    } else {
        0
    }
}

/// How many characters stand at `pos` before the next double quote or the end.
pub open spec fn until_quote(source: Seq<char>, pos: int) -> nat
    decreases source.len() - pos,
{
    if 0 <= pos < source.len() && source[pos] != '"' {
        1 + until_quote(source, pos + 1)
    } else {
        0
    }
}

/// Whether `*/` stands at `pos`.
pub open spec fn closer(source: Seq<char>, pos: int) -> bool {
    at(source, pos) == '*' && at(source, pos + 1) == '/'
}

/// How many characters stand at `pos` before the next `*/` or the end.
pub open spec fn until_closer(source: Seq<char>, pos: int) -> nat
    decreases source.len() - pos,
{
    if 0 <= pos < source.len() && !closer(source, pos) {
        1 + until_closer(source, pos + 1)
    } else {
        0
    }
}

/// How many newlines stand from `from` up to `to`.
pub open spec fn newlines(source: Seq<char>, from: int, to: int) -> nat
    decreases to - from,
{
    if from < to {
        newlines(source, from, to - 1) + if at(source, to - 1) == '\n' {
            1nat
        } else {
            0nat
        }
    } else {
        0
    }
}

/// The line counter after `n` more newlines. It stops at the largest number
/// that the machine can hold.
pub open spec fn line_after(line: usize, n: nat) -> usize {
    if line + n > usize::MAX {
        usize::MAX
    } else {
        (line + n) as usize
    }
}

/// The token of `kind` that spans `used` characters from `start`.
pub open spec fn token_at(
    kind: TokenType,
    source: Seq<char>,
    start: int,
    used: nat,
    literal: Option<LiteralView>,
    line: usize,
) -> TokenView {
    TokenView { token_type: kind, lexeme: source.subrange(start, start + used), literal, line }
}

/// The token that closes every scan.
pub open spec fn end_token(line: usize) -> TokenView {
    TokenView { token_type: TokenType::Eof, lexeme: Seq::empty(), literal: None, line }
}

/// The tokens of one character.
pub open spec fn single(c: char) -> Option<TokenType> {
    if c == '(' {
        Some(TokenType::LeftParen)
    } else if c == ')' {
        Some(TokenType::RightParen)
    } else if c == '{' {
        Some(TokenType::LeftBrace)
    } else if c == '}' {
        Some(TokenType::RightBrace)
    } else if c == ',' {
        Some(TokenType::Comma)
    } else if c == '.' {
        Some(TokenType::Dot)
    } else if c == '-' {
        Some(TokenType::Minus)
    } else if c == '+' {
        Some(TokenType::Plus)
    } else if c == ';' {
        Some(TokenType::Semicolon)
    } else if c == '*' {
        Some(TokenType::Star)
    } else {
        None
    }
}

/// The operators that an `=` may follow: the kind with it and the kind without.
pub open spec fn paired(c: char) -> Option<(TokenType, TokenType)> {
    if c == '!' {
        Some((TokenType::BangEqual, TokenType::Bang))
    } else if c == '=' {
        Some((TokenType::EqualEqual, TokenType::Equal))
    } else if c == '<' {
        Some((TokenType::LessEqual, TokenType::Less))
    } else if c == '>' {
        Some((TokenType::GreaterEqual, TokenType::Greater))
    } else {
        None
    }
}

/// What one scanning step finds: the characters it takes, at least one, the
/// line counter after it, the token if it makes one, and the message if it
/// reports a fault.
pub struct Lexed {
    pub used: nat,
    pub line: usize,
    pub token: Option<TokenView>,
    pub fault: Option<Seq<char>>,
}

/// How many characters the number at `start` spans: digits, then, only where a
/// digit follows it, a point and more digits.
pub open spec fn number_span(source: Seq<char>, start: int) -> nat {
    let whole = 1 + digits(source, start + 1);
    if at(source, start + whole) == '.' && is_digit(at(source, start + whole + 1)) {
        whole + 1 + digits(source, start + whole + 1)
    } else {
        whole
    }
}

/// One scanning step at `start`, which lies inside the source.
pub open spec fn lex(source: Seq<char>, start: int, line: usize) -> Lexed {
    let c = at(source, start);
    let next = at(source, start + 1);
    if single(c) is Some {
        Lexed {
            used: 1,
            line,
            token: Some(token_at(single(c).unwrap(), source, start, 1, None, line)),
            fault: None,
        }
    } else if paired(c) is Some {
        if next == '=' {
            Lexed {
                used: 2,
                line,
                token: Some(token_at(paired(c).unwrap().0, source, start, 2, None, line)),
                fault: None,
            }
        } else {
            Lexed {
                used: 1,
                line,
                token: Some(token_at(paired(c).unwrap().1, source, start, 1, None, line)),
                fault: None,
            }
        }
    } else if c == '/' {
        if next == '/' {
            Lexed { used: 2 + until_newline(source, start + 2), line, token: None, fault: None }
        } else if next == '*' {
            let inside = until_closer(source, start + 2);
            let line = line_after(line, newlines(source, start + 2, start + 2 + inside));
            if start + 2 + inside < source.len() {
                Lexed { used: 2 + inside + 2, line, token: None, fault: None }
            } else {
                Lexed { used: 2 + inside, line, token: None, fault: Some("Unterminated multiline comment"@) }
            }
        } else {
            Lexed {
                used: 1,
                line,
                token: Some(token_at(TokenType::Slash, source, start, 1, None, line)),
                fault: None,
            }
        }
    } else if c == ' ' || c == '\r' || c == '\t' {
        Lexed { used: 1, line, token: None, fault: None }
    } else if c == '\n' {
        Lexed { used: 1, line: line_after(line, 1), token: None, fault: None }
    } else if c == '"' {
        let inside = until_quote(source, start + 1);
        let line = line_after(line, newlines(source, start + 1, start + 1 + inside));
        if start + 1 + inside < source.len() {
            Lexed {
                used: 1 + inside + 1,
                line,
                token: Some(
                    token_at(
                        TokenType::String,
                        source,
                        start,
                        1 + inside + 1,
                        Some(LiteralView::String(source.subrange(start + 1, start + 1 + inside))),
                        line,
                    ),
                ),
                fault: None,
            }
        } else {
            Lexed { used: 1 + inside, line, token: None, fault: Some("Unterminated string"@) }
        }
    } else if is_digit(c) {
        let used = number_span(source, start);
        Lexed {
            used,
            line,
            token: Some(
                token_at(
                    TokenType::Number,
                    source,
                    start,
                    used,
                    Some(LiteralView::Number(NumberView::Written(source.subrange(start, start + used)))),
                    line,
                ),
            ),
            fault: None,
        }
    } else if is_alpha(c) {
        let used = 1 + letters(source, start + 1);
        let kind = match keyword(source.subrange(start, start + used)) {
            Some(kind) => kind,
            None => TokenType::Identifier,
        };
        Lexed { used, line, token: Some(token_at(kind, source, start, used, None, line)), fault: None }
    } else {
        Lexed { used: 1, line, token: None, fault: Some("Unexpected character"@) }
    }
}

/// How much of an input of length `len` lies at or behind `pos`.
pub open spec fn remaining(len: nat, pos: int) -> nat {
    if pos < len {
        (len - pos) as nat
    } else {
        0
    }
}

/// Every scanning step takes at least one character.
pub proof fn lemma_lex_advances(source: Seq<char>, start: int, line: usize)
    ensures
        lex(source, start, line).used >= 1,
{
}

/// The tokens and the diagnostics of a scan.
pub struct Scanned {
    pub tokens: Seq<TokenView>,
    pub reports: Seq<Seq<char>>,
}

/// The token of a step as a list of none or one.
pub open spec fn found(step: Lexed) -> Seq<TokenView> {
    match step.token {
        Some(token) => seq![token],
        None => Seq::empty(),
    }
}

/// The diagnostic of a step as a list of none or one.
pub open spec fn faulted(step: Lexed) -> Seq<Seq<char>> {
    match step.fault {
        Some(message) => seq![report_line(step.line, Seq::empty(), message)],
        None => Seq::empty(),
    }
}

/// The scan of the source from `pos` on, with the line counter at `line`:
/// step after step to the end, then the end token. A fault is reported and the
/// scan goes on behind it.
pub open spec fn scan_from(source: Seq<char>, pos: int, line: usize) -> Scanned
    decreases remaining(source.len(), pos),
{
    if 0 <= pos < source.len() {
        let step = lex(source, pos, line);
        proof {
            lemma_lex_advances(source, pos, line);
        }
        let rest = scan_from(source, pos + step.used, step.line);
        Scanned { tokens: found(step) + rest.tokens, reports: faulted(step) + rest.reports }
    } else {
        Scanned { tokens: seq![end_token(line)], reports: Seq::empty() }
    }
}

/// The scan of a whole source text.
pub open spec fn scan(source: Seq<char>) -> Scanned {
    scan_from(source, 0, 1)
}

/// A run of characters ends inside the source.
pub proof fn lemma_runs_end(source: Seq<char>, pos: int)
    requires
        0 <= pos <= source.len(),
    ensures
        pos + digits(source, pos) <= source.len(),
        pos + letters(source, pos) <= source.len(),
        pos + until_newline(source, pos) <= source.len(),
        pos + until_quote(source, pos) <= source.len(),
        pos + until_closer(source, pos) <= source.len(),
        pos + until_closer(source, pos) < source.len() ==> closer(source, pos + until_closer(source, pos)),
        pos + until_quote(source, pos) < source.len() ==> source[pos + until_quote(source, pos)] == '"',
    decreases source.len() - pos,
{
    if pos < source.len() {
        lemma_runs_end(source, pos + 1);
    }
}

/// A scanning step stays inside the source: it takes at least one character
/// and never more than are left.
pub proof fn lemma_lex_within(source: Seq<char>, start: int, line: usize)
    requires
        0 <= start < source.len(),
    ensures
        1 <= lex(source, start, line).used <= source.len() - start,
{
    lemma_runs_end(source, start + 1);
    if start + 2 <= source.len() {
        lemma_runs_end(source, start + 2);
    }
    let whole = 1 + digits(source, start + 1);
    if start + whole + 1 <= source.len() {
        lemma_runs_end(source, start + whole + 1);
    }
}

/// A scan ends with the end token, and with no other token of that kind.
pub proof fn lemma_scan_ends(source: Seq<char>, pos: int, line: usize)
    ensures
        scan_from(source, pos, line).tokens.len() > 0,
        scan_from(source, pos, line).tokens.last().token_type == TokenType::Eof,
        forall|i: int|
            0 <= i < scan_from(source, pos, line).tokens.len() - 1 ==> (#[trigger] scan_from(
                source,
                pos,
                line,
            ).tokens[i]).token_type != TokenType::Eof,
    decreases remaining(source.len(), pos),
{
    if 0 <= pos < source.len() {
        let step = lex(source, pos, line);
        lemma_lex_advances(source, pos, line);
        lemma_scan_ends(source, pos + step.used, step.line);
    }
}

/// A scanner over one source text.
pub struct Scanner {
    source: Vec<char>,
    tokens: Vec<Token>,
    reports: Vec<String>,
    start: usize,
    current: usize,
    line: usize,
}

/// The state of a scanner: the source, the tokens and diagnostics so far, where
/// the token in hand starts, the next character to read, and the line counter.
pub struct ScannerView {
    pub source: Seq<char>,
    pub tokens: Seq<TokenView>,
    pub reports: Seq<Seq<char>>,
    pub start: int,
    pub current: int,
    pub line: usize,
}

/// The state once the step that began at `state.start` is complete.
pub open spec fn finished(state: ScannerView, step: Lexed) -> ScannerView {
    ScannerView {
        source: state.source,
        tokens: state.tokens + found(step),
        reports: state.reports + faulted(step),
        start: state.start,
        current: state.start + step.used,
        line: step.line,
    }
}

/// The texts of a list of strings.
pub open spec fn texts(lines: Seq<String>) -> Seq<Seq<char>> {
    Seq::new(lines.len(), |i: int| lines[i]@)
}

impl View for Scanner {
    type V = ScannerView;

    closed spec fn view(&self) -> ScannerView {
        ScannerView {
            source: self.source@,
            tokens: views(self.tokens@),
            reports: texts(self.reports@),
            start: self.start as int,
            current: self.current as int,
            line: self.line,
        }
    }
}

impl Scanner {
    /// A scanner at the start of `source`, on line 1.
    pub fn new(source: String) -> (scanner: Scanner)
        ensures
            scanner@ == (ScannerView {
                source: source@,
                tokens: Seq::empty(),
                reports: Seq::empty(),
                start: 0,
                current: 0,
                line: 1,
            }),
    {
        let mut characters: Vec<char> = Vec::new();
        for c in iter: source.as_str().chars()
            invariant
                characters@ == iter.seq().take(iter.index() as int),
                iter.seq() == source@,
        {
            characters.push(c);
        }
        assert(characters@ =~= source@);
        let scanner = Scanner {
            source: characters,
            tokens: Vec::new(),
            reports: Vec::new(),
            start: 0,
            current: 0,
            line: 1,
        };
        assert(scanner@.tokens =~= Seq::empty());
        assert(scanner@.reports =~= Seq::empty());
        scanner
    }

    /// Scans what is left of the source and closes the tokens with the end
    /// token. Returns all tokens found so far.
    pub fn scan_tokens(&mut self) -> (tokens: &Vec<Token>)
        ensures
            final(self)@.source == old(self)@.source,
            final(self)@.tokens == old(self)@.tokens + scan_from(
                old(self)@.source,
                old(self)@.current,
                old(self)@.line,
            ).tokens,
            final(self)@.reports == old(self)@.reports + scan_from(
                old(self)@.source,
                old(self)@.current,
                old(self)@.line,
            ).reports,
            views(tokens@) == final(self)@.tokens,
            final(self)@.current >= final(self)@.source.len(),
    {
        let ghost whole = scan_from(self@.source, self@.current, self@.line);
        while !self.is_at_end()
            invariant
                self@.source == old(self)@.source,
                old(self)@.tokens + whole.tokens == self@.tokens + scan_from(
                    self@.source,
                    self@.current,
                    self@.line,
                ).tokens,
                old(self)@.reports + whole.reports == self@.reports + scan_from(
                    self@.source,
                    self@.current,
                    self@.line,
                ).reports,
            decreases remaining(self@.source.len(), self@.current),
        {
            self.start = self.current;
            let ghost before = self@;
            self.scan_token();
            proof {
                let step = lex(before.source, before.current, before.line);
                let rest = scan_from(before.source, before.current + step.used, step.line);
                lemma_lex_advances(before.source, before.current, before.line);
                assert((before.tokens + found(step)) + rest.tokens =~= before.tokens + (found(step)
                    + rest.tokens));
                assert((before.reports + faulted(step)) + rest.reports =~= before.reports + (faulted(
                    step,
                ) + rest.reports));
            }
        }
        let ghost before = self@;
        self.tokens.push(Token::new(TokenType::Eof, String::new(), None, self.line));
        proof {
            assert(self@.tokens =~= before.tokens + seq![end_token(before.line)]);
            assert(before.reports + Seq::<Seq<char>>::empty() =~= before.reports);
        }
        &self.tokens
    }

    /// The diagnostics of the scan so far, one line each.
    pub fn reports(&self) -> (reports: &Vec<String>)
        ensures
            texts(reports@) == self@.reports,
    {
        &self.reports
    }

    fn scan_token(&mut self)
        requires
            old(self)@.current < old(self)@.source.len(),
            old(self)@.start == old(self)@.current,
        ensures
            final(self)@ == finished(old(self)@, lex(old(self)@.source, old(self)@.start, old(self)@.line)),
    {
        let c = self.advance();
        if c == '(' {
            self.add_token_with_no_literal(TokenType::LeftParen);
        } else if c == ')' {
            self.add_token_with_no_literal(TokenType::RightParen);
        } else if c == '{' {
            self.add_token_with_no_literal(TokenType::LeftBrace);
        } else if c == '}' {
            self.add_token_with_no_literal(TokenType::RightBrace);
        } else if c == ',' {
            self.add_token_with_no_literal(TokenType::Comma);
        } else if c == '.' {
            self.add_token_with_no_literal(TokenType::Dot);
        } else if c == '-' {
            self.add_token_with_no_literal(TokenType::Minus);
        } else if c == '+' {
            self.add_token_with_no_literal(TokenType::Plus);
        } else if c == ';' {
            self.add_token_with_no_literal(TokenType::Semicolon);
        } else if c == '*' {
            self.add_token_with_no_literal(TokenType::Star);
        } else if c == '!' {
            self.add_matched_token('=', TokenType::BangEqual, TokenType::Bang, None);
        } else if c == '=' {
            self.add_matched_token('=', TokenType::EqualEqual, TokenType::Equal, None);
        } else if c == '<' {
            self.add_matched_token('=', TokenType::LessEqual, TokenType::Less, None);
        } else if c == '>' {
            self.add_matched_token('=', TokenType::GreaterEqual, TokenType::Greater, None);
        } else if c == '/' {
            if self.match_token('/') {
                while self.peek() != '\n' && !self.is_at_end()
                    invariant
                        self@ == (ScannerView { current: self@.current, ..old(self)@ }),
                        old(self)@.start + 2 <= self@.current <= self@.source.len(),
                        self@.current + until_newline(self@.source, self@.current) == old(self)@.start + 2
                            + until_newline(self@.source, old(self)@.start + 2),
                    decreases self@.source.len() - self@.current,
                {
                    self.advance();
                }
                proof {
                    assert(self@.tokens + Seq::<TokenView>::empty() =~= self@.tokens);
                    assert(self@.reports + Seq::<Seq<char>>::empty() =~= self@.reports);
                }
            } else if self.match_token('*') {
                self.multiline_comment();
            } else {
                self.add_token_with_no_literal(TokenType::Slash);
            }
        } else if c == ' ' || c == '\r' || c == '\t' {
            proof {
                assert(self@.tokens + Seq::<TokenView>::empty() =~= self@.tokens);
                assert(self@.reports + Seq::<Seq<char>>::empty() =~= self@.reports);
            }
        } else if c == '\n' {
            self.next_line();
            proof {
                assert(self@.tokens + Seq::<TokenView>::empty() =~= self@.tokens);
                assert(self@.reports + Seq::<Seq<char>>::empty() =~= self@.reports);
            }
        } else if c == '"' {
            self.string();
        } else if self.is_digit(c) {
            self.number();
        } else if self.is_alpha(c) {
            self.identifier();
        } else {
            self.fault("Unexpected character");
        }
        proof {
            let step = lex(old(self)@.source, old(self)@.start, old(self)@.line);
            assert(self@.tokens =~= old(self)@.tokens + found(step));
            assert(self@.reports =~= old(self)@.reports + faulted(step));
        }
    }

    fn advance(&mut self) -> (c: char)
        requires
            old(self)@.current < old(self)@.source.len(),
        ensures
            c == old(self)@.source[old(self)@.current],
            final(self)@ == (ScannerView { current: old(self)@.current + 1, ..old(self)@ }),
    {
        assert(self.source.len() == self.source@.len());
        self.current += 1;
        self.source[self.current - 1]
    }

    /// Counts one more line.
    fn next_line(&mut self)
        ensures
            final(self)@ == (ScannerView { line: line_after(old(self)@.line, 1), ..old(self)@ }),
    {
        if self.line < usize::MAX {
            self.line += 1;
        }
    }

    /// Reports a fault on the current line.
    fn fault(&mut self, message: &str)
        ensures
            final(self)@ == (ScannerView {
                reports: old(self)@.reports + seq![report_line(old(self)@.line, Seq::empty(), message@)],
                ..old(self)@
            }),
    {
        let ghost before = self@;
        self.reports.push(report(self.line, "", message));
        proof {
            reveal_strlit("");
            assert(""@ =~= Seq::<char>::empty());
            assert(self@.reports =~= before.reports + seq![
                report_line(before.line, Seq::empty(), message@),
            ]);
        }
    }

    /// The source text from `from` up to `to`.
    fn text(&self, from: usize, to: usize) -> (text: String)
        requires
            from <= to <= self@.source.len(),
        ensures
            text@ == self@.source.subrange(from as int, to as int),
    {
        let mut text = String::new();
        let mut i: usize = from;
        while i < to
            invariant
                from <= i <= to <= self.source.len(),
                text@ == self.source@.subrange(from as int, i as int),
            decreases to - i,
        {
            text.push(self.source[i]);
            i += 1;
            assert(self.source@.subrange(from as int, i as int) =~= self.source@.subrange(
                from as int,
                i - 1,
            ).push(self.source@[i - 1]));
        }
        text
    }

    fn add_token(&mut self, token_type: TokenType, literal: Option<Literal>)
        requires
            old(self)@.start <= old(self)@.current <= old(self)@.source.len(),
        ensures
            final(self)@ == (ScannerView {
                tokens: old(self)@.tokens.push(
                    token_at(
                        token_type,
                        old(self)@.source,
                        old(self)@.start,
                        (old(self)@.current - old(self)@.start) as nat,
                        match literal {
                            Some(literal) => Some(literal@),
                            None => None,
                        },
                        old(self)@.line,
                    ),
                ),
                ..old(self)@
            }),
    {
        let ghost before = self@;
        let text = self.text(self.start, self.current);
        let token = Token::new(token_type, text, literal, self.line);
        self.tokens.push(token);
        proof {
            assert(self@.tokens =~= before.tokens.push(token@));
        }
    }

    fn add_token_with_no_literal(&mut self, token_type: TokenType)
        requires
            old(self)@.start <= old(self)@.current <= old(self)@.source.len(),
        ensures
            final(self)@ == (ScannerView {
                tokens: old(self)@.tokens.push(
                    token_at(
                        token_type,
                        old(self)@.source,
                        old(self)@.start,
                        (old(self)@.current - old(self)@.start) as nat,
                        None,
                        old(self)@.line,
                    ),
                ),
                ..old(self)@
            }),
    {
        self.add_token(token_type, None);
    }

    fn match_token(&mut self, expected: char) -> (matched: bool)
        ensures
            matched == (old(self)@.current < old(self)@.source.len() && at(
                old(self)@.source,
                old(self)@.current,
            ) == expected),
            final(self)@ == (ScannerView {
                current: if matched {
                    old(self)@.current + 1
                } else {
                    old(self)@.current
                },
                ..old(self)@
            }),
    {
        if self.is_at_end() {
            return false;
        }
        if self.source[self.current] != expected {
            return false;
        }
        assert(self.source.len() == self.source@.len());
        self.current += 1;
        true
    }

    fn add_matched_token(
        &mut self,
        expected: char,
        matched_token: TokenType,
        unmatched_token: TokenType,
        literal: Option<Literal>,
    )
        requires
            old(self)@.start <= old(self)@.current <= old(self)@.source.len(),
            expected != '\0',
        ensures
            final(self)@ == ({
                let matched = at(old(self)@.source, old(self)@.current) == expected;
                let current = if matched {
                    old(self)@.current + 1
                } else {
                    old(self)@.current
                };
                ScannerView {
                    tokens: old(self)@.tokens.push(
                        token_at(
                            if matched {
                                matched_token
                            } else {
                                unmatched_token
                            },
                            old(self)@.source,
                            old(self)@.start,
                            (current - old(self)@.start) as nat,
                            match literal {
                                Some(literal) => Some(literal@),
                                None => None,
                            },
                            old(self)@.line,
                        ),
                    ),
                    current,
                    ..old(self)@
                }
            }),
    {
        let token_type = if self.match_token(expected) {
            matched_token
        } else {
            unmatched_token
        };
        self.add_token(token_type, literal);
    }

    fn peek(&self) -> (c: char)
        ensures
            c == at(self@.source, self@.current),
    {
        if self.is_at_end() {
            return '\0';
        }
        self.source[self.current]
    }

    fn peek_next(&self) -> (c: char)
        ensures
            c == at(self@.source, self@.current + 1),
    {
        if self.current >= self.source.len() || self.current + 1 >= self.source.len() {
            return '\0';
        }
        self.source[self.current + 1]
    }

    fn string(&mut self)
        requires
            old(self)@.start < old(self)@.source.len(),
            old(self)@.current == old(self)@.start + 1,
            old(self)@.source[old(self)@.start] == '"',
        ensures
            final(self)@ == finished(old(self)@, lex(old(self)@.source, old(self)@.start, old(self)@.line)),
    {
        let ghost first = self@.current;
        while self.peek() != '"' && !self.is_at_end()
            invariant
                self@ == (ScannerView { current: self@.current, line: self@.line, ..old(self)@ }),
                first == old(self)@.current,
                first <= self@.current <= self@.source.len(),
                self@.current + until_quote(self@.source, self@.current) == first + until_quote(
                    self@.source,
                    first,
                ),
                self@.line == line_after(old(self)@.line, newlines(self@.source, first, self@.current)),
            decreases self@.source.len() - self@.current,
        {
            if self.peek() == '\n' {
                self.next_line();
            }
            self.advance();
        }
        if self.is_at_end() {
            self.fault("Unterminated string");
            proof {
                assert(self@.tokens + Seq::<TokenView>::empty() =~= self@.tokens);
            }
        } else {
            self.advance();
            let value = self.text(self.start + 1, self.current - 1);
            self.add_token(TokenType::String, Some(Literal::String(value)));
            proof {
                assert(self@.reports + Seq::<Seq<char>>::empty() =~= self@.reports);
                let step = lex(old(self)@.source, old(self)@.start, old(self)@.line);
                assert(self@.tokens =~= old(self)@.tokens + found(step));
            }
        }
    }

    fn number(&mut self)
        requires
            old(self)@.start < old(self)@.source.len(),
            old(self)@.current == old(self)@.start + 1,
            is_digit(old(self)@.source[old(self)@.start]),
        ensures
            final(self)@ == finished(old(self)@, lex(old(self)@.source, old(self)@.start, old(self)@.line)),
    {
        let ghost first = self@.current;
        while self.is_digit(self.peek())
            invariant
                self@ == (ScannerView { current: self@.current, ..old(self)@ }),
                first <= self@.current <= self@.source.len(),
                self@.current + digits(self@.source, self@.current) == first + digits(self@.source, first),
            decreases self@.source.len() - self@.current,
        {
            self.advance();
        }
        if self.peek() == '.' && self.is_digit(self.peek_next()) {
            self.advance();
            let ghost second = self@.current;
            while self.is_digit(self.peek())
                invariant
                    self@ == (ScannerView { current: self@.current, ..old(self)@ }),
                    second <= self@.current <= self@.source.len(),
                    self@.current + digits(self@.source, self@.current) == second + digits(
                        self@.source,
                        second,
                    ),
                decreases self@.source.len() - self@.current,
            {
                self.advance();
            }
        }
        let digits = self.text(self.start, self.current);
        self.add_token(TokenType::Number, Some(Literal::Number(Number::Written(digits))));
        proof {
            assert(self@.reports + Seq::<Seq<char>>::empty() =~= self@.reports);
            let step = lex(old(self)@.source, old(self)@.start, old(self)@.line);
            assert(self@.tokens =~= old(self)@.tokens + found(step));
        }
    }

    fn identifier(&mut self)
        requires
            old(self)@.start < old(self)@.source.len(),
            old(self)@.current == old(self)@.start + 1,
            is_alpha(old(self)@.source[old(self)@.start]),
        ensures
            final(self)@ == finished(old(self)@, lex(old(self)@.source, old(self)@.start, old(self)@.line)),
    {
        let ghost first = self@.current;
        while self.is_alphanumeric(self.peek())
            invariant
                self@ == (ScannerView { current: self@.current, ..old(self)@ }),
                first <= self@.current <= self@.source.len(),
                self@.current + letters(self@.source, self@.current) == first + letters(
                    self@.source,
                    first,
                ),
            decreases self@.source.len() - self@.current,
        {
            self.advance();
        }
        let token_type = match lookup(&self.source, self.start, self.current) {
            Some(token_type) => token_type,
            None => TokenType::Identifier,
        };
        self.add_token_with_no_literal(token_type);
        proof {
            assert(self@.reports + Seq::<Seq<char>>::empty() =~= self@.reports);
            let step = lex(old(self)@.source, old(self)@.start, old(self)@.line);
            assert(self@.tokens =~= old(self)@.tokens + found(step));
        }
    }

    fn multiline_comment(&mut self)
        requires
            old(self)@.start + 1 < old(self)@.source.len(),
            old(self)@.current == old(self)@.start + 2,
            old(self)@.source[old(self)@.start] == '/',
            old(self)@.source[old(self)@.start + 1] == '*',
        ensures
            final(self)@ == finished(old(self)@, lex(old(self)@.source, old(self)@.start, old(self)@.line)),
    {
        let ghost first = self@.current;
        while !(self.peek() == '*' && self.peek_next() == '/') && !self.is_at_end()
            invariant
                self@ == (ScannerView { current: self@.current, line: self@.line, ..old(self)@ }),
                first == old(self)@.current,
                first <= self@.current <= self@.source.len(),
                self@.current + until_closer(self@.source, self@.current) == first + until_closer(
                    self@.source,
                    first,
                ),
                self@.line == line_after(old(self)@.line, newlines(self@.source, first, self@.current)),
            decreases self@.source.len() - self@.current,
        {
            if self.peek() == '\n' {
                self.next_line();
            }
            self.advance();
        }
        if self.is_at_end() {
            self.fault("Unterminated multiline comment");
        } else {
            self.advance();
            self.advance();
            proof {
                assert(self@.reports + Seq::<Seq<char>>::empty() =~= self@.reports);
            }
        }
        proof {
            assert(self@.tokens + Seq::<TokenView>::empty() =~= self@.tokens);
        }
    }

    fn is_digit(&self, c: char) -> (b: bool)
        ensures
            b == is_digit(c),
    {
        c >= '0' && c <= '9'
    }

    fn is_alpha(&self, c: char) -> (b: bool)
        ensures
            b == is_alpha(c),
    {
        (c >= 'a' && c <= 'z') || (c >= 'A' && c <= 'Z') || c == '_'
    }

    fn is_alphanumeric(&self, c: char) -> (b: bool)
        ensures
            b == is_alphanumeric(c),
    {
        self.is_alpha(c) || self.is_digit(c)
    }

    fn is_at_end(&self) -> (b: bool)
        ensures
            b == (self@.current >= self@.source.len()),
    {
        self.current >= self.source.len()
    }
}

} // verus!
