use vstd::prelude::*;
use crate::grammar;
use crate::host::{Action, Reply};
use crate::interpreter::{Interpreter, initial};
use crate::parser::Parser;
use crate::scanner::{Scanner, lemma_scan_ends, scan, texts};
use crate::semantics;
use crate::semantics::State;
use crate::soundness::{nested, sound};
use crate::stmt::{StmtView, clone_tokens};

verus! {

/// How a runner was started: on a script file, or as an interactive session.
#[derive(Clone, Copy, Debug, PartialEq, Eq, Structural)]
pub enum Mode {
    File,
    Repl,
}

/// Runs source text through the scanner, the parser and the interpreter. One
/// interpreter serves all the texts that a runner is given, so what one text
/// declares in the global scope is there for the next.
pub struct CodeRunner {
    mode: Option<Mode>,
    interpreter: Interpreter,
}

/// What reading a source text comes to: the diagnostics, and the program
/// where there are none.
pub struct Reading {
    pub reports: Seq<Seq<char>>,
    pub program: Option<Seq<StmtView>>,
}

/// The reading of a source text. A lexical error keeps the text from the
/// parser, and a syntax error keeps it from the interpreter.
pub open spec fn reading(source: Seq<char>) -> Reading {
    let scanned = scan(source);
    if scanned.reports.len() > 0 {
        Reading { reports: scanned.reports, program: None }
    } else {
        let parsed = grammar::program(scanned.tokens, 0);
        if parsed.reports.len() > 0 {
            Reading { reports: parsed.reports, program: None }
        } else {
            Reading { reports: Seq::empty(), program: Some(parsed.statements) }
        }
    }
}

/// The process exit status for a text with lexical or syntax errors.
pub const FAILURE: i32 = 65;

impl CodeRunner {
    /// The mode that was set, if one was.
    pub closed spec fn mode(&self) -> Option<Mode> {
        self.mode
    }

    /// The state of the interpreter.
    pub closed spec fn state(&self) -> State {
        self.interpreter@
    }

    /// A runner whose mode is not set yet, with a new interpreter.
    pub fn new() -> (runner: CodeRunner)
        ensures
            runner.mode() is None,
            runner.state() == initial(),
            sound(runner.state()),
    {
        CodeRunner { mode: None, interpreter: Interpreter::new() }
    }

    /// Sets how the runner was started.
    pub fn set_mode(&mut self, mode: Mode)
        ensures
            final(self).mode() == Some(mode),
            final(self).state() == old(self).state(),
    {
        self.mode = Some(mode);
    }

    /// Reads `source` and, where it has no error, hands its statements to the
    /// interpreter as work to do. Returns the diagnostics, one line each.
    pub fn run(&mut self, source: String) -> (reports: Vec<String>)
        ensures
            final(self).mode() == old(self).mode(),
            texts(reports@) == reading(source@).reports,
            final(self).state() == match reading(source@).program {
                Some(statements) => State {
                    frames: semantics::booked(old(self).state().frames, statements),
                    ..old(self).state()
                },
                None => old(self).state(),
            },
            sound(old(self).state()) && nested(old(self).state().frames, 0) ==> sound(final(self).state()),
    {
        let mut scanner = Scanner::new(source);
        let tokens = clone_tokens(scanner.scan_tokens());
        proof {
            assert(Seq::<crate::token::TokenView>::empty() + scan(source@).tokens =~= scan(source@).tokens);
            assert(Seq::<Seq<char>>::empty() + scan(source@).reports =~= scan(source@).reports);
        }
        if scanner.reports().len() > 0 {
            return Self::copy(scanner.reports());
        }
        proof {
            lemma_scan_ends(source@, 0, 1);
        }
        let mut parser = Parser::new(tokens);
        let statements = parser.parse();
        proof {
            let parsed = grammar::program(scan(source@).tokens, 0);
            assert(Seq::<Seq<char>>::empty() + parsed.reports =~= parsed.reports);
        }
        if parser.get_had_err() {
            return Self::copy(parser.reports());
        }
        self.interpreter.interpret(&statements);
        let reports: Vec<String> = Vec::new();
        proof {
            assert(texts(reports@) =~= Seq::empty());
        }
        reports
    }

    fn copy(lines: &Vec<String>) -> (copies: Vec<String>)
        ensures
            texts(copies@) == texts(lines@),
    {
        let mut copies: Vec<String> = Vec::new();
        let mut i: usize = 0;
        while i < lines.len()
            invariant
                i <= lines.len(),
                copies.len() == i,
                forall|j: int| 0 <= j < i ==> copies[j]@ == lines[j]@,
            decreases lines.len() - i,
        {
            copies.push(lines[i].clone());
            i += 1;
        }
        assert(texts(copies@) =~= texts(lines@));
        copies
    }

    /// The exit status that a text with errors asks for: a script ends the
    /// process with `FAILURE`, an interactive session goes on.
    pub fn handle_error(&self) -> (status: Option<i32>)
        ensures
            status == if self.mode() == Some(Mode::File) {
                Some(FAILURE)
            } else {
                None
            },
    {
        match self.mode {
            Some(Mode::File) => Some(FAILURE),
            _ => None,
        }
    }

    /// Lets the interpreter step until there is something for the host to do,
    /// but no more than `budget` times.
    pub fn advance(&mut self, budget: usize) -> (action: Action)
        ensures
            final(self).mode() == old(self).mode(),
            (semantics::Stepped { state: final(self).state(), action: action@ }) == semantics::ran(
                old(self).state(),
                budget as nat,
            ),
            sound(old(self).state()) ==> sound(final(self).state()),
    {
        self.interpreter.run(budget)
    }

    /// Hands the host's reply to the interpreter.
    pub fn reply(&mut self, reply: Reply) -> (action: Action)
        ensures
            final(self).mode() == old(self).mode(),
            (semantics::Stepped { state: final(self).state(), action: action@ }) == semantics::replied(
                old(self).state(),
                reply@,
            ),
            sound(old(self).state()) ==> sound(final(self).state()),
    {
        self.interpreter.reply(reply)
    }
}

} // verus!
