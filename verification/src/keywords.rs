use vstd::prelude::*;
use vstd::string::StrSliceExecFns;
use crate::token_type::TokenType;

verus! {

/// The reserved words: the kind of token that `text` is where it is one.
pub open spec fn keyword(text: Seq<char>) -> Option<TokenType> {
    if text == "and"@ {
        Some(TokenType::And)
    } else if text == "class"@ {
        Some(TokenType::Class)
    } else if text == "false"@ {
        Some(TokenType::False)
    } else if text == "for"@ {
        Some(TokenType::For)
    } else if text == "fun"@ {
        Some(TokenType::Fun)
    } else if text == "if"@ {
        Some(TokenType::If)
    } else if text == "nil"@ {
        Some(TokenType::Nil)
    } else if text == "or"@ {
        Some(TokenType::Or)
    } else if text == "print"@ {
        Some(TokenType::Print)
    } else if text == "return"@ {
        Some(TokenType::Return)
    } else if text == "super"@ {
        Some(TokenType::Super)
    } else if text == "this"@ {
        Some(TokenType::This)
    } else if text == "true"@ {
        Some(TokenType::True)
    } else if text == "var"@ {
        Some(TokenType::Var)
    } else if text == "while"@ {
        Some(TokenType::While)
    } else if text == "else"@ {
        Some(TokenType::Else)
    } else {
        None
    }
}

/// Whether the characters of `source` from `start` up to `end` spell `word`.
pub fn spells(source: &Vec<char>, start: usize, end: usize, word: &str) -> (same: bool)
    requires
        start <= end <= source.len(),
    ensures
        same == (source@.subrange(start as int, end as int) == word@),
{
    let length = word.unicode_len();
    if end - start != length {
        return false;
    }
    let mut i: usize = 0;
    while i < length
        invariant
            start <= end <= source.len(),
            length == word@.len(),
            end - start == length,
            i <= length,
            forall|j: int| 0 <= j < i ==> source@[start + j] == word@[j],
        decreases length - i,
    {
        if source[start + i] != word.get_char(i) {
            assert(source@.subrange(start as int, end as int)[i as int] != word@[i as int]);
            return false;
        }
        i += 1;
    }
    assert(source@.subrange(start as int, end as int) =~= word@);
    true
}

/// Looks the word from `start` up to `end` up among the reserved words.
pub fn lookup(source: &Vec<char>, start: usize, end: usize) -> (kind: Option<TokenType>)
    requires
        start <= end <= source.len(),
    ensures
        kind == keyword(source@.subrange(start as int, end as int)),
{
    if spells(source, start, end, "and") {
        Some(TokenType::And)
    } else if spells(source, start, end, "class") {
        Some(TokenType::Class)
    } else if spells(source, start, end, "false") {
        Some(TokenType::False)
    } else if spells(source, start, end, "for") {
        Some(TokenType::For)
    } else if spells(source, start, end, "fun") {
        Some(TokenType::Fun)
    } else if spells(source, start, end, "if") {
        Some(TokenType::If)
    } else if spells(source, start, end, "nil") {
        Some(TokenType::Nil)
    } else if spells(source, start, end, "or") {
        Some(TokenType::Or)
    } else if spells(source, start, end, "print") {
        Some(TokenType::Print)
    } else if spells(source, start, end, "return") {
        Some(TokenType::Return)
    } else if spells(source, start, end, "super") {
        Some(TokenType::Super)
    } else if spells(source, start, end, "this") {
        Some(TokenType::This)
    } else if spells(source, start, end, "true") {
        Some(TokenType::True)
    } else if spells(source, start, end, "var") {
        Some(TokenType::Var)
    } else if spells(source, start, end, "while") {
        Some(TokenType::While)
    } else if spells(source, start, end, "else") {
        Some(TokenType::Else)
    } else {
        None
    }
}

} // verus!
