use vstd::prelude::*;

use crate::text::{chars_of, lower_of, to_lowercase};

verus! {

/// One lexical unit of the language.
#[derive(Debug, PartialEq, Eq, Clone)]
pub enum Token {
    // Literals
    LiteralString(String),
    LiteralInt(i64),
    LiteralBool(bool),
    Identifier(String),
    // Operators
    Plus,
    Minus,
    Times,
    Div,
    Mod,
    Pow,
    Equal,
    Assign,
    Period,
    Lt,
    Gt,
    LtEq,
    GtEq,
    NtEq,
    Not,
    Or,
    And,
    // Structure
    Comma,
    SemiColon,
    Colon,
    LBrace,
    RBrace,
    LParen,
    RParen,
    LBrack,
    RBrack,
    // Keywords
    If,
    For,
    While,
    Let,
    Else,
    Loop,
    True,
    False,
    Return,
    // End of input
    EOF,
}

/// The keyword spelled by an already lowercased word, if any.
pub open spec fn keyword_of(w: Seq<char>) -> Option<Token> {
    if w == seq!['i', 'f'] {
        Some(Token::If)
    } else if w == seq!['l', 'e', 't'] {
        Some(Token::Let)
    } else if w == seq!['f', 'o', 'r'] {
        Some(Token::For)
    } else if w == seq!['e', 'l', 's', 'e'] {
        Some(Token::Else)
    } else if w == seq!['l', 'o', 'o', 'p'] {
        Some(Token::Loop)
    } else if w == seq!['t', 'r', 'u', 'e'] {
        Some(Token::True)
    } else if w == seq!['w', 'h', 'i', 'l', 'e'] {
        Some(Token::While)
    } else if w == seq!['f', 'a', 'l', 's', 'e'] {
        Some(Token::False)
    } else if w == seq!['r', 'e', 't', 'u', 'r', 'n'] {
        Some(Token::Return)
    } else {
        None
    }
}

fn spells2(w: &Vec<char>, a: char, b: char) -> (r: bool)
    ensures
        r == (w@ == seq![a, b]),
{
    let r = w.len() == 2 && w[0] == a && w[1] == b;
    proof {
        if r {
            assert(w@ =~= seq![a, b]);
        }
    }
    r
}

fn spells3(w: &Vec<char>, a: char, b: char, c: char) -> (r: bool)
    ensures
        r == (w@ == seq![a, b, c]),
{
    let r = w.len() == 3 && w[0] == a && w[1] == b && w[2] == c;
    proof {
        if r {
            assert(w@ =~= seq![a, b, c]);
        }
    }
    r
}

fn spells4(w: &Vec<char>, a: char, b: char, c: char, d: char) -> (r: bool)
    ensures
        r == (w@ == seq![a, b, c, d]),
{
    let r = w.len() == 4 && w[0] == a && w[1] == b && w[2] == c && w[3] == d;
    proof {
        if r {
            assert(w@ =~= seq![a, b, c, d]);
        }
    }
    r
}

fn spells5(w: &Vec<char>, a: char, b: char, c: char, d: char, e: char) -> (r: bool)
    ensures
        r == (w@ == seq![a, b, c, d, e]),
{
    let r = w.len() == 5 && w[0] == a && w[1] == b && w[2] == c && w[3] == d && w[4] == e;
    proof {
        if r {
            assert(w@ =~= seq![a, b, c, d, e]);
        }
    }
    r
}

fn spells6(w: &Vec<char>, a: char, b: char, c: char, d: char, e: char, f: char) -> (r: bool)
    ensures
        r == (w@ == seq![a, b, c, d, e, f]),
{
    let r = w.len() == 6 && w[0] == a && w[1] == b && w[2] == c && w[3] == d && w[4] == e
        && w[5] == f;
    proof {
        if r {
            assert(w@ =~= seq![a, b, c, d, e, f]);
        }
    }
    r
}

/// The keyword token that a lowercased word spells, if any.
pub fn keyword_of_lowered(w: &Vec<char>) -> (r: Option<Token>)
    ensures
        r == keyword_of(w@),
{
    if spells2(w, 'i', 'f') {
        Some(Token::If)
    } else if spells3(w, 'l', 'e', 't') {
        Some(Token::Let)
    } else if spells3(w, 'f', 'o', 'r') {
        Some(Token::For)
    } else if spells4(w, 'e', 'l', 's', 'e') {
        Some(Token::Else)
    } else if spells4(w, 'l', 'o', 'o', 'p') {
        Some(Token::Loop)
    } else if spells4(w, 't', 'r', 'u', 'e') {
        Some(Token::True)
    } else if spells5(w, 'w', 'h', 'i', 'l', 'e') {
        Some(Token::While)
    } else if spells5(w, 'f', 'a', 'l', 's', 'e') {
        Some(Token::False)
    } else if spells6(w, 'r', 'e', 't', 'u', 'r', 'n') {
        Some(Token::Return)
    } else {
        None
    }
}

/// The keyword token for a word, whatever its letter case: the word is
/// lowercased, then looked up in the keyword table.
pub fn keyword_to_token(keyword: &str) -> (r: Option<Token>)
    ensures
        r == keyword_of(lower_of(keyword@)),
{
    let lowered = to_lowercase(keyword);
    let w = chars_of(lowered.as_str());
    keyword_of_lowered(&w)
}

} // verus!
