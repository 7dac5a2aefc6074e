use vstd::prelude::*;

use crate::text::{
    alphabetic, chars_of, decimal_i64, is_alphabetic, is_alphanumeric, is_numeric, is_whitespace,
    lower_of, numeric, parse_i64, push_char, whitespace,
};
use crate::token::{keyword_of, keyword_to_token, Token};

verus! {

/// Why a call to [`Lexer::next_token`] could not produce a token.
#[derive(Debug, PartialEq, Eq, Structural, Clone, Copy)]
pub enum LexerError {
    UnexpectedChar(char),
    InvalidChar(char),
    /// The first character was expected, the second was found.
    ExpectedChar(char, char),
    UnexpectedEndOfFile,
    ParseInt,
    ParseFloat,
}

/// The character classes that the scanner consumes runs of.
pub ghost enum CharClass {
    Space,
    WordChar,
    DigitRun,
    Except(char),
}

pub open spec fn in_class(k: CharClass, c: char) -> bool {
    match k {
        CharClass::Space => whitespace(c),
        CharClass::WordChar => alphabetic(c) || numeric(c),
        CharClass::DigitRun => numeric(c) || c == '.' || c == '_',
        CharClass::Except(d) => c != d,
    }
}

/// The end of the longest run of class `k` that starts at `p`.
pub open spec fn run_end(s: Seq<char>, p: int, k: CharClass) -> int
    decreases s.len() - p,
{
    if 0 <= p < s.len() && in_class(k, s[p]) {
        run_end(s, p + 1, k)
    } else {
        p
    }
}

/// Where a block comment whose body starts at `p` ends: just past the first
/// `*/` at or after `p`, if there is one.
pub open spec fn block_close(s: Seq<char>, p: int) -> Option<int>
    decreases s.len() - p,
{
    if p < 0 || p + 1 >= s.len() {
        None
    } else if s[p] == '*' && s[p + 1] == '/' {
        Some(p + 2)
    } else {
        block_close(s, p + 1)
    }
}

/// The token of a character that is a token by itself.
pub open spec fn punctuation_of(c: char) -> Option<Token> {
    if c == ',' {
        Some(Token::Comma)
    } else if c == '-' {
        Some(Token::Minus)
    } else if c == '+' {
        Some(Token::Plus)
    } else if c == '*' {
        Some(Token::Times)
    } else if c == '(' {
        Some(Token::LParen)
    } else if c == ')' {
        Some(Token::RParen)
    } else if c == '{' {
        Some(Token::LBrace)
    } else if c == '}' {
        Some(Token::RBrace)
    } else if c == '[' {
        Some(Token::LBrack)
    } else if c == ']' {
        Some(Token::RBrack)
    } else if c == '%' {
        Some(Token::Mod)
    } else if c == ';' {
        Some(Token::SemiColon)
    } else if c == ':' {
        Some(Token::Colon)
    } else if c == '.' {
        Some(Token::Period)
    } else if c == '^' {
        Some(Token::Pow)
    } else {
        None
    }
}

/// For a character that may be followed by `=`: its token alone, and its
/// token with the `=`.
pub open spec fn equals_pair_of(c: char) -> Option<(Token, Token)> {
    if c == '=' {
        Some((Token::Assign, Token::Equal))
    } else if c == '<' {
        Some((Token::Lt, Token::LtEq))
    } else if c == '>' {
        Some((Token::Gt, Token::GtEq))
    } else if c == '!' {
        Some((Token::Not, Token::NtEq))
    } else {
        None
    }
}

/// What one scan produces.
pub ghost enum Lexeme {
    /// A token without text.
    Fixed(Token),
    /// A string literal with this text.
    Text(Seq<char>),
    /// An identifier with this text.
    Name(Seq<char>),
    /// An error.
    Fail(LexerError),
}

/// Whether `r` is the result that `l` describes.
pub open spec fn token_is(r: Result<Token, LexerError>, l: Lexeme) -> bool {
    match l {
        Lexeme::Fixed(t) => r == Ok::<Token, LexerError>(t),
        Lexeme::Text(w) => r matches Ok(Token::LiteralString(x)) && x@ == w,
        Lexeme::Name(w) => r matches Ok(Token::Identifier(x)) && x@ == w,
        Lexeme::Fail(e) => r == Err::<Token, LexerError>(e),
    }
}

/// One scan of `s` from position `p`: what it produces, and the position
/// after it.  Whitespace and comments before the token are skipped.
pub open spec fn scan(s: Seq<char>, p: int) -> (Lexeme, int)
    decreases s.len() - p,
{
    if p < 0 || p > s.len() {
        (Lexeme::Fixed(Token::EOF), s.len() as int)
    } else {
        let q = run_end(s, p, CharClass::Space);
        proof {
            lemma_run_end(s, p, CharClass::Space);
        }
        if q >= s.len() {
            (Lexeme::Fixed(Token::EOF), s.len() as int)
        } else {
            let c = s[q];
            let next_is = |d: char| q + 1 < s.len() && s[q + 1] == d;
            if punctuation_of(c) is Some {
                (Lexeme::Fixed(punctuation_of(c)->0), q + 1)
            } else if equals_pair_of(c) is Some {
                let (bare, with_eq) = equals_pair_of(c)->0;
                if next_is('=') {
                    (Lexeme::Fixed(with_eq), q + 2)
                } else {
                    (Lexeme::Fixed(bare), q + 1)
                }
            } else if c == '&' || c == '|' {
                if q + 1 >= s.len() {
                    (Lexeme::Fail(LexerError::UnexpectedEndOfFile), q + 1)
                } else if s[q + 1] == c {
                    (Lexeme::Fixed(if c == '&' { Token::And } else { Token::Or }), q + 2)
                } else {
                    (Lexeme::Fail(LexerError::ExpectedChar(c, s[q + 1])), q + 1)
                }
            } else if c == '"' {
                let e = run_end(s, q + 1, CharClass::Except('"'));
                if e >= s.len() {
                    (Lexeme::Fail(LexerError::UnexpectedEndOfFile), e)
                } else {
                    (Lexeme::Text(s.subrange(q + 1, e)), e + 1)
                }
            } else if c == '/' {
                if next_is('/') {
                    proof {
                        lemma_run_end(s, q + 2, CharClass::Except('\n'));
                    }
                    scan(s, run_end(s, q + 2, CharClass::Except('\n')))
                } else if next_is('*') {
                    proof {
                        lemma_block_close(s, q + 2);
                    }
                    match block_close(s, q + 2) {
                        Some(e) => scan(s, e),
                        None => (Lexeme::Fail(LexerError::UnexpectedEndOfFile), s.len() as int),
                    }
                } else {
                    (Lexeme::Fixed(Token::Div), q + 1)
                }
            } else if alphabetic(c) {
                let e = run_end(s, q, CharClass::WordChar);
                let w = s.subrange(q, e);
                match keyword_of(lower_of(w)) {
                    Some(t) => (Lexeme::Fixed(t), e),
                    None => (Lexeme::Name(w), e),
                }
            } else if numeric(c) {
                let e = run_end(s, q, CharClass::DigitRun);
                match decimal_i64(s.subrange(q, e)) {
                    Some(v) => (Lexeme::Fixed(Token::LiteralInt(v)), e),
                    None => (Lexeme::Fail(LexerError::ParseInt), e),
                }
            } else {
                (Lexeme::Fail(LexerError::InvalidChar(c)), q)
            }
        }
    }
}

/// A run ends within the text, every character before its end is of the
/// class, and the character at its end (if any) is not.
pub proof fn lemma_run_end(s: Seq<char>, p: int, k: CharClass)
    requires
        0 <= p <= s.len(),
    ensures
        p <= run_end(s, p, k) <= s.len(),
        forall|i: int| p <= i < run_end(s, p, k) ==> in_class(k, #[trigger] s[i]),
        run_end(s, p, k) < s.len() ==> !in_class(k, s[run_end(s, p, k)]),
    decreases s.len() - p,
{
    if p < s.len() && in_class(k, s[p]) {
        lemma_run_end(s, p + 1, k);
    }
}

/// A run is determined by where it stops.
pub proof fn lemma_run_end_at(s: Seq<char>, p: int, e: int, k: CharClass)
    requires
        0 <= p <= e <= s.len(),
        forall|i: int| p <= i < e ==> in_class(k, #[trigger] s[i]),
        e < s.len() ==> !in_class(k, s[e]),
    ensures
        run_end(s, p, k) == e,
    decreases e - p,
{
    if p < e {
        lemma_run_end_at(s, p + 1, e, k);
    }
}

/// A block comment that closes does so past its start, within the text.
pub proof fn lemma_block_close(s: Seq<char>, p: int)
    ensures
        block_close(s, p) matches Some(e) ==> p + 2 <= e <= s.len(),
    decreases s.len() - p,
{
    if !(p < 0 || p + 1 >= s.len()) && !(s[p] == '*' && s[p + 1] == '/') {
        lemma_block_close(s, p + 1);
    }
}

/// A block comment is unaffected by a stretch without `*` before its end.
pub proof fn lemma_block_skip(s: Seq<char>, p: int, e: int)
    requires
        0 <= p <= e <= s.len(),
        forall|i: int| p <= i < e ==> #[trigger] s[i] != '*',
    ensures
        block_close(s, p) == block_close(s, e),
    decreases e - p,
{
    if p < e {
        lemma_block_skip(s, p + 1, e);
    }
}

/// On a text of whitespace alone, a scan from any position yields the end of
/// input and stops at the end of the text, so every later scan does too.
pub proof fn lemma_blank_text_ends(s: Seq<char>, p: int)
    requires
        forall|i: int| 0 <= i < s.len() ==> whitespace(#[trigger] s[i]),
        0 <= p <= s.len(),
    ensures
        scan(s, p) == (Lexeme::Fixed(Token::EOF), s.len() as int),
{
    lemma_run_end_at(s, p, s.len() as int, CharClass::Space);
}

/// Once a scan yields the end of input, it has stopped at the end of the
/// text, and a scan from there yields the end of input again, in place.
pub proof fn lemma_end_is_sticky(s: Seq<char>, p: int)
    requires
        scan(s, p).0 == Lexeme::Fixed(Token::EOF),
    ensures
        scan(s, p).1 == s.len(),
        scan(s, scan(s, p).1) == scan(s, p),
    decreases s.len() - p,
{
    if 0 <= p <= s.len() {
        let q = run_end(s, p, CharClass::Space);
        lemma_run_end(s, p, CharClass::Space);
        if q < s.len() && s[q] == '/' && q + 1 < s.len() {
            if s[q + 1] == '/' {
                lemma_run_end(s, q + 2, CharClass::Except('\n'));
                lemma_end_is_sticky(s, run_end(s, q + 2, CharClass::Except('\n')));
            } else if s[q + 1] == '*' {
                lemma_block_close(s, q + 2);
                if let Some(e) = block_close(s, q + 2) {
                    lemma_end_is_sticky(s, e);
                }
            }
        }
    }
    assert(run_end(s, s.len() as int, CharClass::Space) == s.len());
}

/// A text of one punctuation character scans to that character's token,
/// and then to the end of input.
pub proof fn lemma_single_punctuation(c: char)
    requires
        punctuation_of(c) is Some,
    ensures
        scan(seq![c], 0) == (Lexeme::Fixed(punctuation_of(c)->0), 1int),
        scan(seq![c], 1) == (Lexeme::Fixed(Token::EOF), 1int),
{
    let s = seq![c];
    assert(run_end(s, 1, CharClass::Space) == 1);
    assert(run_end(s, 0, CharClass::Space) == 0);
}

/// `&&` and `||` are tokens; `&` or `|` followed by another character is an
/// error naming both, and alone at the end of the text an unexpected end.
pub proof fn lemma_doubled_operators(c: char, x: char)
    requires
        c == '&' || c == '|',
        x != c,
    ensures
        scan(seq![c, c], 0) == (
        Lexeme::Fixed(if c == '&' { Token::And } else { Token::Or }),
        2int,
        ),
        scan(seq![c, x], 0).0 == Lexeme::Fail(LexerError::ExpectedChar(c, x)),
        scan(seq![c], 0).0 == Lexeme::Fail(LexerError::UnexpectedEndOfFile),
{
    assert(run_end(seq![c, c], 0, CharClass::Space) == 0);
    assert(run_end(seq![c, x], 0, CharClass::Space) == 0);
    assert(run_end(seq![c], 0, CharClass::Space) == 0);
}

/// `=`, `<`, `>` and `!` followed by `=` scan to their two-character token;
/// followed by anything else, or by nothing, to their one-character token.
pub proof fn lemma_equals_operators(c: char, x: char)
    requires
        equals_pair_of(c) is Some,
        x != '=',
    ensures
        scan(seq![c, '='], 0) == (Lexeme::Fixed((equals_pair_of(c)->0).1), 2int),
        scan(seq![c, x], 0) == (Lexeme::Fixed((equals_pair_of(c)->0).0), 1int),
        scan(seq![c], 0) == (Lexeme::Fixed((equals_pair_of(c)->0).0), 1int),
{
    assert(run_end(seq![c, '='], 0, CharClass::Space) == 0);
    assert(run_end(seq![c, x], 0, CharClass::Space) == 0);
    assert(run_end(seq![c], 0, CharClass::Space) == 0);
}

/// A word (a letter, then letters and digits) scans whole: to the keyword
/// that its lowercase form spells, so that letter case does not matter, or
/// else to an identifier that carries the word as written.
pub proof fn lemma_word(w: Seq<char>)
    requires
        w.len() > 0,
        ('a' <= w[0] && w[0] <= 'z') || ('A' <= w[0] && w[0] <= 'Z'),
        alphabetic(w[0]),
        forall|i: int| 0 <= i < w.len() ==> alphabetic(#[trigger] w[i]) || numeric(w[i]),
    ensures
        scan(w, 0) == (
        match keyword_of(lower_of(w)) {
            Some(t) => Lexeme::Fixed(t),
            None => Lexeme::Name(w),
        },
        w.len() as int,
        ),
{
    assert(run_end(w, 0, CharClass::Space) == 0);
    lemma_run_end_at(w, 0, w.len() as int, CharClass::WordChar);
    assert(w.subrange(0, w.len() as int) =~= w);
}

fn punctuation(c: char) -> (r: Option<Token>)
    ensures
        r == punctuation_of(c),
{
    match c {
        ',' => Some(Token::Comma),
        '-' => Some(Token::Minus),
        '+' => Some(Token::Plus),
        '*' => Some(Token::Times),
        '(' => Some(Token::LParen),
        ')' => Some(Token::RParen),
        '{' => Some(Token::LBrace),
        '}' => Some(Token::RBrace),
        '[' => Some(Token::LBrack),
        ']' => Some(Token::RBrack),
        '%' => Some(Token::Mod),
        ';' => Some(Token::SemiColon),
        ':' => Some(Token::Colon),
        '.' => Some(Token::Period),
        '^' => Some(Token::Pow),
        _ => None,
    }
}

fn equals_pair(c: char) -> (r: Option<(Token, Token)>)
    ensures
        r == equals_pair_of(c),
{
    match c {
        '=' => Some((Token::Assign, Token::Equal)),
        '<' => Some((Token::Lt, Token::LtEq)),
        '>' => Some((Token::Gt, Token::GtEq)),
        '!' => Some((Token::Not, Token::NtEq)),
        _ => None,
    }
}

fn not_quote(c: char) -> (r: bool)
    ensures
        r == in_class(CharClass::Except('"'), c),
{
    c != '"'
}

fn not_star(c: char) -> (r: bool)
    ensures
        r == in_class(CharClass::Except('*'), c),
{
    c != '*'
}

fn not_newline(c: char) -> (r: bool)
    ensures
        r == in_class(CharClass::Except('\n'), c),
{
    c != '\n'
}

fn digit_run_char(c: char) -> (r: bool)
    ensures
        r == in_class(CharClass::DigitRun, c),
{
    is_numeric(c) || c == '.' || c == '_'
}

/// A scanner over a text: the text's characters and a cursor into them.
pub struct Lexer {
    chars: Vec<char>,
    pos: usize,
}

impl Lexer {
    /// The characters being scanned.
    pub closed spec fn text(&self) -> Seq<char> {
        self.chars@
    }

    /// How many characters have been consumed.
    pub closed spec fn cursor(&self) -> int {
        self.pos as int
    }

    /// The cursor stays within the text.
    pub closed spec fn wf(&self) -> bool {
        self.pos <= self.chars.len()
    }

    /// A scanner at the start of `input`.
    pub fn new(input: String) -> (r: Lexer)
        ensures
            r.wf(),
            r.text() == input@,
            r.cursor() == 0,
    {
        Lexer { chars: chars_of(input.as_str()), pos: 0 }
    }

    /// Consumes the longest run of characters that satisfy `predicate` and
    /// returns it; the run may reach the end of the text.
    pub fn take_while_or_none<F: Fn(char) -> bool>(&mut self, predicate: F) -> (r: String)
        requires
            old(self).wf(),
            forall|c: char| predicate.requires((c,)),
        ensures
            final(self).wf(),
            final(self).text() == old(self).text(),
            old(self).cursor() <= final(self).cursor(),
            r@ == old(self).text().subrange(old(self).cursor(), final(self).cursor()),
            forall|i: int|
                old(self).cursor() <= i < final(self).cursor() ==> predicate.ensures(
                    (#[trigger] old(self).text()[i],),
                    true,
                ),
            final(self).cursor() < final(self).text().len() ==> predicate.ensures(
                (final(self).text()[final(self).cursor()],),
                false,
            ),
    {
        let ghost start = self.pos as int;
        let mut string = String::new();
        while self.pos < self.chars.len()
            invariant
                self.wf(),
                self.chars@ == old(self).chars@,
                start == old(self).pos,
                start <= self.pos,
                string@ == self.chars@.subrange(start, self.pos as int),
                forall|c: char| predicate.requires((c,)),
                forall|i: int|
                    start <= i < self.pos ==> predicate.ensures((#[trigger] self.chars@[i],), true),
            ensures
                self.wf(),
                self.chars@ == old(self).chars@,
                start <= self.pos,
                string@ == self.chars@.subrange(start, self.pos as int),
                forall|i: int|
                    start <= i < self.pos ==> predicate.ensures((#[trigger] self.chars@[i],), true),
                self.pos < self.chars.len() ==> predicate.ensures((self.chars@[self.pos as int],), false),
            decreases self.chars.len() - self.pos,
        {
            let c = self.chars[self.pos];
            if predicate(c) {
                push_char(&mut string, c);
                self.pos = self.pos + 1;
                assert(string@ =~= self.chars@.subrange(start, self.pos as int));
            } else {
                break;
            }
        }
        string
    }

    /// Consumes the longest run of characters that satisfy `predicate` and
    /// returns it, provided a character that does not satisfy it follows;
    /// a run that reaches the end of the text is an error.
    pub fn take_while<F: Fn(char) -> bool>(&mut self, p: F) -> (r: Result<String, LexerError>)
        requires
            old(self).wf(),
            forall|c: char| p.requires((c,)),
        ensures
            final(self).wf(),
            final(self).text() == old(self).text(),
            old(self).cursor() <= final(self).cursor(),
            forall|i: int|
                old(self).cursor() <= i < final(self).cursor() ==> p.ensures(
                    (#[trigger] old(self).text()[i],),
                    true,
                ),
            final(self).cursor() < final(self).text().len() ==> p.ensures(
                (final(self).text()[final(self).cursor()],),
                false,
            ),
            match r {
                Ok(w) => final(self).cursor() < final(self).text().len() && w@
                    == old(self).text().subrange(old(self).cursor(), final(self).cursor()),
                Err(e) => final(self).cursor() == final(self).text().len() && e
                    == LexerError::UnexpectedEndOfFile,
            },
    {
        let string = self.take_while_or_none(p);
        if self.pos < self.chars.len() {
            Ok(string)
        } else {
            Err(LexerError::UnexpectedEndOfFile)
        }
    }

    /// Consumes the whitespace at the cursor.
    pub fn skip_whitespace(&mut self)
        requires
            old(self).wf(),
        ensures
            final(self).wf(),
            final(self).text() == old(self).text(),
            final(self).cursor() == run_end(old(self).text(), old(self).cursor(), CharClass::Space),
    {
        let ghost s = self.chars@;
        let ghost p = self.pos as int;
        self.take_while_or_none(is_whitespace);
        proof {
            lemma_run_end_at(s, p, self.pos as int, CharClass::Space);
        }
    }
    /// Produces the next token of the text, skipping the whitespace and the
    /// comments before it; at the end of the text, `Token::EOF`.
    pub fn next_token(&mut self) -> (r: Result<Token, LexerError>)
        requires
            old(self).wf(),
        ensures
            final(self).wf(),
            final(self).text() == old(self).text(),
            token_is(r, scan(old(self).text(), old(self).cursor()).0),
            r is Ok ==> final(self).cursor() == scan(old(self).text(), old(self).cursor()).1,
    {
        let ghost s = self.chars@;
        let ghost goal = scan(s, self.pos as int);
        loop
            invariant
                self.wf(),
                self.chars@ == s,
                s == old(self).chars@,
                goal == scan(s, old(self).pos as int),
                scan(s, self.pos as int) == goal,
            decreases s.len() - self.pos,
        {
            let ghost p = self.pos as int;
            self.skip_whitespace();
            proof {
                lemma_run_end(s, p, CharClass::Space);
            }
            let q = self.pos;
            if q >= self.chars.len() {
                return Ok(Token::EOF);
            }
            let c = self.chars[q];
            if let Some(t) = punctuation(c) {
                self.pos = q + 1;
                return Ok(t);
            }
            if let Some((bare, with_eq)) = equals_pair(c) {
                self.pos = q + 1;
                if self.pos < self.chars.len() && self.chars[self.pos] == '=' {
                    self.pos = self.pos + 1;
                    return Ok(with_eq);
                }
                return Ok(bare);
            }
            if c == '&' || c == '|' {
                self.pos = q + 1;
                if self.pos >= self.chars.len() {
                    return Err(LexerError::UnexpectedEndOfFile);
                }
                let d = self.chars[self.pos];
                if d != c {
                    return Err(LexerError::ExpectedChar(c, d));
                }
                self.pos = self.pos + 1;
                return Ok(if c == '&' { Token::And } else { Token::Or });
            }
            if c == '"' {
                self.pos = q + 1;
                let ghost start = self.pos as int;
                let text = self.take_while(not_quote);
                proof {
                    lemma_run_end_at(s, start, self.pos as int, CharClass::Except('"'));
                }
                match text {
                    Ok(w) => {
                        self.pos = self.pos + 1;
                        return Ok(Token::LiteralString(w));
                    },
                    Err(e) => {
                        return Err(e);
                    },
                }
            }
            if c == '/' {
                self.pos = q + 1;
                if self.pos < self.chars.len() && self.chars[self.pos] == '/' {
                    self.pos = self.pos + 1;
                    let ghost start = self.pos as int;
                    self.take_while_or_none(not_newline);
                    proof {
                        lemma_run_end_at(s, start, self.pos as int, CharClass::Except('\n'));
                    }
                    continue;
                }
                if self.pos < self.chars.len() && self.chars[self.pos] == '*' {
                    self.pos = self.pos + 1;
                    let ghost body = self.pos as int;
                    let ghost closes = block_close(s, body);
                    assert(closes is None ==> goal.0 == Lexeme::Fail(LexerError::UnexpectedEndOfFile));
                    loop
                        invariant_except_break
                            block_close(s, body) == block_close(s, self.pos as int),
                        invariant
                            self.wf(),
                            self.chars@ == s,
                            s == old(self).chars@,
                            goal == scan(s, old(self).pos as int),
                            closes == block_close(s, body),
                            closes is None ==> goal.0 == Lexeme::Fail(LexerError::UnexpectedEndOfFile),
                            body <= self.pos,
                        ensures
                            self.wf(),
                            self.chars@ == s,
                            body <= self.pos,
                            block_close(s, body) == Some(self.pos as int),
                        decreases s.len() - self.pos,
                    {
                        let ghost from = self.pos as int;
                        let skipped = self.take_while(not_star);
                        proof {
                            lemma_block_skip(s, from, self.pos as int);
                        }
                        if skipped.is_err() {
                            return Err(LexerError::UnexpectedEndOfFile);
                        }
                        self.pos = self.pos + 1;
                        if self.pos < self.chars.len() && self.chars[self.pos] == '/' {
                            self.pos = self.pos + 1;
                            break;
                        }
                    }
                    continue;
                }
                return Ok(Token::Div);
            }
            if is_alphabetic(c) {
                let word = self.take_while_or_none(is_alphanumeric);
                proof {
                    lemma_run_end_at(s, q as int, self.pos as int, CharClass::WordChar);
                }
                match keyword_to_token(word.as_str()) {
                    Some(t) => {
                        return Ok(t);
                    },
                    None => {
                        return Ok(Token::Identifier(word));
                    },
                }
            }
            if is_numeric(c) {
                let digits = self.take_while_or_none(digit_run_char);
                proof {
                    lemma_run_end_at(s, q as int, self.pos as int, CharClass::DigitRun);
                }
                match parse_i64(digits.as_str()) {
                    Some(v) => {
                        return Ok(Token::LiteralInt(v));
                    },
                    None => {
                        return Err(LexerError::ParseInt);
                    },
                }
            }
            return Err(LexerError::InvalidChar(c));
        }
    }
}

} // verus!
