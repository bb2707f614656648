//! The lexer: from source text to tokens.
//!
//! The specification reads the text as a sequence of characters.  From a
//! position, `lex_step` skips whitespace and `//` comments and reads one
//! lexeme; `lex_all` reads lexemes until the end of the text.  Each token
//! that the lexer returns `denotes` the lexeme read at that point.

use vstd::prelude::*;
use crate::text::{
    is_space, is_letter, is_letter_or_digit, is_ascii_digit,
    char_is_whitespace, char_is_alphabetic, char_is_alphanumeric, char_is_ascii_digit, push_char,
    chars_match_str,
};
use crate::token::Token;

verus! {

/// Why a text cannot be lexed.
#[derive(Debug, PartialEq, Eq, Clone, Copy)]
pub enum LexError {
    /// A `!` that is not followed by `=`.
    UnexpectedBang,
    /// A character that starts no token.
    UnexpectedChar(char),
    /// An integer literal above `i64::MAX`.
    IntegerOverflow,
}

/// What one step of the lexer reads.
pub enum Lexeme {
    /// A word: a keyword or an identifier.
    Word(Seq<char>),
    /// Digits, with at most one decimal point.
    Number(Seq<char>),
    /// The characters between double quotes.
    Text(Seq<char>),
    /// An operator or punctuation token.
    Symbol(Token),
    /// The end of the text.
    End,
}

pub open spec fn char_at(s: Seq<char>, i: int) -> Option<char> {
    if 0 <= i < s.len() {
        Some(s[i])
    } else {
        None
    }
}

/// The first position at or after `i` that does not hold whitespace.
pub open spec fn skip_whitespace_from(s: Seq<char>, i: nat) -> nat
    decreases s.len() - i,
{
    if i < s.len() && is_space(s[i as int]) {
        skip_whitespace_from(s, i + 1)
    } else {
        i
    }
}

/// Characters that may continue an identifier.
pub open spec fn is_ident_char(c: char) -> bool {
    is_letter_or_digit(c) || c == '_'
}

/// Characters that may start an identifier.
pub open spec fn is_ident_start(c: char) -> bool {
    is_letter(c) || c == '_'
}

/// The end of the run of identifier characters from `i`.
pub open spec fn ident_end(s: Seq<char>, i: nat) -> nat
    decreases s.len() - i,
{
    if i < s.len() && is_ident_char(s[i as int]) {
        ident_end(s, i + 1)
    } else {
        i
    }
}

/// The end of the run of digits from `i`, taking at most one decimal point
/// (none once `seen_dot` holds).
pub open spec fn number_end(s: Seq<char>, i: nat, seen_dot: bool) -> nat
    decreases s.len() - i,
{
    if i < s.len() && is_ascii_digit(s[i as int]) {
        number_end(s, i + 1, seen_dot)
    } else if i < s.len() && s[i as int] == '.' && !seen_dot {
        number_end(s, i + 1, true)
    } else {
        i
    }
}

/// The position of the first `"` at or after `i`, or the end of the text.
pub open spec fn quote_end(s: Seq<char>, i: nat) -> nat
    decreases s.len() - i,
{
    if i < s.len() && s[i as int] != '"' {
        quote_end(s, i + 1)
    } else {
        i
    }
}

/// The position just after the first newline at or after `i`; one past the
/// end of the text when no newline follows (reading moves one step past the
/// last character before it finds nothing more).
pub open spec fn line_end(s: Seq<char>, i: nat) -> nat
    decreases s.len() - i,
{
    if i < s.len() {
        if s[i as int] == '\n' {
            i + 1
        } else {
            line_end(s, i + 1)
        }
    } else {
        i + 1
    }
}

/// The value of a sequence of decimal digits.
pub open spec fn decimal_value(d: Seq<char>) -> int
    decreases d.len(),
{
    if d.len() == 0 {
        0
    } else {
        decimal_value(d.drop_last()) * 10 + (d.last() as int - '0' as int)
    }
}

/// The keyword that a word spells, if any.
pub open spec fn keyword_token(w: Seq<char>) -> Option<Token> {
    if w == "main"@ {
        Some(Token::Main)
    } else if w == "func"@ {
        Some(Token::Func)
    } else if w == "let"@ {
        Some(Token::Let)
    } else if w == "const"@ {
        Some(Token::Const)
    } else if w == "export"@ {
        Some(Token::Export)
    } else if w == "use"@ {
        Some(Token::Use)
    } else if w == "struct"@ {
        Some(Token::Struct)
    } else if w == "return"@ {
        Some(Token::Return)
    } else if w == "if"@ {
        Some(Token::If)
    } else if w == "else"@ {
        Some(Token::Else)
    } else if w == "then"@ {
        Some(Token::Then)
    } else if w == "end"@ {
        Some(Token::End)
    } else if w == "while"@ {
        Some(Token::While)
    } else if w == "for"@ {
        Some(Token::For)
    } else if w == "loop"@ {
        Some(Token::Loop)
    } else if w == "break"@ {
        Some(Token::Break)
    } else if w == "continue"@ {
        Some(Token::Continue)
    } else if w == "and"@ {
        Some(Token::And)
    } else if w == "or"@ {
        Some(Token::Or)
    } else if w == "not"@ {
        Some(Token::Not)
    } else if w == "true"@ {
        Some(Token::Bool(true))
    } else if w == "false"@ {
        Some(Token::Bool(false))
    } else if w == "int"@ {
        Some(Token::TypeInt)
    } else if w == "float"@ {
        Some(Token::TypeFloat)
    } else if w == "bool"@ {
        Some(Token::TypeBool)
    } else if w == "string"@ {
        Some(Token::TypeString)
    } else if w == "byte"@ {
        Some(Token::TypeByte)
    } else if w == "ptr"@ {
        Some(Token::TypePtr)
    } else {
        None
    }
}

/// The operator or punctuation token that starts with `c` at position `j`,
/// with `next` the character after it, and the position after the token.
pub open spec fn symbol_step(c: char, next: Option<char>, j: nat) -> Result<(Lexeme, nat), LexError> {
    if c == '+' {
        if next == Some('+') {
            Ok((Lexeme::Symbol(Token::PlusPlus), j + 2))
        } else if next == Some('=') {
            Ok((Lexeme::Symbol(Token::PlusAssign), j + 2))
        } else {
            Ok((Lexeme::Symbol(Token::Plus), j + 1))
        }
    } else if c == '-' {
        if next == Some('-') {
            Ok((Lexeme::Symbol(Token::MinusMinus), j + 2))
        } else if next == Some('=') {
            Ok((Lexeme::Symbol(Token::MinusAssign), j + 2))
        } else {
            Ok((Lexeme::Symbol(Token::Minus), j + 1))
        }
    } else if c == '*' {
        if next == Some('=') {
            Ok((Lexeme::Symbol(Token::StarAssign), j + 2))
        } else {
            Ok((Lexeme::Symbol(Token::Star), j + 1))
        }
    } else if c == '/' {
        if next == Some('=') {
            Ok((Lexeme::Symbol(Token::SlashAssign), j + 2))
        } else {
            Ok((Lexeme::Symbol(Token::Slash), j + 1))
        }
    } else if c == '%' {
        Ok((Lexeme::Symbol(Token::Percent), j + 1))
    } else if c == '=' {
        if next == Some('=') {
            Ok((Lexeme::Symbol(Token::Eq), j + 2))
        } else {
            Ok((Lexeme::Symbol(Token::Assign), j + 1))
        }
    } else if c == '!' {
        if next == Some('=') {
            Ok((Lexeme::Symbol(Token::NotEq), j + 2))
        } else {
            Err(LexError::UnexpectedBang)
        }
    } else if c == '<' {
        if next == Some('=') {
            Ok((Lexeme::Symbol(Token::LtEq), j + 2))
        } else {
            Ok((Lexeme::Symbol(Token::Lt), j + 1))
        }
    } else if c == '>' {
        if next == Some('=') {
            Ok((Lexeme::Symbol(Token::GtEq), j + 2))
        } else {
            Ok((Lexeme::Symbol(Token::Gt), j + 1))
        }
    } else if c == ':' {
        Ok((Lexeme::Symbol(Token::Colon), j + 1))
    } else if c == ';' {
        Ok((Lexeme::Symbol(Token::Semicolon), j + 1))
    } else if c == ',' {
        Ok((Lexeme::Symbol(Token::Comma), j + 1))
    } else if c == '.' {
        Ok((Lexeme::Symbol(Token::Dot), j + 1))
    } else if c == '(' {
        Ok((Lexeme::Symbol(Token::LParen), j + 1))
    } else if c == ')' {
        Ok((Lexeme::Symbol(Token::RParen), j + 1))
    } else if c == '[' {
        Ok((Lexeme::Symbol(Token::LBracket), j + 1))
    } else if c == ']' {
        Ok((Lexeme::Symbol(Token::RBracket), j + 1))
    } else {
        Err(LexError::UnexpectedChar(c))
    }
}

/// The number lexeme of the digits from `j` to `k`; an integer literal above
/// `i64::MAX` is an error.
pub open spec fn number_step(s: Seq<char>, j: nat, k: nat) -> Result<(Lexeme, nat), LexError> {
    let d = s.subrange(j as int, k as int);
    if !d.contains('.') && decimal_value(d) > i64::MAX {
        Err(LexError::IntegerOverflow)
    } else {
        Ok((Lexeme::Number(d), k))
    }
}

pub proof fn lemma_skip_whitespace_bounds(s: Seq<char>, i: nat)
    ensures
        skip_whitespace_from(s, i) >= i,
        i <= s.len() ==> skip_whitespace_from(s, i) <= s.len(),
        i > s.len() ==> skip_whitespace_from(s, i) == i,
    decreases s.len() - i,
{
    if i < s.len() && is_space(s[i as int]) {
        lemma_skip_whitespace_bounds(s, i + 1);
    }
}

pub proof fn lemma_quote_end_bounds(s: Seq<char>, i: nat)
    ensures
        quote_end(s, i) >= i,
        i <= s.len() ==> quote_end(s, i) <= s.len(),
        quote_end(s, i) < s.len() ==> s[quote_end(s, i) as int] == '"',
    decreases s.len() - i,
{
    if i < s.len() && s[i as int] != '"' {
        lemma_quote_end_bounds(s, i + 1);
    }
}

pub proof fn lemma_line_end_bounds(s: Seq<char>, i: nat)
    ensures
        line_end(s, i) > i,
        i <= s.len() ==> line_end(s, i) <= s.len() + 1,
    decreases s.len() - i,
{
    if i < s.len() && s[i as int] != '\n' {
        lemma_line_end_bounds(s, i + 1);
    }
}

/// One step of the lexer from position `i`: the lexeme read and the position
/// after it, or the reason the text cannot be lexed there.
///
/// Whitespace is skipped, and a `//` comment up to and including its newline.
/// Then, by the first character: the end of the text; a word (a letter or
/// `_`, then letters, digits and `_`); a number (ASCII digits with at most
/// one decimal point); a string (up to the closing quote, or to the end of
/// the text when there is none, the position then one past the end); or an
/// operator or punctuation token.
pub open spec fn lex_step(s: Seq<char>, i: nat) -> Result<(Lexeme, nat), LexError>
    decreases s.len() + 1 - i,
{
    let j = skip_whitespace_from(s, i);
    if j >= s.len() {
        Ok((Lexeme::End, j))
    } else {
        let c = s[j as int];
        let next = char_at(s, j + 1int);
        if c == '/' && next == Some('/') {
            let k = line_end(s, j);
            proof {
                lemma_skip_whitespace_bounds(s, i);
                lemma_line_end_bounds(s, j);
            }
            lex_step(s, k)
        } else if is_ident_start(c) {
            let k = ident_end(s, j + 1);
            Ok((Lexeme::Word(s.subrange(j as int, k as int)), k))
        } else if is_ascii_digit(c) {
            number_step(s, j, number_end(s, j, false))
        } else if c == '"' {
            let e = quote_end(s, j + 1);
            Ok((Lexeme::Text(s.subrange(j + 1int, e as int)), e + 1))
        } else {
            symbol_step(c, next, j)
        }
    }
}

/// Whether token `t` is the token for lexeme `l`.
pub open spec fn denotes(t: Token, l: Lexeme) -> bool {
    match l {
        Lexeme::Word(w) => match keyword_token(w) {
            Some(k) => t == k,
            None => t matches Token::Identifier(n) && n@ == w,
        },
        Lexeme::Number(d) => if d.contains('.') {
            t matches Token::Float(f) && f@ == d
        } else {
            t == Token::Int(decimal_value(d) as i64)
        },
        Lexeme::Text(x) => t matches Token::StringLit(v) && v@ == x,
        Lexeme::Symbol(k) => t == k,
        Lexeme::End => t == Token::Eof,
    }
}


/// The lexer: the source text as characters and the position reached.
pub struct Lexer {
    source: Vec<char>,
    pos: usize,
}

/// What a lexer holds: the text and the position reached in it.
pub struct LexerView {
    pub chars: Seq<char>,
    pub pos: nat,
}

impl View for Lexer {
    type V = LexerView;

    closed spec fn view(&self) -> LexerView {
        LexerView { chars: self.source@, pos: self.pos as nat }
    }
}

impl Lexer {
    #[verifier::type_invariant]
    spec fn position_in_text(self) -> bool {
        &&& self.pos <= self.source@.len() + 1
        &&& self.source@.len() < usize::MAX
    }

    /// The lexer placed at the start of `source`.  (The position may move one
    /// past the end of the text, so the text's length must be below
    /// `usize::MAX`.)
    pub fn new(source: &str) -> (l: Lexer)
        requires
            source@.len() < usize::MAX,
        ensures
            l@.chars == source@,
            l@.pos == 0,
    {
        let mut chars: Vec<char> = Vec::new();
        for c in it: source.chars()
            invariant
                chars@ == it.seq().take(it.index() as int),
        {
            chars.push(c);
        }
        assert(chars@ == source@);
        Lexer { source: chars, pos: 0 }
    }

    /// The character at the position reached.
    fn current(&self) -> (c: Option<char>)
        ensures
            c == char_at(self@.chars, self@.pos as int),
    {
        if self.pos < self.source.len() {
            Some(self.source[self.pos])
        } else {
            None
        }
    }

    /// The character after the one at the position reached.
    fn peek(&self) -> (c: Option<char>)
        ensures
            c == char_at(self@.chars, self@.pos + 1int),
    {
        if self.pos < self.source.len() {
            let n = self.pos + 1;
            if n < self.source.len() {
                return Some(self.source[n]);
            }
        }
        None
    }

    /// Moves past the character at the position reached and returns it.
    fn advance(&mut self) -> (c: Option<char>)
        requires
            old(self)@.pos <= old(self)@.chars.len(),
        ensures
            final(self)@.chars == old(self)@.chars,
            c == char_at(old(self)@.chars, old(self)@.pos as int),
            final(self)@.pos == old(self)@.pos + 1,
    {
        proof {
            use_type_invariant(&*self);
        }
        let c = self.current();
        self.pos = self.pos + 1;
        c
    }

    /// Moves past whitespace.
    fn skip_whitespace(&mut self)
        ensures
            final(self)@.chars == old(self)@.chars,
            final(self)@.pos == skip_whitespace_from(old(self)@.chars, old(self)@.pos),
    {
        proof {
            use_type_invariant(&*self);
        }
        loop
            invariant
                self@.chars == old(self)@.chars,
                self@.pos <= self@.chars.len() + 1,
                skip_whitespace_from(self@.chars, self@.pos) == skip_whitespace_from(
                    old(self)@.chars,
                    old(self)@.pos,
                ),
            ensures
                self@.chars == old(self)@.chars,
                self@.pos == skip_whitespace_from(old(self)@.chars, old(self)@.pos),
            decreases self@.chars.len() + 1 - self@.pos,
        {
            match self.current() {
                Some(c) => {
                    if char_is_whitespace(c) {
                        self.advance();
                    } else {
                        break;
                    }
                },
                None => {
                    break;
                },
            }
        }
    }

    /// Moves past the rest of the line, its newline included.
    fn skip_line_comment(&mut self)
        requires
            old(self)@.pos <= old(self)@.chars.len(),
        ensures
            final(self)@.chars == old(self)@.chars,
            final(self)@.pos == line_end(old(self)@.chars, old(self)@.pos),
    {
        proof {
            use_type_invariant(&*self);
        }
        loop
            invariant_except_break
                self@.pos <= self@.chars.len(),
                line_end(self@.chars, self@.pos) == line_end(old(self)@.chars, old(self)@.pos),
            invariant
                self@.chars == old(self)@.chars,
                self@.pos <= self@.chars.len() + 1,
            ensures
                self@.chars == old(self)@.chars,
                self@.pos == line_end(old(self)@.chars, old(self)@.pos),
            decreases self@.chars.len() + 1 - self@.pos,
        {
            match self.advance() {
                Some(c) => {
                    if c == '\n' {
                        break;
                    }
                },
                None => {
                    break;
                },
            }
        }
    }

    /// Reads a word: a keyword, `true`, `false`, a type name or an identifier.
    /// The position is at a character that starts an identifier.
    fn read_identifier(&mut self) -> (t: Token)
        requires
            old(self)@.pos < old(self)@.chars.len(),
            is_ident_start(old(self)@.chars[old(self)@.pos as int]),
        ensures
            final(self)@.chars == old(self)@.chars,
            final(self)@.pos == ident_end(old(self)@.chars, old(self)@.pos + 1),
            denotes(
                t,
                Lexeme::Word(
                    old(self)@.chars.subrange(
                        old(self)@.pos as int,
                        ident_end(old(self)@.chars, old(self)@.pos + 1) as int,
                    ),
                ),
            ),
    {
        proof {
            use_type_invariant(&*self);
        }
        let ghost start = self@.pos;
        let mut word: Vec<char> = Vec::new();
        let mut ident = String::new();
        loop
            invariant_except_break
                self@.pos > start ==> ident_end(self@.chars, self@.pos) == ident_end(self@.chars, start + 1),
            invariant
                self@.chars == old(self)@.chars,
                start == old(self)@.pos,
                start < self@.chars.len(),
                start <= self@.pos <= self@.chars.len(),
                self@.pos == start ==> is_ident_start(self@.chars[start as int]),
                word@ == self@.chars.subrange(start as int, self@.pos as int),
                ident@ == word@,
            ensures
                self@.chars == old(self)@.chars,
                self@.pos == ident_end(self@.chars, start + 1),
                word@ == self@.chars.subrange(start as int, self@.pos as int),
                ident@ == word@,
            decreases self@.chars.len() - self@.pos,
        {
            match self.current() {
                Some(c) => {
                    if char_is_alphanumeric(c) || c == '_' {
                        word.push(c);
                        push_char(&mut ident, c);
                        self.advance();
                        assert(word@ =~= self@.chars.subrange(start as int, self@.pos as int));
                    } else {
                        break;
                    }
                },
                None => {
                    break;
                },
            }
        }
        keyword_or_identifier(&word, ident)
    }

    /// Whether the number that starts at the position reached fits: it has
    /// a decimal point, or its value is at most `i64::MAX`.
    fn number_fits(&self) -> (r: bool)
        requires
            self@.pos < self@.chars.len(),
        ensures
            r == number_step(self@.chars, self@.pos, number_end(self@.chars, self@.pos, false)) is Ok,
    {
        proof {
            use_type_invariant(self);
        }
        let ghost s = self@.chars;
        let ghost start = self@.pos;
        let mut k: usize = self.pos;
        let mut seen_dot = false;
        let mut too_big = false;
        let mut v: i128 = 0;
        assert(s.subrange(start as int, start as int) =~= Seq::<char>::empty());
        while k < self.source.len()
            invariant_except_break
                number_end(s, k as nat, seen_dot) == number_end(s, start, false),
            invariant
                s == self@.chars,
                start == self@.pos,
                start <= k <= s.len(),
                k == self.source@.len() ==> number_end(s, k as nat, seen_dot) == number_end(s, start, false),
                seen_dot == s.subrange(start as int, k as int).contains('.'),
                !seen_dot ==> all_digits(s.subrange(start as int, k as int)),
                !seen_dot && too_big ==> decimal_value(s.subrange(start as int, k as int)) > i64::MAX,
                !seen_dot && !too_big ==> v == decimal_value(s.subrange(start as int, k as int)),
                0 <= v <= i64::MAX,
            ensures
                number_end(s, k as nat, seen_dot) == number_end(s, start, false),
                k == number_end(s, start, false),
                seen_dot == s.subrange(start as int, k as int).contains('.'),
                !seen_dot && too_big ==> decimal_value(s.subrange(start as int, k as int)) > i64::MAX,
                !seen_dot && !too_big ==> v == decimal_value(s.subrange(start as int, k as int)),
            decreases s.len() - k,
        {
            let c = self.source[k];
            let ghost d = s.subrange(start as int, k as int);
            let ghost d2 = s.subrange(start as int, k + 1);
            assert(d2 =~= d.push(c));
            assert(d2.drop_last() =~= d);
            if char_is_ascii_digit(c) {
                if !seen_dot {
                    assert forall|m: int| 0 <= m < d2.len() implies is_ascii_digit(#[trigger] d2[m]) by {
                        if m < d.len() {
                            assert(d2[m] == d[m]);
                        }
                    }
                    if !too_big {
                        let w = v * 10 + (c as u32 - '0' as u32) as i128;
                        if w > i64::MAX as i128 {
                            too_big = true;
                        } else {
                            v = w;
                        }
                    }
                }
                proof {
                    if !d.contains('.') {
                        assert forall|m: int| 0 <= m < d2.len() implies d2[m] != '.' by {
                            if m < d.len() {
                                assert(d2[m] == d[m]);
                            }
                        }
                    } else {
                        let w = choose|w: int| 0 <= w < d.len() && d[w] == '.';
                        assert(d2[w] == '.');
                    }
                }
                k = k + 1;
            } else if c == '.' && !seen_dot {
                seen_dot = true;
                assert(d2[d2.len() - 1] == '.');
                k = k + 1;
            } else {
                break;
            }
        }
        seen_dot || !too_big
    }

    /// Reads digits with at most one decimal point; the position is at a
    /// digit, and an integer literal there fits in an `i64`.
    fn read_number(&mut self) -> (t: Token)
        requires
            old(self)@.pos < old(self)@.chars.len(),
            is_ascii_digit(old(self)@.chars[old(self)@.pos as int]),
            number_step(old(self)@.chars, old(self)@.pos, number_end(old(self)@.chars, old(self)@.pos, false)) is Ok,
        ensures
            final(self)@.chars == old(self)@.chars,
            number_step(old(self)@.chars, old(self)@.pos, number_end(old(self)@.chars, old(self)@.pos, false))
                matches Ok((l, e)) && denotes(t, l) && final(self)@.pos == e,
    {
        proof {
            use_type_invariant(&*self);
        }
        let ghost start = self@.pos;
        let mut digits: Vec<char> = Vec::new();
        let mut num = String::new();
        let mut is_float = false;
        loop
            invariant
                self@.chars == old(self)@.chars,
                start == old(self)@.pos,
                start <= self@.pos <= self@.chars.len(),
                start < self@.chars.len(),
                number_end(self@.chars, self@.pos, is_float) == number_end(self@.chars, start, false),
                digits@ == self@.chars.subrange(start as int, self@.pos as int),
                num@ == digits@,
                is_float == digits@.contains('.'),
                forall|k: int| 0 <= k < digits@.len() ==> is_ascii_digit(#[trigger] digits@[k]) || digits@[k] == '.',
            ensures
                self@.chars == old(self)@.chars,
                self@.pos == number_end(self@.chars, start, false),
                forall|k: int| 0 <= k < digits@.len() ==> is_ascii_digit(#[trigger] digits@[k]) || digits@[k] == '.',
                digits@ == self@.chars.subrange(start as int, self@.pos as int),
                num@ == digits@,
                is_float == digits@.contains('.'),
            decreases self@.chars.len() - self@.pos,
        {
            match self.current() {
                Some(c) => {
                    if char_is_ascii_digit(c) || (c == '.' && !is_float) {
                        let ghost before = digits@;
                        if c == '.' {
                            is_float = true;
                        }
                        digits.push(c);
                        push_char(&mut num, c);
                        self.advance();
                        assert(digits@ =~= self@.chars.subrange(start as int, self@.pos as int));
                        assert(digits@ == before.push(c));
                        proof {
                            if c == '.' {
                                assert(digits@[digits@.len() - 1] == '.');
                            } else if before.contains('.') {
                                let w = choose|w: int| 0 <= w < before.len() && before[w] == '.';
                                assert(digits@[w] == '.');
                            } else {
                                assert forall|w: int| 0 <= w < digits@.len() implies digits@[w] != '.' by {
                                    if w < before.len() {
                                        assert(digits@[w] == before[w]);
                                    }
                                }
                            }
                        }
                    } else {
                        break;
                    }
                },
                None => {
                    break;
                },
            }
        }
        if is_float {
            Token::Float(num)
        } else {
            assert(all_digits(digits@)) by {
                assert forall|k: int| 0 <= k < digits@.len() implies is_ascii_digit(#[trigger] digits@[k]) by {
                    if digits@[k] == '.' {
                        assert(digits@.contains('.'));
                    }
                }
            }
            match decimal_of(&digits) {
                Some(v) => Token::Int(v),
                None => {
                    proof {
                        assert(false);
                    }
                    Token::Int(0)
                },
            }
        }
    }

    /// Reads a string literal; the position is at its opening quote.
    fn read_string(&mut self) -> (t: Token)
        requires
            old(self)@.pos < old(self)@.chars.len(),
        ensures
            final(self)@.chars == old(self)@.chars,
            ({
                let e = quote_end(old(self)@.chars, old(self)@.pos + 1);
                &&& denotes(
                    t,
                    Lexeme::Text(old(self)@.chars.subrange(old(self)@.pos + 1int, e as int)),
                )
                &&& final(self)@.pos == e + 1
            }),
    {
        proof {
            use_type_invariant(&*self);
        }
        self.advance();
        let ghost start = self@.pos;
        proof {
            lemma_quote_end_bounds(self@.chars, start);
        }
        let mut s = String::new();
        loop
            invariant_except_break
                self@.pos <= self@.chars.len(),
                quote_end(self@.chars, self@.pos) == quote_end(self@.chars, start),
                s@ == self@.chars.subrange(start as int, self@.pos as int),
            invariant
                self@.chars == old(self)@.chars,
                start == old(self)@.pos + 1,
                start <= self@.pos <= self@.chars.len() + 1,
            ensures
                self@.chars == old(self)@.chars,
                ({
                    let e = quote_end(self@.chars, start);
                    &&& s@ == self@.chars.subrange(start as int, e as int)
                    &&& self@.pos == e + 1
                }),
            decreases self@.chars.len() + 1 - self@.pos,
        {
            let ghost p = self@.pos;
            match self.advance() {
                Some(c) => {
                    if c == '"' {
                        assert(self@.chars.subrange(start as int, p as int) == s@);
                        break;
                    }
                    push_char(&mut s, c);
                    assert(s@ =~= self@.chars.subrange(start as int, self@.pos as int));
                },
                None => {
                    break;
                },
            }
        }
        Token::StringLit(s)
    }
}

impl Lexer {
    /// Reads an operator or punctuation token; the position is at `c`.
    fn read_symbol(&mut self, c: char) -> (r: Result<Token, LexError>)
        requires
            old(self)@.pos < old(self)@.chars.len(),
            old(self)@.chars[old(self)@.pos as int] == c,
        ensures
            final(self)@.chars == old(self)@.chars,
            match symbol_step(c, char_at(old(self)@.chars, old(self)@.pos + 1int), old(self)@.pos) {
                Ok((l, k)) => r matches Ok(t) && denotes(t, l) && final(self)@.pos == k,
                Err(e) => r == Err::<Token, LexError>(e),
            },
    {
        proof {
            use_type_invariant(&*self);
        }
        let next = self.peek();
        self.advance();
        if c == '+' {
            match next {
                Some('+') => {
                    self.advance();
                    Ok(Token::PlusPlus)
                },
                Some('=') => {
                    self.advance();
                    Ok(Token::PlusAssign)
                },
                _ => Ok(Token::Plus),
            }
        } else if c == '-' {
            match next {
                Some('-') => {
                    self.advance();
                    Ok(Token::MinusMinus)
                },
                Some('=') => {
                    self.advance();
                    Ok(Token::MinusAssign)
                },
                _ => Ok(Token::Minus),
            }
        } else if c == '*' {
            if next == Some('=') {
                self.advance();
                Ok(Token::StarAssign)
            } else {
                Ok(Token::Star)
            }
        } else if c == '/' {
            if next == Some('=') {
                self.advance();
                Ok(Token::SlashAssign)
            } else {
                Ok(Token::Slash)
            }
        } else if c == '%' {
            Ok(Token::Percent)
        } else if c == '=' {
            if next == Some('=') {
                self.advance();
                Ok(Token::Eq)
            } else {
                Ok(Token::Assign)
            }
        } else if c == '!' {
            if next == Some('=') {
                self.advance();
                Ok(Token::NotEq)
            } else {
                Err(LexError::UnexpectedBang)
            }
        } else if c == '<' {
            if next == Some('=') {
                self.advance();
                Ok(Token::LtEq)
            } else {
                Ok(Token::Lt)
            }
        } else if c == '>' {
            if next == Some('=') {
                self.advance();
                Ok(Token::GtEq)
            } else {
                Ok(Token::Gt)
            }
        } else if c == ':' {
            Ok(Token::Colon)
        } else if c == ';' {
            Ok(Token::Semicolon)
        } else if c == ',' {
            Ok(Token::Comma)
        } else if c == '.' {
            Ok(Token::Dot)
        } else if c == '(' {
            Ok(Token::LParen)
        } else if c == ')' {
            Ok(Token::RParen)
        } else if c == '[' {
            Ok(Token::LBracket)
        } else if c == ']' {
            Ok(Token::RBracket)
        } else {
            Err(LexError::UnexpectedChar(c))
        }
    }

    /// Reads the next token, or says why the text cannot be lexed there.
    ///
    /// Whitespace and `//` comments before the token are skipped.  At the end
    /// of the text the token is `Eof`, and later calls give `Eof` again
    /// without moving (`law_end_is_final`).
    pub fn try_next_token(&mut self) -> (r: Result<Token, LexError>)
        ensures
            final(self)@.chars == old(self)@.chars,
            match lex_step(old(self)@.chars, old(self)@.pos) {
                Ok((l, k)) => r matches Ok(t) && denotes(t, l) && final(self)@.pos == k,
                Err(e) => r == Err::<Token, LexError>(e),
            },
        decreases old(self)@.chars.len() + 1 - old(self)@.pos,
    {
        proof {
            use_type_invariant(&*self);
        }
        let ghost i = self@.pos;
        self.skip_whitespace();
        proof {
            lemma_skip_whitespace_bounds(self@.chars, i);
        }
        match self.current() {
            None => Ok(Token::Eof),
            Some(c) => {
                let next = self.peek();
                if c == '/' && next == Some('/') {
                    let ghost j = self@.pos;
                    self.skip_line_comment();
                    proof {
                        lemma_line_end_bounds(self@.chars, j);
                    }
                    self.try_next_token()
                } else if char_is_alphabetic(c) || c == '_' {
                    Ok(self.read_identifier())
                } else if char_is_ascii_digit(c) {
                    if self.number_fits() {
                        Ok(self.read_number())
                    } else {
                        Err(LexError::IntegerOverflow)
                    }
                } else if c == '"' {
                    Ok(self.read_string())
                } else {
                    self.read_symbol(c)
                }
            },
        }
    }

    /// Reads the next token; the text from the position reached must lex.
    pub fn next_token(&mut self) -> (t: Token)
        requires
            lex_step(old(self)@.chars, old(self)@.pos) is Ok,
        ensures
            final(self)@.chars == old(self)@.chars,
            lex_step(old(self)@.chars, old(self)@.pos) matches Ok((l, k)) && denotes(t, l)
                && final(self)@.pos == k,
    {
        match self.try_next_token() {
            Ok(t) => t,
            Err(_) => {
                proof {
                    assert(false);
                }
                Token::Eof
            },
        }
    }

    /// Reads all tokens to the end of the text, the last of them `Eof`; or
    /// says why the text cannot be lexed.
    pub fn try_tokenize(&mut self) -> (r: Result<Vec<Token>, LexError>)
        ensures
            final(self)@.chars == old(self)@.chars,
            match lex_all(old(self)@.chars, old(self)@.pos) {
                Ok((ls, e)) => r matches Ok(ts) && ts@.len() == ls.len() && (forall|k: int|
                    0 <= k < ls.len() ==> denotes(#[trigger] ts@[k], ls[k]))
                    && final(self)@.pos == e,
                Err(e) => r == Err::<Vec<Token>, LexError>(e),
            },
    {
        proof {
            use_type_invariant(&*self);
        }
        let ghost s = self@.chars;
        let ghost start = self@.pos;
        let ghost mut done: Seq<Lexeme> = Seq::empty();
        let mut tokens: Vec<Token> = Vec::new();
        proof {
            if let Ok((r, e)) = lex_all(s, start) {
                assert(done.add(r) =~= r);
            }
        }
        loop
            invariant
                self@.chars == s,
                s == old(self)@.chars,
                start == old(self)@.pos,
                self@.pos <= s.len() + 1,
                tokens@.len() == done.len(),
                forall|k: int| 0 <= k < done.len() ==> denotes(#[trigger] tokens@[k], done[k]),
                lex_all(s, start) == match lex_all(s, self@.pos) {
                    Ok((rest, e)) => Ok((done.add(rest), e)),
                    Err(e) => Err::<(Seq<Lexeme>, nat), LexError>(e),
                },
            decreases s.len() + 1 - self@.pos,
        {
            let ghost i = self@.pos;
            proof {
                lemma_lex_step_progress(s, i);
            }
            let r = self.try_next_token();
            match r {
                Err(e) => {
                    return Err(e);
                },
                Ok(tok) => {
                    proof {
                        lemma_eof_iff_end(s, i, tok);
                    }
                    let finished = matches!(tok, Token::Eof);
                    let ghost before = tokens@;
                    tokens.push(tok);
                    proof {
                        let (l, k) = lex_step(s, i).unwrap();
                        let old_done = done;
                        done = done.push(l);
                        assert forall|m: int| 0 <= m < done.len() implies denotes(
                            #[trigger] tokens@[m],
                            done[m],
                        ) by {
                            if m < old_done.len() {
                                assert(tokens@[m] == before[m]);
                            }
                        }
                        if !(l is End) {
                            if let Ok((rest, e)) = lex_all(s, k) {
                                assert(old_done.add(seq![l].add(rest)) =~= done.add(rest));
                            }
                        } else {
                            assert(old_done.add(seq![l]) =~= done);
                        }
                    }
                    if finished {
                        return Ok(tokens);
                    }
                },
            }
        }
    }

    /// Reads all tokens to the end of the text, the last of them `Eof`; the
    /// whole text from the position reached must lex.
    pub fn tokenize(&mut self) -> (ts: Vec<Token>)
        requires
            lex_all(old(self)@.chars, old(self)@.pos) is Ok,
        ensures
            final(self)@.chars == old(self)@.chars,
            lex_all(old(self)@.chars, old(self)@.pos) matches Ok((ls, e)) && ts@.len() == ls.len()
                && (forall|k: int| 0 <= k < ls.len() ==> denotes(#[trigger] ts@[k], ls[k]))
                && final(self)@.pos == e,
            old(self)@.chars.len() <= final(self)@.pos <= old(self)@.chars.len() + 1,
            ts@.len() >= 1,
            ts@.last() == Token::Eof,
            forall|k: int| 0 <= k < ts@.len() - 1 ==> #[trigger] ts@[k] != Token::Eof,
    {
        proof {
            use_type_invariant(&*self);
            lemma_lex_all_ends_once(old(self)@.chars, old(self)@.pos);
        }
        match self.try_tokenize() {
            Ok(ts) => {
                proof {
                    let ls = lex_all(old(self)@.chars, old(self)@.pos)->Ok_0.0;
                    assert forall|k: int| 0 <= k < ts@.len() - 1 implies #[trigger] ts@[k] != Token::Eof by {
                        assert(denotes(ts@[k], ls[k]));
                        assert(!reads_as_eof(ls[k]));
                    }
                    assert(denotes(ts@[ts@.len() - 1], ls[ls.len() - 1]));
                }
                ts
            },
            Err(_) => {
                proof {
                    assert(false);
                }
                Vec::new()
            },
        }
    }
}

/// The token for a word: its keyword if it spells one, else an identifier
/// that holds `ident`.
fn keyword_or_identifier(word: &Vec<char>, ident: String) -> (t: Token)
    requires
        ident@ == word@,
    ensures
        denotes(t, Lexeme::Word(word@)),
{
    if chars_match_str(word, "main") {
        Token::Main
    } else if chars_match_str(word, "func") {
        Token::Func
    } else if chars_match_str(word, "let") {
        Token::Let
    } else if chars_match_str(word, "const") {
        Token::Const
    } else if chars_match_str(word, "export") {
        Token::Export
    } else if chars_match_str(word, "use") {
        Token::Use
    } else if chars_match_str(word, "struct") {
        Token::Struct
    } else if chars_match_str(word, "return") {
        Token::Return
    } else if chars_match_str(word, "if") {
        Token::If
    } else if chars_match_str(word, "else") {
        Token::Else
    } else if chars_match_str(word, "then") {
        Token::Then
    } else if chars_match_str(word, "end") {
        Token::End
    } else if chars_match_str(word, "while") {
        Token::While
    } else if chars_match_str(word, "for") {
        Token::For
    } else if chars_match_str(word, "loop") {
        Token::Loop
    } else if chars_match_str(word, "break") {
        Token::Break
    } else if chars_match_str(word, "continue") {
        Token::Continue
    } else if chars_match_str(word, "and") {
        Token::And
    } else if chars_match_str(word, "or") {
        Token::Or
    } else if chars_match_str(word, "not") {
        Token::Not
    } else if chars_match_str(word, "true") {
        Token::Bool(true)
    } else if chars_match_str(word, "false") {
        Token::Bool(false)
    } else if chars_match_str(word, "int") {
        Token::TypeInt
    } else if chars_match_str(word, "float") {
        Token::TypeFloat
    } else if chars_match_str(word, "bool") {
        Token::TypeBool
    } else if chars_match_str(word, "string") {
        Token::TypeString
    } else if chars_match_str(word, "byte") {
        Token::TypeByte
    } else if chars_match_str(word, "ptr") {
        Token::TypePtr
    } else {
        Token::Identifier(ident)
    }
}

/// Every character of `d` is an ASCII digit.
pub open spec fn all_digits(d: Seq<char>) -> bool {
    forall|k: int| 0 <= k < d.len() ==> is_ascii_digit(#[trigger] d[k])
}

pub proof fn lemma_decimal_value_grows(d: Seq<char>, k: nat)
    requires
        all_digits(d),
        k <= d.len(),
    ensures
        0 <= decimal_value(d.take(k as int)) <= decimal_value(d),
    decreases d.len(),
{
    if d.len() > 0 {
        let p = d.drop_last();
        assert(all_digits(p)) by {
            assert forall|m: int| 0 <= m < p.len() implies is_ascii_digit(#[trigger] p[m]) by {
                assert(p[m] == d[m]);
            }
        }
        assert(is_ascii_digit(d[d.len() - 1]));
        if k < d.len() {
            lemma_decimal_value_grows(p, k);
            assert(p.take(k as int) =~= d.take(k as int));
        } else {
            lemma_decimal_value_grows(p, 0);
            assert(d.take(k as int) =~= d);
        }
    } else {
        assert(d.take(k as int) =~= d);
    }
}

/// The value of a sequence of digits, if it fits in an `i64`.
fn decimal_of(digits: &Vec<char>) -> (r: Option<i64>)
    requires
        all_digits(digits@),
    ensures
        match r {
            Some(v) => v as int == decimal_value(digits@),
            None => decimal_value(digits@) > i64::MAX,
        },
{
    let mut v: i64 = 0;
    let mut i: usize = 0;
    assert(digits@.take(0) =~= Seq::<char>::empty());
    while i < digits.len()
        invariant
            all_digits(digits@),
            i <= digits@.len(),
            0 <= v,
            v as int == decimal_value(digits@.take(i as int)),
        decreases digits@.len() - i,
    {
        let c = digits[i];
        assert(is_ascii_digit(digits@[i as int]));
        let d = (c as u32 - '0' as u32) as i128;
        assert(d == c as int - '0' as int);
        let w: i128 = (v as i128) * 10 + d;
        assert(digits@.take(i + 1).drop_last() =~= digits@.take(i as int));
        assert(digits@.take(i + 1).last() == c);
        assert(decimal_value(digits@.take(i + 1)) == decimal_value(digits@.take(i as int)) * 10 + (c as int - '0' as int));
        if w > i64::MAX as i128 {
            proof {
                lemma_decimal_value_grows(digits@, (i + 1) as nat);
            }
            return None;
        }
        v = w as i64;
        i = i + 1;
    }
    assert(digits@.take(i as int) =~= digits@);
    Some(v)
}


pub proof fn lemma_ident_end_bounds(s: Seq<char>, i: nat)
    ensures
        ident_end(s, i) >= i,
        i <= s.len() ==> ident_end(s, i) <= s.len(),
    decreases s.len() - i,
{
    if i < s.len() && is_ident_char(s[i as int]) {
        lemma_ident_end_bounds(s, i + 1);
    }
}

pub proof fn lemma_number_end_bounds(s: Seq<char>, i: nat, seen_dot: bool)
    ensures
        number_end(s, i, seen_dot) >= i,
        i <= s.len() ==> number_end(s, i, seen_dot) <= s.len(),
    decreases s.len() - i,
{
    if i < s.len() && is_ascii_digit(s[i as int]) {
        lemma_number_end_bounds(s, i + 1, seen_dot);
    } else if i < s.len() && s[i as int] == '.' && !seen_dot {
        lemma_number_end_bounds(s, i + 1, true);
    }
}

/// Every step of the lexer that does not reach the end of the text moves
/// forward, and no step moves past the end of the text.
pub proof fn lemma_lex_step_progress(s: Seq<char>, i: nat)
    ensures
        lex_step(s, i) matches Ok((l, k)) ==> {
            &&& k >= i
            &&& i <= s.len() + 1 ==> k <= s.len() + 1
            &&& l is End ==> k >= s.len()
            &&& !(l is End) ==> k > i
        },
    decreases s.len() + 1 - i,
{
    let j = skip_whitespace_from(s, i);
    lemma_skip_whitespace_bounds(s, i);
    if j < s.len() {
        let c = s[j as int];
        let next = char_at(s, j + 1int);
        if c == '/' && next == Some('/') {
            lemma_line_end_bounds(s, j);
            lemma_lex_step_progress(s, line_end(s, j));
        } else if is_ident_start(c) {
            lemma_ident_end_bounds(s, j + 1);
        } else if is_ascii_digit(c) {
            lemma_number_end_bounds(s, j + 1, false);
        } else if c == '"' {
            lemma_quote_end_bounds(s, j + 1);
        }
    }
}

/// The lexemes read from position `i` to the end of the text, the last of
/// them `End`, and the position where the lexer stops; or the first reason
/// the text cannot be lexed.
pub open spec fn lex_all(s: Seq<char>, i: nat) -> Result<(Seq<Lexeme>, nat), LexError>
    decreases s.len() + 1 - i,
{
    match lex_step(s, i) {
        Err(e) => Err(e),
        Ok((l, k)) => {
            if l is End {
                Ok((seq![l], k))
            } else {
                proof {
                    lemma_lex_step_progress(s, i);
                }
                match lex_all(s, k) {
                    Ok((rest, e)) => Ok((seq![l].add(rest), e)),
                    Err(e) => Err(e),
                }
            }
        },
    }
}

/// No operator or punctuation token is `Eof`.
pub proof fn lemma_symbol_step_not_eof(c: char, next: Option<char>, j: nat)
    ensures
        symbol_step(c, next, j) matches Ok((l, k)) ==> (l matches Lexeme::Symbol(t) && t != Token::Eof),
{
}

/// A token read by the lexer is `Eof` exactly when the lexeme is the end of
/// the text.
pub proof fn lemma_eof_iff_end(s: Seq<char>, i: nat, t: Token)
    requires
        lex_step(s, i) matches Ok((l, k)) && denotes(t, l),
    ensures
        lex_step(s, i) matches Ok((l, k)) && ((t is Eof) <==> (l is End)),
    decreases s.len() + 1 - i,
{
    let j = skip_whitespace_from(s, i);
    lemma_skip_whitespace_bounds(s, i);
    if j < s.len() {
        let c = s[j as int];
        let next = char_at(s, j + 1int);
        if c == '/' && next == Some('/') {
            lemma_line_end_bounds(s, j);
            lemma_eof_iff_end(s, line_end(s, j), t);
        } else if !is_ident_start(c) && !is_ascii_digit(c) && c != '"' {
            lemma_symbol_step_not_eof(c, next, j);
        }
    }
}


/// A lexeme that reads as `Eof`: the end of the text, and nothing else.
pub open spec fn reads_as_eof(l: Lexeme) -> bool {
    l is End || l == Lexeme::Symbol(Token::Eof)
}

pub proof fn lemma_step_not_symbol_eof(s: Seq<char>, i: nat)
    ensures
        lex_step(s, i) matches Ok((l, k)) ==> l != Lexeme::Symbol(Token::Eof),
    decreases s.len() + 1 - i,
{
    let j = skip_whitespace_from(s, i);
    lemma_skip_whitespace_bounds(s, i);
    if j < s.len() {
        let c = s[j as int];
        let next = char_at(s, j + 1int);
        if c == '/' && next == Some('/') {
            lemma_line_end_bounds(s, j);
            lemma_step_not_symbol_eof(s, line_end(s, j));
        } else if !is_ident_start(c) && !is_ascii_digit(c) && c != '"' {
            lemma_symbol_step_not_eof(c, next, j);
        }
    }
}

/// The lexemes of a text end with the end of the text, and nothing before
/// it reads as `Eof`.
pub proof fn lemma_lex_all_ends_once(s: Seq<char>, i: nat)
    ensures
        lex_all(s, i) matches Ok((ls, e)) ==> {
            &&& ls.len() >= 1
            &&& ls.last() is End
            &&& forall|k: int| 0 <= k < ls.len() - 1 ==> !reads_as_eof(#[trigger] ls[k])
            &&& i <= s.len() + 1 ==> s.len() <= e <= s.len() + 1
        },
    decreases s.len() + 1 - i,
{
    lemma_lex_step_progress(s, i);
    lemma_step_not_symbol_eof(s, i);
    if let Ok((l, k)) = lex_step(s, i) {
        if !(l is End) {
            lemma_lex_all_ends_once(s, k);
            if let Ok((rest, e)) = lex_all(s, k) {
                let ls = seq![l].add(rest);
                assert forall|m: int| 0 <= m < ls.len() - 1 implies !reads_as_eof(#[trigger] ls[m]) by {
                    if m > 0 {
                        assert(ls[m] == rest[m - 1]);
                    }
                }
            }
        }
    }
}

/// Once the lexer has reached the end of the text it stays there: the next
/// step from that position reads the end of the text again.
pub proof fn law_end_is_final(s: Seq<char>, i: nat)
    requires
        lex_step(s, i) matches Ok((l, k)) && l is End,
    ensures
        lex_step(s, i) matches Ok((l, k)) && lex_step(s, k) == Ok::<(Lexeme, nat), LexError>((Lexeme::End, k)),
    decreases s.len() + 1 - i,
{
    let j = skip_whitespace_from(s, i);
    lemma_skip_whitespace_bounds(s, i);
    if j < s.len() {
        lemma_line_end_bounds(s, j);
        law_end_is_final(s, line_end(s, j));
    } else {
        let k = j;
        assert(skip_whitespace_from(s, k) == k);
    }
}

pub proof fn lemma_skip_whitespace_inside(s: Seq<char>, i: nat, j: nat)
    requires
        i <= j <= skip_whitespace_from(s, i),
    ensures
        skip_whitespace_from(s, j) == skip_whitespace_from(s, i),
    decreases j - i,
{
    if i < j {
        lemma_skip_whitespace_bounds(s, i);
        assert(i < s.len() && is_space(s[i as int]));
        lemma_skip_whitespace_inside(s, i + 1, j);
    }
}

/// Whitespace before a token does not matter: lexing from any position in a
/// run of whitespace reads the same lexeme, ending at the same place.
pub proof fn law_whitespace_skipped(s: Seq<char>, i: nat, j: nat)
    requires
        i <= j <= skip_whitespace_from(s, i),
    ensures
        lex_step(s, j) == lex_step(s, i),
{
    lemma_skip_whitespace_inside(s, i, j);
}

pub proof fn lemma_line_end_shape(s: Seq<char>, j: nat)
    requires
        j <= s.len(),
    ensures
        forall|k: int| j <= k < line_end(s, j) - 1 ==> s[k] != '\n',
        line_end(s, j) == s.len() + 1 || (line_end(s, j) > j && s[line_end(s, j) - 1] == '\n'),
    decreases s.len() - j,
{
    lemma_line_end_bounds(s, j);
    if j < s.len() && s[j as int] != '\n' {
        lemma_line_end_shape(s, j + 1);
    }
}

/// A `//` comment runs to the end of its line and yields no token: lexing
/// from before it reads what follows the comment's newline (or the end of the
/// text, one past its last character, when the comment is on the last line).
pub proof fn law_comment_runs_to_line_end(s: Seq<char>, i: nat)
    requires
        skip_whitespace_from(s, i) + 1 < s.len(),
        s[skip_whitespace_from(s, i) as int] == '/',
        s[skip_whitespace_from(s, i) + 1int] == '/',
    ensures
        ({
            let j = skip_whitespace_from(s, i);
            let e = line_end(s, j);
            &&& lex_step(s, i) == lex_step(s, e)
            &&& forall|k: int| j <= k < e - 1 ==> s[k] != '\n'
            &&& e == s.len() + 1 || s[e - 1] == '\n'
        }),
{
    let j = skip_whitespace_from(s, i);
    lemma_line_end_shape(s, j);
}

/// Keywords are reserved: a word that spells a keyword (such as `and`, `or`,
/// `not`, `true` or a type name) never reads as an identifier.
pub proof fn law_keywords_are_reserved(t: Token, w: Seq<char>)
    requires
        keyword_token(w) is Some,
        denotes(t, Lexeme::Word(w)),
    ensures
        !(t is Identifier),
        t == keyword_token(w)->Some_0,
{
}


/// The first position at or after `i` that is neither whitespace nor inside a
/// `//` comment; one past the end of the text when a comment on the last line
/// runs to the end.
pub open spec fn skip_blank(s: Seq<char>, i: nat) -> nat
    decreases s.len() + 1 - i,
{
    let j = skip_whitespace_from(s, i);
    if j < s.len() && s[j as int] == '/' && char_at(s, j + 1int) == Some('/') {
        proof {
            lemma_skip_whitespace_bounds(s, i);
            lemma_line_end_bounds(s, j);
        }
        skip_blank(s, line_end(s, j))
    } else {
        j
    }
}

/// The text from position `i` on holds only whitespace and `//` comments.
pub open spec fn rest_is_blank(s: Seq<char>, i: nat) -> bool {
    skip_blank(s, i) >= s.len()
}

/// A lexer's result, or its position, moved `n` places further on.
pub open spec fn shifted<A>(r: Result<(A, nat), LexError>, n: nat) -> Result<(A, nat), LexError> {
    match r {
        Ok((a, k)) => Ok((a, k + n)),
        Err(e) => Err(e),
    }
}

/// The position reached after `n` steps of the lexer from `i`; the steps
/// stop at the first error.
pub open spec fn pos_after(s: Seq<char>, i: nat, n: nat) -> nat
    decreases n,
{
    if n == 0 {
        i
    } else {
        match lex_step(s, i) {
            Ok((l, k)) => pos_after(s, k, (n - 1) as nat),
            Err(e) => i,
        }
    }
}

pub proof fn lemma_skip_blank_bounds(s: Seq<char>, i: nat)
    ensures
        skip_blank(s, i) >= i,
        lex_step(s, skip_blank(s, i)) == lex_step(s, i),
        skip_whitespace_from(s, skip_blank(s, i)) == skip_blank(s, i),
        skip_blank(s, i) < s.len() ==> !(s[skip_blank(s, i) as int] == '/' && char_at(
            s,
            skip_blank(s, i) + 1int,
        ) == Some('/')),
    decreases s.len() + 1 - i,
{
    let j = skip_whitespace_from(s, i);
    lemma_skip_whitespace_bounds(s, i);
    lemma_skip_whitespace_inside(s, i, j);
    if j < s.len() && s[j as int] == '/' && char_at(s, j + 1int) == Some('/') {
        lemma_line_end_bounds(s, j);
        lemma_skip_blank_bounds(s, line_end(s, j));
    } else {
        law_whitespace_skipped(s, i, j);
    }
}

/// The lexer reaches the end of the text exactly when only whitespace and
/// comments remain; then the token it returns is `Eof`, and otherwise the
/// token it returns is not `Eof`.
pub proof fn law_eof_iff_blank(s: Seq<char>, i: nat, t: Token)
    ensures
        rest_is_blank(s, i) ==> (lex_step(s, i) matches Ok((l, k)) && l is End),
        (lex_step(s, i) matches Ok((l, k)) && l is End) ==> rest_is_blank(s, i),
        (lex_step(s, i) matches Ok((l, k)) && denotes(t, l)) ==> ((t is Eof) <==> rest_is_blank(s, i)),
{
    lemma_skip_blank_bounds(s, i);
    if lex_step(s, i) matches Ok((l, k)) && denotes(t, l) {
        lemma_eof_iff_end(s, i, t);
    }
}

/// Reading all tokens is reading one token at a time until the end of the
/// text: the `n`-th lexeme that `lex_all` gives is the one that the `n`-th
/// step reads, from where the steps before it left off; and `lex_all` ends
/// where its last step does.  On an error, the steps before it succeed and
/// the step at which it comes gives that error.
pub proof fn law_all_is_repeated_steps(s: Seq<char>, i: nat)
    ensures
        lex_all(s, i) matches Ok((ls, e)) ==> {
            &&& forall|n: nat| n < ls.len() ==> lex_step(s, #[trigger] pos_after(s, i, n)) == Ok::<
                (Lexeme, nat),
                LexError,
            >((ls[n as int], pos_after(s, i, n + 1)))
            &&& e == pos_after(s, i, ls.len())
        },
        lex_all(s, i) matches Err(x) ==> exists|m: nat|
            {
                &&& forall|n: nat| n < m ==> (lex_step(s, #[trigger] pos_after(s, i, n)) matches Ok((l, k))
                    && !(l is End))
                &&& lex_step(s, pos_after(s, i, m)) == Err::<(Lexeme, nat), LexError>(x)
            },
    decreases s.len() + 1 - i,
{
    match lex_step(s, i) {
        Err(x) => {
            assert(pos_after(s, i, 0) == i);
            assert(forall|n: nat| n < 0nat ==> (lex_step(s, #[trigger] pos_after(s, i, n)) matches Ok((l, k))
                && !(l is End)));
        },
        Ok((l, k)) => {
            assert(pos_after(s, i, 1) == pos_after(s, k, 0));
            if !(l is End) {
                lemma_lex_step_progress(s, i);
                law_all_is_repeated_steps(s, k);
                assert forall|n: nat| n > 0 implies #[trigger] pos_after(s, i, n) == pos_after(
                    s,
                    k,
                    (n - 1) as nat,
                ) by {}
                if let Ok((rest, e)) = lex_all(s, k) {
                    let ls = seq![l].add(rest);
                    assert forall|n: nat| n < ls.len() implies lex_step(s, #[trigger] pos_after(s, i, n))
                        == Ok::<(Lexeme, nat), LexError>((ls[n as int], pos_after(s, i, n + 1))) by {
                        if n > 0 {
                            assert(ls[n as int] == rest[n - 1]);
                            assert(pos_after(s, i, n + 1) == pos_after(s, k, n));
                            assert(pos_after(s, i, n) == pos_after(s, k, (n - 1) as nat));
                        }
                    }
                    assert(pos_after(s, i, ls.len()) == pos_after(s, k, rest.len()));
                }
                if let Err(x) = lex_all(s, k) {
                    let m0 = choose|m: nat|
                        {
                            &&& forall|n: nat| n < m ==> (lex_step(s, #[trigger] pos_after(s, k, n)) matches Ok((l, k))
                                && !(l is End))
                            &&& lex_step(s, pos_after(s, k, m)) == Err::<(Lexeme, nat), LexError>(x)
                        };
                    assert(pos_after(s, i, m0 + 1) == pos_after(s, k, m0));
                    assert forall|n: nat| n < m0 + 1 implies (lex_step(s, #[trigger] pos_after(s, i, n)) matches Ok((l2, k2))
                        && !(l2 is End)) by {
                        if n > 0 {
                            assert(pos_after(s, i, n) == pos_after(s, k, (n - 1) as nat));
                        }
                    }
                }
            } else {
                assert(pos_after(s, i, 1) == k);
            }
        },
    }
}


pub proof fn lemma_shift_runs(w: Seq<char>, s: Seq<char>, i: nat, seen_dot: bool)
    ensures
        skip_whitespace_from(w + s, w.len() + i) == w.len() + skip_whitespace_from(s, i),
        ident_end(w + s, w.len() + i) == w.len() + ident_end(s, i),
        number_end(w + s, w.len() + i, seen_dot) == w.len() + number_end(s, i, seen_dot),
        quote_end(w + s, w.len() + i) == w.len() + quote_end(s, i),
        line_end(w + s, w.len() + i) == w.len() + line_end(s, i),
    decreases s.len() - i,
{
    let u = w + s;
    if i < s.len() {
        assert(u[(w.len() + i) as int] == s[i as int]);
        lemma_shift_runs(w, s, i + 1, seen_dot);
        lemma_shift_runs(w, s, i + 1, true);
    }
}

/// Each step of the lexer reads the same in a text with more in front of
/// it, at a position moved on by the length of what was put in front.
pub proof fn lemma_shift_step(w: Seq<char>, s: Seq<char>, i: nat)
    ensures
        lex_step(w + s, w.len() + i) == shifted(lex_step(s, i), w.len()),
    decreases s.len() + 1 - i,
{
    let u = w + s;
    let n = w.len();
    lemma_shift_runs(w, s, i, false);
    lemma_skip_whitespace_bounds(s, i);
    let j = skip_whitespace_from(s, i);
    if j < s.len() {
        assert(u[(n + j) as int] == s[j as int]);
        assert(char_at(u, n + j + 1int) == char_at(s, j + 1int));
        let c = s[j as int];
        let next = char_at(s, j + 1int);
        if c == '/' && next == Some('/') {
            lemma_shift_runs(w, s, j, false);
            lemma_line_end_bounds(s, j);
            lemma_shift_step(w, s, line_end(s, j));
        } else if is_ident_start(c) {
            lemma_shift_runs(w, s, j + 1, false);
            let k = ident_end(s, j + 1);
            lemma_ident_end_bounds(s, j + 1);
            assert(u.subrange((n + j) as int, (n + k) as int) =~= s.subrange(j as int, k as int));
        } else if is_ascii_digit(c) {
            lemma_shift_runs(w, s, j, false);
            let k = number_end(s, j, false);
            lemma_number_end_bounds(s, j, false);
            assert(u.subrange((n + j) as int, (n + k) as int) =~= s.subrange(j as int, k as int));
        } else if c == '"' {
            lemma_shift_runs(w, s, j + 1, false);
            let e = quote_end(s, j + 1);
            lemma_quote_end_bounds(s, j + 1);
            assert(u.subrange((n + j + 1) as int, (n + e) as int) =~= s.subrange(j + 1int, e as int));
        }
    }
}

pub proof fn lemma_shift_all(w: Seq<char>, s: Seq<char>, i: nat)
    ensures
        lex_all(w + s, w.len() + i) == shifted(lex_all(s, i), w.len()),
    decreases s.len() + 1 - i,
{
    lemma_shift_step(w, s, i);
    if let Ok((l, k)) = lex_step(s, i) {
        if !(l is End) {
            lemma_lex_step_progress(s, i);
            lemma_lex_step_progress(w + s, w.len() + i);
            lemma_shift_all(w, s, k);
        }
    }
}

/// Inside a text, a prefix that holds only whitespace and whole comment
/// lines is skipped up to where it ends, and past that as the rest demands.
pub proof fn lemma_blank_prefix(w: Seq<char>, s: Seq<char>, i: nat)
    requires
        i <= w.len(),
        skip_blank(w, i) == w.len(),
    ensures
        skip_blank(w + s, i) == skip_blank(w + s, w.len()),
    decreases w.len() + 1 - i,
{
    let u = w + s;
    lemma_prefix_whitespace(w, s, i);
    lemma_skip_whitespace_bounds(w, i);
    let j = skip_whitespace_from(w, i);
    if j < w.len() {
        assert(u[j as int] == w[j as int]);
        assert(char_at(u, j + 1int) == char_at(w, j + 1int));
        lemma_line_end_bounds(w, j);
        lemma_skip_blank_bounds(w, line_end(w, j));
        lemma_prefix_line_end(w, s, j);
        lemma_blank_prefix(w, s, line_end(w, j));
    }
}

pub proof fn lemma_prefix_whitespace(w: Seq<char>, s: Seq<char>, i: nat)
    requires
        i <= w.len(),
    ensures
        skip_whitespace_from(w, i) < w.len() ==> skip_whitespace_from(w + s, i) == skip_whitespace_from(w, i),
        skip_whitespace_from(w, i) >= w.len() ==> skip_whitespace_from(w + s, i) == skip_whitespace_from(w + s, w.len()),
    decreases w.len() - i,
{
    if i < w.len() {
        assert((w + s)[i as int] == w[i as int]);
        if is_space(w[i as int]) {
            lemma_prefix_whitespace(w, s, i + 1);
        }
    }
}

pub proof fn lemma_prefix_line_end(w: Seq<char>, s: Seq<char>, j: nat)
    requires
        j <= w.len(),
        line_end(w, j) <= w.len(),
    ensures
        line_end(w + s, j) == line_end(w, j),
    decreases w.len() - j,
{
    if j < w.len() {
        assert((w + s)[j as int] == w[j as int]);
        if w[j as int] != '\n' {
            lemma_prefix_line_end(w, s, j + 1);
        }
    }
}

/// Whitespace and whole comment lines put in front of a text do not change
/// its tokens: lexing the longer text gives the same lexemes, or the same
/// error, and ends as many places later as were put in front.
pub proof fn law_blank_prefix_keeps_tokens(w: Seq<char>, s: Seq<char>)
    requires
        skip_blank(w, 0) == w.len(),
    ensures
        lex_all(w + s, 0) == shifted(lex_all(s, 0), w.len()),
{
    let u = w + s;
    lemma_blank_prefix(w, s, 0);
    lemma_skip_blank_bounds(u, 0);
    lemma_skip_blank_bounds(u, w.len());
    lemma_shift_all(w, s, 0);
    assert(w.len() + 0nat == w.len());
    lemma_all_from_step(u, 0, skip_blank(u, 0));
    lemma_all_from_step(u, w.len(), skip_blank(u, w.len()));
}

pub proof fn lemma_all_from_step(s: Seq<char>, i: nat, j: nat)
    requires
        lex_step(s, i) == lex_step(s, j),
    ensures
        lex_all(s, i) == lex_all(s, j),
{
    lemma_lex_step_progress(s, i);
    lemma_lex_step_progress(s, j);
}

} // verus!
