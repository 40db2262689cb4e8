//! The lexer: turns source text into tokens, one at a time.
use vstd::prelude::*;
use crate::text::{
    byte_chars, char_bytes, byte_chars_of, bytes_of_chars, string_from_utf8, lemma_char_bytes_byte_chars, push_char,
    string_from_chars,
};
use vstd::utf8::{
    valid_utf8, encode_utf8, decode_utf8, pop_first_scalar, valid_utf8_split, is_char_boundary_iff_is_leading_byte,
    encode_utf8_valid_utf8, encode_utf8_decode_utf8,
};
use crate::token::{Token, TokenType, lookup_ident, spec_lookup_ident};

verus! {

/// The character at `i`, or NUL past the end of the input.
pub open spec fn char_at(input: Seq<char>, i: int) -> char {
    if 0 <= i < input.len() { input[i] } else { '\0' }
}

pub open spec fn is_whitespace(c: char) -> bool {
    c == ' ' || c == '\t' || c == '\n' || c == '\r'
}

/// Letters that may start or continue an identifier.
pub open spec fn is_letter_char(c: char) -> bool {
    ('a' <= c && c <= 'z') || ('A' <= c && c <= 'Z') || c == '_'
}

pub open spec fn is_digit_char(c: char) -> bool {
    '0' <= c && c <= '9'
}

/// A position clamped to the end of the input.
pub open spec fn clamp(input: Seq<char>, q: int) -> int {
    if q > input.len() { input.len() as int } else { q }
}

/// The first position at or after `pos` that holds no whitespace.
pub open spec fn skip_ws(input: Seq<char>, pos: int) -> int
    decreases input.len() - pos,
{
    if 0 <= pos < input.len() && is_whitespace(input[pos]) {
        skip_ws(input, pos + 1)
    } else {
        pos
    }
}

/// The end of the run of identifier letters that starts at `pos`.
pub open spec fn letters_end(input: Seq<char>, pos: int) -> int
    decreases input.len() - pos,
{
    if 0 <= pos < input.len() && is_letter_char(input[pos]) {
        letters_end(input, pos + 1)
    } else {
        pos
    }
}

/// The end of the run of decimal digits that starts at `pos`.
pub open spec fn digits_end(input: Seq<char>, pos: int) -> int
    decreases input.len() - pos,
{
    if 0 <= pos < input.len() && is_digit_char(input[pos]) {
        digits_end(input, pos + 1)
    } else {
        pos
    }
}

/// The position of the first double quote at or after `pos`, or the end of the input.
pub open spec fn quote_end(input: Seq<char>, pos: int) -> int
    decreases input.len() - pos,
{
    if 0 <= pos < input.len() && input[pos] != '"' {
        quote_end(input, pos + 1)
    } else {
        pos
    }
}

/// The token kind of a character that forms a token by itself, if it does.
pub open spec fn single_char_kind(c: char) -> Option<TokenType> {
    if c == ':' { Some(TokenType::COLON) }
    else if c == ';' { Some(TokenType::SEMICOLON) }
    else if c == '(' { Some(TokenType::LPAREN) }
    else if c == ')' { Some(TokenType::RPAREN) }
    else if c == ',' { Some(TokenType::COMMA) }
    else if c == '+' { Some(TokenType::PLUS) }
    else if c == '{' { Some(TokenType::LBRACE) }
    else if c == '}' { Some(TokenType::RBRACE) }
    else if c == '-' { Some(TokenType::MINUS) }
    else if c == '/' { Some(TokenType::SLASH) }
    else if c == '*' { Some(TokenType::ASTERISK) }
    else if c == '<' { Some(TokenType::LT) }
    else if c == '>' { Some(TokenType::GT) }
    else if c == '[' { Some(TokenType::LBRACKET) }
    else if c == ']' { Some(TokenType::RBRACKET) }
    else { None }
}

/// The token read at `pos` (after skipping whitespace): its kind, its text,
/// and the position of the character that follows it.  The input holds the
/// source text's bytes, each as the character of the same number, so a
/// byte outside ASCII forms a token of its own; a string literal's text is
/// the text its bytes encode.
pub open spec fn spec_next_token(input: Seq<char>, pos: int) -> (TokenType, Seq<char>, int) {
    let p = skip_ws(input, pos);
    let c = char_at(input, p);
    if c == '"' {
        let e = quote_end(input, p + 1);
        (TokenType::STRING, decode_utf8(char_bytes(input.subrange(p + 1, e))), clamp(input, e + 1))
    } else if c == '=' {
        if char_at(input, p + 1) == '=' {
            (TokenType::EQ, "=="@, clamp(input, p + 2))
        } else {
            (TokenType::ASSIGN, "="@, clamp(input, p + 1))
        }
    } else if c == '!' {
        if char_at(input, p + 1) == '=' {
            (TokenType::NOTEQ, "!="@, clamp(input, p + 2))
        } else {
            (TokenType::BANG, "!"@, clamp(input, p + 1))
        }
    } else if single_char_kind(c) is Some {
        (single_char_kind(c).unwrap(), seq![c], clamp(input, p + 1))
    } else if c == '\0' {
        (TokenType::EOF, Seq::empty(), clamp(input, p + 1))
    } else if is_letter_char(c) {
        let e = letters_end(input, p);
        (spec_lookup_ident(input.subrange(p, e)), input.subrange(p, e), e)
    } else if is_digit_char(c) {
        let e = digits_end(input, p);
        (TokenType::INT, input.subrange(p, e), e)
    } else {
        (TokenType::ILLEGAL, seq![c], clamp(input, p + 1))
    }
}

pub proof fn lemma_skip_ws_bounds(input: Seq<char>, pos: int)
    requires 0 <= pos <= input.len(),
    ensures pos <= skip_ws(input, pos) <= input.len(),
    decreases input.len() - pos,
{
    if 0 <= pos < input.len() && is_whitespace(input[pos]) {
        lemma_skip_ws_bounds(input, pos + 1);
    }
}

pub proof fn lemma_letters_end_bounds(input: Seq<char>, pos: int)
    requires 0 <= pos <= input.len(),
    ensures pos <= letters_end(input, pos) <= input.len(),
    decreases input.len() - pos,
{
    if 0 <= pos < input.len() && is_letter_char(input[pos]) {
        lemma_letters_end_bounds(input, pos + 1);
    }
}

pub proof fn lemma_digits_end_bounds(input: Seq<char>, pos: int)
    requires 0 <= pos <= input.len(),
    ensures pos <= digits_end(input, pos) <= input.len(),
    decreases input.len() - pos,
{
    if 0 <= pos < input.len() && is_digit_char(input[pos]) {
        lemma_digits_end_bounds(input, pos + 1);
    }
}

pub proof fn lemma_quote_end_bounds(input: Seq<char>, pos: int)
    requires 0 <= pos <= input.len(),
    ensures pos <= quote_end(input, pos) <= input.len(),
    decreases input.len() - pos,
{
    if 0 <= pos < input.len() && input[pos] != '"' {
        lemma_quote_end_bounds(input, pos + 1);
    }
}

/// A token other than `EOF` always moves past at least one character, and no
/// token moves backwards or past the end of the input.
pub proof fn lemma_next_token_progress(input: Seq<char>, pos: int)
    requires
        0 <= pos <= input.len(),
    ensures
        pos <= spec_next_token(input, pos).2 <= input.len(),
        spec_next_token(input, pos).0 != TokenType::EOF ==> pos < spec_next_token(input, pos).2,
{
    let p = skip_ws(input, pos);
    lemma_skip_ws_bounds(input, pos);
    if p < input.len() {
        lemma_quote_end_bounds(input, p + 1);
        lemma_letters_end_bounds(input, p);
        lemma_digits_end_bounds(input, p);
        if is_letter_char(input[p]) {
            lemma_letters_end_bounds(input, p + 1);
            assert(letters_end(input, p) > p);
        }
        if is_digit_char(input[p]) {
            lemma_digits_end_bounds(input, p + 1);
            assert(digits_end(input, p) > p);
        }
    }
}

/// The bytes of a string literal, between its opening double quote at `q`
/// and its closing one at `e` (or the end), are valid UTF-8 when the whole
/// text is.
pub proof fn lemma_string_bytes_valid(b: Seq<u8>, q: int, e: int)
    requires
        valid_utf8(b),
        0 <= q < b.len(),
        b[q] == 34u8,
        q + 1 <= e <= b.len(),
        e == b.len() || b[e] == 34u8,
    ensures
        valid_utf8(b.subrange(q + 1, e)),
{
    is_char_boundary_iff_is_leading_byte(b, q);
    valid_utf8_split(b, q);
    let s = b.subrange(q, b.len() as int);
    assert(s[0] == 34u8);
    let t = pop_first_scalar(s);
    assert(t =~= b.subrange(q + 1, b.len() as int));
    if e < b.len() {
        let k = e - (q + 1);
        assert(t[k] == 34u8);
        is_char_boundary_iff_is_leading_byte(t, k);
        valid_utf8_split(t, k);
        assert(t.subrange(0, k) =~= b.subrange(q + 1, e));
    }
}

/// The run of identifier letters from `pos` ends at the first position that
/// holds no identifier letter.
pub proof fn lemma_letters_end_run(input: Seq<char>, pos: int)
    requires
        0 <= pos <= input.len(),
    ensures
        pos <= letters_end(input, pos) <= input.len(),
        forall|k: int| pos <= k < letters_end(input, pos) ==> is_letter_char(#[trigger] input[k]),
        letters_end(input, pos) == input.len() || !is_letter_char(input[letters_end(input, pos)]),
    decreases input.len() - pos,
{
    if 0 <= pos < input.len() && is_letter_char(input[pos]) {
        lemma_letters_end_run(input, pos + 1);
    }
}

/// An identifier is the longest run of ASCII letters and underscores: at a
/// letter or underscore the token read is that whole run (a keyword when
/// the run is one), and the character after it is neither a letter nor an
/// underscore.
pub proof fn law_identifier_token(input: Seq<char>, pos: int)
    requires
        0 <= pos < input.len(),
        ('a' <= input[pos] <= 'z') || ('A' <= input[pos] <= 'Z') || input[pos] == '_',
    ensures
        pos < spec_next_token(input, pos).2 <= input.len(),
        spec_next_token(input, pos).1 == input.subrange(pos, spec_next_token(input, pos).2),
        spec_next_token(input, pos).0 == spec_lookup_ident(spec_next_token(input, pos).1),
        forall|k: int|
            pos <= k < spec_next_token(input, pos).2 ==> ('a' <= #[trigger] input[k] <= 'z') || ('A' <= input[k]
                <= 'Z') || input[k] == '_',
        spec_next_token(input, pos).2 == input.len() || !(('a' <= input[spec_next_token(input, pos).2] <= 'z') || (
        'A' <= input[spec_next_token(input, pos).2] <= 'Z') || input[spec_next_token(input, pos).2] == '_'),
{
    assert(skip_ws(input, pos) == pos);
    assert(char_at(input, pos) == input[pos]);
    lemma_letters_end_run(input, pos);
    lemma_letters_end_run(input, pos + 1);
    assert(letters_end(input, pos) > pos);
}

/// The run of digits from `pos` ends at the first position that holds no
/// digit.
pub proof fn lemma_digits_end_run(input: Seq<char>, pos: int)
    requires
        0 <= pos <= input.len(),
    ensures
        pos <= digits_end(input, pos) <= input.len(),
        forall|k: int| pos <= k < digits_end(input, pos) ==> is_digit_char(#[trigger] input[k]),
        digits_end(input, pos) == input.len() || !is_digit_char(input[digits_end(input, pos)]),
    decreases input.len() - pos,
{
    if 0 <= pos < input.len() && is_digit_char(input[pos]) {
        lemma_digits_end_run(input, pos + 1);
    }
}

/// A number is the longest run of decimal digits: at a digit the token read
/// is an integer token holding that whole run, and the character after it
/// is no digit.
pub proof fn law_number_token(input: Seq<char>, pos: int)
    requires
        0 <= pos < input.len(),
        '0' <= input[pos] <= '9',
    ensures
        spec_next_token(input, pos).0 == TokenType::INT,
        pos < spec_next_token(input, pos).2 <= input.len(),
        spec_next_token(input, pos).1 == input.subrange(pos, spec_next_token(input, pos).2),
        forall|k: int| pos <= k < spec_next_token(input, pos).2 ==> '0' <= #[trigger] input[k] <= '9',
        spec_next_token(input, pos).2 == input.len() || !('0' <= input[spec_next_token(input, pos).2] <= '9'),
{
    assert(skip_ws(input, pos) == pos);
    assert(char_at(input, pos) == input[pos]);
    lemma_digits_end_run(input, pos);
    lemma_digits_end_run(input, pos + 1);
}

/// `=` and `!` followed by `=` form one two-character token (`==`, `!=`);
/// alone they are assignment and negation.
pub proof fn law_two_character_operators(input: Seq<char>, pos: int)
    requires
        0 <= pos < input.len(),
        input[pos] == '=' || input[pos] == '!',
    ensures
        pos + 1 < input.len() && input[pos + 1] == '=' ==> spec_next_token(input, pos).2 == pos + 2 && spec_next_token(
            input,
            pos,
        ).1 == seq![input[pos], '='] && spec_next_token(input, pos).0 == (if input[pos] == '=' {
            TokenType::EQ
        } else {
            TokenType::NOTEQ
        }),
        !(pos + 1 < input.len() && input[pos + 1] == '=') ==> spec_next_token(input, pos).2 == pos + 1
            && spec_next_token(input, pos).1 == seq![input[pos]] && spec_next_token(input, pos).0 == (if input[pos]
            == '=' {
            TokenType::ASSIGN
        } else {
            TokenType::BANG
        }),
{
    assert(skip_ws(input, pos) == pos);
    assert(char_at(input, pos) == input[pos]);
    reveal_strlit("==");
    reveal_strlit("!=");
    reveal_strlit("=");
    reveal_strlit("!");
    assert("=="@ =~= seq!['=', '=']);
    assert("!="@ =~= seq!['!', '=']);
    assert("="@ =~= seq!['=']);
    assert("!"@ =~= seq!['!']);
}

/// Reads source text one token at a time.
pub struct Lexer {
    input: Vec<char>,
    position: usize,
    read_position: usize,
    ch: char,
}

impl Lexer {
    /// The bytes of the source text, each as the character of the same
    /// number.
    pub closed spec fn spec_input(&self) -> Seq<char> {
        self.input@
    }

    /// The position of the current character.
    pub closed spec fn spec_position(&self) -> int {
        self.position as int
    }

    /// The position of the character that `read_char` moves to.
    pub closed spec fn spec_read_position(&self) -> int {
        self.read_position as int
    }

    /// `read_char` may be called.
    pub closed spec fn can_read(&self) -> bool {
        &&& valid_utf8(char_bytes(self.input@))
        &&& self.read_position <= self.input@.len() + 1
        &&& self.input@.len() < usize::MAX - 2
    }

    /// The lexer's internal state is consistent.
    pub closed spec fn wf(&self) -> bool {
        &&& valid_utf8(char_bytes(self.input@))
        &&& self.position <= self.input@.len()
        &&& self.input@.len() < usize::MAX - 2
        &&& self.read_position == self.position + 1
        &&& self.ch == char_at(self.input@, self.position as int)
    }

    /// The position of a consistent lexer lies within its input.
    pub proof fn lemma_position_in_input(&self)
        requires
            self.wf(),
        ensures
            0 <= self.spec_position() <= self.spec_input().len(),
    {
    }

    /// A lexer positioned at the first byte of `input`.
    pub fn new(input: &str) -> (l: Lexer)
        requires
            encode_utf8(input@).len() < usize::MAX - 2,
        ensures
            l.wf(),
            l.spec_input() == byte_chars(encode_utf8(input@)),
            l.spec_position() == 0,
    {
        let chars = byte_chars_of(input);
        proof {
            lemma_char_bytes_byte_chars(encode_utf8(input@));
            encode_utf8_valid_utf8(input@);
        }
        let mut l = Lexer { input: chars, position: 0, read_position: 0, ch: '\0' };
        l.read_char();
        l
    }

    /// Moves to the next character; past the end the current character is NUL.
    pub fn read_char(&mut self)
        requires
            old(self).can_read(),
        ensures
            final(self).wf(),
            final(self).spec_input() == old(self).spec_input(),
            final(self).spec_position() == clamp(old(self).spec_input(), old(self).spec_read_position()),
    {
        if self.read_position >= self.input.len() {
            self.ch = '\0';
            self.position = self.input.len();
        } else {
            self.ch = self.input[self.read_position];
            self.position = self.read_position;
        }
        self.read_position = self.position + 1;
    }

    fn peek_char(&self) -> (c: char)
        requires
            self.wf(),
        ensures
            c == char_at(self.input@, self.position + 1),
    {
        if self.read_position >= self.input.len() {
            '\0'
        } else {
            self.input[self.read_position]
        }
    }

    fn skip_whitespace(&mut self)
        requires
            old(self).wf(),
        ensures
            final(self).wf(),
            final(self).input@ == old(self).input@,
            final(self).position as int == skip_ws(old(self).input@, old(self).position as int),
    {
        while self.ch == ' ' || self.ch == '\t' || self.ch == '\n' || self.ch == '\r'
            invariant
                self.wf(),
                self.input@ == old(self).input@,
                skip_ws(self.input@, self.position as int) == skip_ws(
                    old(self).input@,
                    old(self).position as int,
                ),
            decreases self.input@.len() - self.position,
        {
            self.read_char();
        }
    }

    fn read_identifier(&mut self) -> (s: String)
        requires
            old(self).wf(),
        ensures
            final(self).wf(),
            final(self).input@ == old(self).input@,
            final(self).position as int == letters_end(old(self).input@, old(self).position as int),
            s@ == old(self).input@.subrange(
                old(self).position as int,
                letters_end(old(self).input@, old(self).position as int),
            ),
    {
        let start = self.position;
        while is_letter(self.ch)
            invariant
                self.wf(),
                self.input@ == old(self).input@,
                start <= self.position,
                start == old(self).position,
                letters_end(self.input@, self.position as int) == letters_end(
                    old(self).input@,
                    start as int,
                ),
                forall|k: int| start <= k < self.position ==> is_letter_char(#[trigger] self.input@[k]),
            decreases self.input@.len() - self.position,
        {
            self.read_char();
        }
        proof {
            lemma_letters_end_bounds(self.input@, start as int);
        }
        string_from_chars(&self.input.as_slice()[start..self.position])
    }

    fn read_number(&mut self) -> (s: String)
        requires
            old(self).wf(),
        ensures
            final(self).wf(),
            final(self).input@ == old(self).input@,
            final(self).position as int == digits_end(old(self).input@, old(self).position as int),
            s@ == old(self).input@.subrange(
                old(self).position as int,
                digits_end(old(self).input@, old(self).position as int),
            ),
    {
        let start = self.position;
        while is_digit(self.ch)
            invariant
                self.wf(),
                self.input@ == old(self).input@,
                start <= self.position,
                start == old(self).position,
                digits_end(self.input@, self.position as int) == digits_end(
                    old(self).input@,
                    start as int,
                ),
            decreases self.input@.len() - self.position,
        {
            self.read_char();
        }
        string_from_chars(&self.input.as_slice()[start..self.position])
    }

    fn read_string(&mut self) -> (s: String)
        requires
            old(self).wf(),
            old(self).ch == '"',
        ensures
            final(self).wf(),
            final(self).input@ == old(self).input@,
            final(self).position as int == quote_end(old(self).input@, old(self).position + 1),
            s@ == decode_utf8(char_bytes(old(self).input@.subrange(
                old(self).position + 1,
                quote_end(old(self).input@, old(self).position + 1),
            ))),
    {
        let start = self.position + 1;
        self.read_char();
        while self.position < self.input.len() && self.ch != '"'
            invariant
                self.wf(),
                self.input@ == old(self).input@,
                start <= self.position,
                start == old(self).position + 1,
                quote_end(self.input@, self.position as int) == quote_end(
                    old(self).input@,
                    start as int,
                ),
            decreases self.input@.len() - self.position,
        {
            self.read_char();
        }
        let bytes = bytes_of_chars(&self.input.as_slice()[start..self.position]);
        proof {
            let b = char_bytes(self.input@);
            assert(bytes@ =~= b.subrange(start as int, self.position as int));
            assert(b[start - 1] == 34u8);
            lemma_quote_end_bounds(self.input@, start as int);
            if self.position < self.input@.len() {
                assert(b[self.position as int] == 34u8);
            }
            lemma_string_bytes_valid(b, start - 1, self.position as int);
        }
        match string_from_utf8(bytes) {
            Some(text) => {
                proof {
                    encode_utf8_decode_utf8(text@);
                }
                text
            },
            None => String::new(),
        }
    }

    /// Reads the next token.
    pub fn next_token(&mut self) -> (tok: Token)
        requires
            old(self).wf(),
        ensures
            final(self).wf(),
            final(self).spec_input() == old(self).spec_input(),
            (tok.tk_type, tok.literal@, final(self).spec_position()) == spec_next_token(
                old(self).spec_input(),
                old(self).spec_position(),
            ),
    {
        self.skip_whitespace();
        proof {
            lemma_skip_ws_bounds(self.input@, old(self).position as int);
        }
        let c = self.ch;
        let tok: Token;
        if c == '"' {
            let lit = self.read_string();
            proof {
                lemma_quote_end_bounds(self.input@, self.position as int);
            }
            tok = Token { tk_type: TokenType::STRING, literal: lit };
        } else if c == '=' {
            if self.peek_char() == '=' {
                self.read_char();
                tok = Token { tk_type: TokenType::EQ, literal: String::from_str("==") };
            } else {
                tok = new_token(TokenType::ASSIGN, c);
                proof { reveal_strlit("="); }
            }
        } else if c == '!' {
            if self.peek_char() == '=' {
                self.read_char();
                tok = Token { tk_type: TokenType::NOTEQ, literal: String::from_str("!=") };
            } else {
                tok = new_token(TokenType::BANG, c);
                proof { reveal_strlit("!"); }
            }
        } else if let Some(kind) = single_char_token_kind(c) {
            tok = new_token(kind, c);
        } else if c == '\0' {
            tok = Token { tk_type: TokenType::EOF, literal: String::new() };
        } else if is_letter(c) {
            let lit = self.read_identifier();
            let kind = lookup_ident(lit.as_str());
            return Token { tk_type: kind, literal: lit };
        } else if is_digit(c) {
            let lit = self.read_number();
            return Token { tk_type: TokenType::INT, literal: lit };
        } else {
            tok = new_token(TokenType::ILLEGAL, c);
        }
        self.read_char();
        tok
    }
}

/// Whether a character may appear in an identifier.
pub fn is_letter(c: char) -> (r: bool)
    ensures
        r == is_letter_char(c),
{
    ('a' <= c && c <= 'z') || ('A' <= c && c <= 'Z') || c == '_'
}

/// Whether a character is a decimal digit.
pub fn is_digit(c: char) -> (r: bool)
    ensures
        r == is_digit_char(c),
{
    '0' <= c && c <= '9'
}

/// The token kind of a character that forms a token by itself, if it does.
pub fn single_char_token_kind(c: char) -> (r: Option<TokenType>)
    ensures
        r == single_char_kind(c),
{
    if c == ':' { Some(TokenType::COLON) }
    else if c == ';' { Some(TokenType::SEMICOLON) }
    else if c == '(' { Some(TokenType::LPAREN) }
    else if c == ')' { Some(TokenType::RPAREN) }
    else if c == ',' { Some(TokenType::COMMA) }
    else if c == '+' { Some(TokenType::PLUS) }
    else if c == '{' { Some(TokenType::LBRACE) }
    else if c == '}' { Some(TokenType::RBRACE) }
    else if c == '-' { Some(TokenType::MINUS) }
    else if c == '/' { Some(TokenType::SLASH) }
    else if c == '*' { Some(TokenType::ASTERISK) }
    else if c == '<' { Some(TokenType::LT) }
    else if c == '>' { Some(TokenType::GT) }
    else if c == '[' { Some(TokenType::LBRACKET) }
    else if c == ']' { Some(TokenType::RBRACKET) }
    else { None }
}

/// A token of the given kind whose text is the single character `ch`.
pub fn new_token(token_type: TokenType, ch: char) -> (t: Token)
    ensures
        t.tk_type == token_type,
        t.literal@ == seq![ch],
{
    let mut literal = String::new();
    push_char(&mut literal, ch);
    assert(literal@ =~= seq![ch]);
    Token { tk_type: token_type, literal }
}

} // verus!
