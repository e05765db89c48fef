//! A tokenizer for JSON text.
use crate::digits::push_str;
use crate::text::{char_from_u32, chars_of, string_from_chars};
use vstd::prelude::*;
use vstd::utf8::is_scalar;

verus! {

/// A JSON token.
#[derive(Debug, PartialEq)]
pub enum Token {
    /// `{`
    LBrace,
    /// `}`
    RBrace,
    /// `[`
    LBracket,
    /// `]`
    RBracket,
    /// `:`
    Colon,
    /// `,`
    Comma,
    /// A string, with its escapes resolved.
    String(String),
    /// A number, as the text of a valid decimal floating-point literal.
    Number(String),
    /// `true` or `false`.
    Boolean(bool),
    /// `null`.
    Null,
}

/// The model of a token.
pub enum TokenModel {
    LBrace,
    RBrace,
    LBracket,
    RBracket,
    Colon,
    Comma,
    String(Seq<char>),
    Number(Seq<char>),
    Boolean(bool),
    Null,
}

impl View for Token {
    type V = TokenModel;

    open spec fn view(&self) -> TokenModel {
        match self {
            Token::LBrace => TokenModel::LBrace,
            Token::RBrace => TokenModel::RBrace,
            Token::LBracket => TokenModel::LBracket,
            Token::RBracket => TokenModel::RBracket,
            Token::Colon => TokenModel::Colon,
            Token::Comma => TokenModel::Comma,
            Token::String(s) => TokenModel::String(s@),
            Token::Number(s) => TokenModel::Number(s@),
            Token::Boolean(b) => TokenModel::Boolean(*b),
            Token::Null => TokenModel::Null,
        }
    }
}

/// The keywords of JSON.
#[derive(Debug, Clone, Copy, PartialEq, Eq, Structural)]
pub enum Keyword {
    True,
    False,
    Null,
}

/// Why the tokenizer could not read a token.
#[derive(Debug, PartialEq)]
pub enum TokenError {
    /// A character that starts no token.
    UnexpectedCharacter(char),
    /// A backslash at the very end of the input.
    UnexpectedEndOfString,
    /// A `\u` escape without four valid hexadecimal digits.
    InvalidUnicodeEscape,
    /// A `\u` escape naming no Unicode scalar value.
    InvalidCodepoint,
    /// A backslash followed by a character that names no escape.
    InvalidEscape(char),
    /// A string without its closing quote.
    UnterminatedString,
    /// Text that starts like a number but is not a valid one.
    InvalidNumber(String),
    /// Text that starts like a keyword but is not that keyword.
    ExpectedKeyword(Keyword),
}

/// The model of a tokenizer error.
pub enum TokenErrorModel {
    UnexpectedCharacter(char),
    UnexpectedEndOfString,
    InvalidUnicodeEscape,
    InvalidCodepoint,
    InvalidEscape(char),
    UnterminatedString,
    InvalidNumber(Seq<char>),
    ExpectedKeyword(Keyword),
}

impl View for TokenError {
    type V = TokenErrorModel;

    open spec fn view(&self) -> TokenErrorModel {
        match self {
            TokenError::UnexpectedCharacter(c) => TokenErrorModel::UnexpectedCharacter(*c),
            TokenError::UnexpectedEndOfString => TokenErrorModel::UnexpectedEndOfString,
            TokenError::InvalidUnicodeEscape => TokenErrorModel::InvalidUnicodeEscape,
            TokenError::InvalidCodepoint => TokenErrorModel::InvalidCodepoint,
            TokenError::InvalidEscape(c) => TokenErrorModel::InvalidEscape(*c),
            TokenError::UnterminatedString => TokenErrorModel::UnterminatedString,
            TokenError::InvalidNumber(s) => TokenErrorModel::InvalidNumber(s@),
            TokenError::ExpectedKeyword(k) => TokenErrorModel::ExpectedKeyword(*k),
        }
    }
}

/// The model of the result of reading one token.
pub type LexResult = Result<TokenModel, TokenErrorModel>;

/// The model of an executable token result.
pub open spec fn result_model(r: Result<Token, TokenError>) -> LexResult {
    match r {
        Ok(t) => Ok(t@),
        Err(e) => Err(e@),
    }
}

/// Unicode white space, as `char::is_whitespace` decides it.
pub open spec fn is_ws(c: char) -> bool {
    let x = c as u32;
    (0x09 <= x <= 0x0d) || x == 0x20 || x == 0x85 || x == 0xa0 || x == 0x1680 || (0x2000 <= x <= 0x200a)
        || x == 0x2028 || x == 0x2029 || x == 0x202f || x == 0x205f || x == 0x3000
}

/// An ASCII decimal digit.
pub open spec fn is_digit(c: char) -> bool {
    '0' <= c <= '9'
}

/// The value of a hexadecimal digit.
pub open spec fn hex_val(c: char) -> Option<u32> {
    if '0' <= c <= '9' {
        Some((c as u32 - '0' as u32) as u32)
    } else if 'a' <= c <= 'f' {
        Some((c as u32 - 'a' as u32 + 10) as u32)
    } else if 'A' <= c <= 'F' {
        Some((c as u32 - 'A' as u32 + 10) as u32)
    } else {
        None
    }
}

/// The value of a sequence of hexadecimal digits.
pub open spec fn hex_digits_val(ds: Seq<char>) -> Option<int>
    decreases ds.len(),
{
    if ds.len() == 0 {
        Some(0)
    } else {
        match (hex_digits_val(ds.drop_last()), hex_val(ds.last())) {
            (Some(v), Some(d)) => Some(v * 16 + d),
            _ => None,
        }
    }
}

/// Parses text as `u32::from_str_radix(_, 16)` does: an optional `+` and at least one
/// hexadecimal digit.
pub open spec fn parse_hex(cs: Seq<char>) -> Option<int> {
    if cs.len() > 0 && cs[0] == '+' {
        if cs.len() == 1 {
            None
        } else {
            hex_digits_val(cs.drop_first())
        }
    } else if cs.len() == 0 {
        None
    } else {
        hex_digits_val(cs)
    }
}

/// The position of the first character at or after `p` that is not white space.
pub open spec fn skip_ws(s: Seq<char>, p: int) -> int
    decreases s.len() - p,
{
    if 0 <= p < s.len() && is_ws(s[p]) {
        skip_ws(s, p + 1)
    } else {
        p
    }
}

/// The position of the first character at or after `p` that is not a decimal digit.
pub open spec fn digits_end(s: Seq<char>, p: int) -> int
    decreases s.len() - p,
{
    if 0 <= p < s.len() && is_digit(s[p]) {
        digits_end(s, p + 1)
    } else {
        p
    }
}

/// The character a simple escape stands for, if `e` names one.
pub open spec fn simple_escape(e: char) -> Option<char> {
    if e == '"' || e == '\\' || e == '/' {
        Some(e)
    } else if e == 'b' {
        Some('\u{8}')
    } else if e == 'f' {
        Some('\u{c}')
    } else if e == 'n' {
        Some('\n')
    } else if e == 'r' {
        Some('\r')
    } else if e == 't' {
        Some('\t')
    } else {
        None
    }
}

/// Reads the rest of a string literal from `p` (just past the opening quote), with the
/// characters read so far in `acc`: the token or error, and the position afterwards.
pub open spec fn lex_string(s: Seq<char>, p: int, acc: Seq<char>) -> (LexResult, int)
    decreases s.len() - p,
{
    if p < 0 || p >= s.len() {
        (Err(TokenErrorModel::UnterminatedString), p)
    } else {
        let c = s[p];
        let p1 = p + 1;
        if c == '"' {
            (Ok(TokenModel::String(acc)), p1)
        } else if c == '\\' {
            if p1 >= s.len() {
                (Err(TokenErrorModel::UnexpectedEndOfString), p1)
            } else {
                let e = s[p1];
                let p2 = p1 + 1;
                match simple_escape(e) {
                    Some(x) => lex_string(s, p2, acc.push(x)),
                    None => if e == 'u' {
                        if p2 + 4 > s.len() {
                            (Err(TokenErrorModel::InvalidUnicodeEscape), p2)
                        } else {
                            match parse_hex(s.subrange(p2, p2 + 4)) {
                                None => (Err(TokenErrorModel::InvalidUnicodeEscape), p2 + 4),
                                Some(code) => if is_scalar(code as u32) {
                                    lex_string(s, p2 + 4, acc.push(scalar_char(code as u32)))
                                } else {
                                    (Err(TokenErrorModel::InvalidCodepoint), p2 + 4)
                                },
                            }
                        }
                    } else {
                        (Err(TokenErrorModel::InvalidEscape(e)), p2)
                    },
                }
            }
        } else {
            lex_string(s, p1, acc.push(c))
        }
    }
}

/// The scalar value of a character.
pub open spec fn char_code(c: char) -> u32 {
    c as u32
}

/// The character whose scalar value is `code`.
pub open spec fn scalar_char(code: u32) -> char {
    choose|c: char| #[trigger] char_code(c) == code
}

pub proof fn lemma_scalar_char(c: char, code: u32)
    requires
        c as u32 == code,
    ensures
        c == scalar_char(code),
{
    assert(char_code(c) == code);
    let d = scalar_char(code);
    assert(char_code(d) == code);
    assert(c == d);
}

/// Where the parts of a number starting at `p` end, as the scanner finds them:
/// the start of the integer digits, their end, the end of the fraction digits,
/// the start of the exponent digits and their end.
pub open spec fn number_marks(s: Seq<char>, p: int) -> (int, int, int, int, int) {
    let p0 = if s[p] == '-' { p + 1 } else { p };
    let p1 = digits_end(s, p0);
    let p2 = if p1 < s.len() && s[p1] == '.' { digits_end(s, p1 + 1) } else { p1 };
    if p2 < s.len() && (s[p2] == 'e' || s[p2] == 'E') {
        let q = if p2 + 1 < s.len() && (s[p2 + 1] == '+' || s[p2 + 1] == '-') { p2 + 2 } else { p2 + 1 };
        (p0, p1, p2, q, digits_end(s, q))
    } else {
        (p0, p1, p2, p2, p2)
    }
}

/// Whether the scanned text is a literal that `f64` parses: digits before or after the
/// point, and digits in the exponent if there is one.
pub open spec fn number_valid(s: Seq<char>, p: int) -> bool {
    let (p0, p1, p2, q, p3) = number_marks(s, p);
    let has_dot = p1 < s.len() && s[p1] == '.';
    let has_exp = p2 < s.len() && (s[p2] == 'e' || s[p2] == 'E');
    (p1 > p0 || (has_dot && p2 > p1 + 1)) && (!has_exp || p3 > q)
}

/// Reads a number starting at `p`.
pub open spec fn lex_number(s: Seq<char>, p: int) -> (LexResult, int) {
    let end = number_marks(s, p).4;
    let text = s.subrange(p, end);
    if number_valid(s, p) {
        (Ok(TokenModel::Number(text)), end)
    } else {
        (Err(TokenErrorModel::InvalidNumber(text)), end)
    }
}

/// The text of a keyword.
pub open spec fn keyword_text(k: Keyword) -> Seq<char> {
    match k {
        Keyword::True => seq!['t', 'r', 'u', 'e'],
        Keyword::False => seq!['f', 'a', 'l', 's', 'e'],
        Keyword::Null => seq!['n', 'u', 'l', 'l'],
    }
}

/// The token a keyword stands for.
pub open spec fn keyword_token(k: Keyword) -> TokenModel {
    match k {
        Keyword::True => TokenModel::Boolean(true),
        Keyword::False => TokenModel::Boolean(false),
        Keyword::Null => TokenModel::Null,
    }
}

/// Reads a keyword at `p`; the position stays at `p` when the text differs.
pub open spec fn lex_keyword(s: Seq<char>, p: int, k: Keyword) -> (LexResult, int) {
    let t = keyword_text(k);
    if p + t.len() > s.len() {
        (Err(TokenErrorModel::ExpectedKeyword(k)), p)
    } else if s.subrange(p, p + t.len()) == t {
        (Ok(keyword_token(k)), p + t.len())
    } else {
        (Err(TokenErrorModel::ExpectedKeyword(k)), p)
    }
}

/// Reads the next token at or after `pos`: nothing at the end of the input, else the token or
/// error, with the position afterwards.
pub open spec fn lex_next(s: Seq<char>, pos: int) -> (Option<LexResult>, int) {
    let p = skip_ws(s, pos);
    if p >= s.len() {
        (None, p)
    } else {
        let c = s[p];
        let p1 = p + 1;
        if c == '{' {
            (Some(Ok(TokenModel::LBrace)), p1)
        } else if c == '}' {
            (Some(Ok(TokenModel::RBrace)), p1)
        } else if c == '[' {
            (Some(Ok(TokenModel::LBracket)), p1)
        } else if c == ']' {
            (Some(Ok(TokenModel::RBracket)), p1)
        } else if c == ':' {
            (Some(Ok(TokenModel::Colon)), p1)
        } else if c == ',' {
            (Some(Ok(TokenModel::Comma)), p1)
        } else if c == '"' {
            let (r, q) = lex_string(s, p1, Seq::empty());
            (Some(r), q)
        } else if is_digit(c) || c == '-' {
            let (r, q) = lex_number(s, p);
            (Some(r), q)
        } else if c == 't' {
            let (r, q) = lex_keyword(s, p, Keyword::True);
            (Some(r), q)
        } else if c == 'f' {
            let (r, q) = lex_keyword(s, p, Keyword::False);
            (Some(r), q)
        } else if c == 'n' {
            let (r, q) = lex_keyword(s, p, Keyword::Null);
            (Some(r), q)
        } else {
            (Some(Err(TokenErrorModel::UnexpectedCharacter(c))), p1)
        }
    }
}

/// A tokenizer over JSON text.
pub struct Tokenizer {
    input: Vec<char>,
    position: usize,
}

impl Tokenizer {
    /// The characters being tokenized.
    pub closed spec fn input(&self) -> Seq<char> {
        self.input@
    }

    /// The position of the next character to read.
    pub closed spec fn position(&self) -> int {
        self.position as int
    }

    /// Create a tokenizer at the start of `input`.
    pub fn new(input: &str) -> (t: Self)
        ensures
            t.input() == input@,
            t.position() == 0,
    {
        Tokenizer { input: chars_of(input), position: 0 }
    }

    /// Read the next token: `None` at the end of the input.
    pub fn next_token(&mut self) -> (r: Option<Result<Token, TokenError>>)
        requires
            old(self).position() <= old(self).input().len(),
        ensures
            final(self).input() == old(self).input(),
            final(self).position() <= final(self).input().len(),
            ({
                let (sr, q) = lex_next(old(self).input(), old(self).position());
                &&& final(self).position() == q
                &&& match (r, sr) {
                    (None, None) => true,
                    (Some(x), Some(y)) => result_model(x) == y,
                    _ => false,
                }
            }),
    {
        self.skip_whitespace();
        if self.position >= self.input.len() {
            return None;
        }
        let c = self.input[self.position];
        let p = self.position;
        self.position = self.position + 1;
        let token = if c == '{' {
            Ok(Token::LBrace)
        } else if c == '}' {
            Ok(Token::RBrace)
        } else if c == '[' {
            Ok(Token::LBracket)
        } else if c == ']' {
            Ok(Token::RBracket)
        } else if c == ':' {
            Ok(Token::Colon)
        } else if c == ',' {
            Ok(Token::Comma)
        } else if c == '"' {
            self.read_string()
        } else if ('0' <= c && c <= '9') || c == '-' {
            self.position = p;
            self.read_number()
        } else if c == 't' {
            self.position = p;
            match self.read_keyword(Keyword::True) {
                Ok(()) => Ok(Token::Boolean(true)),
                Err(e) => Err(e),
            }
        } else if c == 'f' {
            self.position = p;
            match self.read_keyword(Keyword::False) {
                Ok(()) => Ok(Token::Boolean(false)),
                Err(e) => Err(e),
            }
        } else if c == 'n' {
            self.position = p;
            match self.read_keyword(Keyword::Null) {
                Ok(()) => Ok(Token::Null),
                Err(e) => Err(e),
            }
        } else {
            Err(TokenError::UnexpectedCharacter(c))
        };
        Some(token)
    }

    /// Moves past white space.
    fn skip_whitespace(&mut self)
        requires
            old(self).position() <= old(self).input().len(),
        ensures
            final(self).input() == old(self).input(),
            final(self).position() == skip_ws(old(self).input(), old(self).position()),
            final(self).position() <= final(self).input().len(),
    {
        while self.position < self.input.len() && is_whitespace(self.input[self.position])
            invariant
                self.input@ == old(self).input@,
                self.position <= self.input@.len(),
                skip_ws(self.input@, self.position as int) == skip_ws(old(self).input@, old(self).position as int),
            decreases self.input@.len() - self.position,
        {
            self.position = self.position + 1;
        }
    }

    /// Reads the rest of a string literal, from just past its opening quote.
    fn read_string(&mut self) -> (r: Result<Token, TokenError>)
        requires
            old(self).position() <= old(self).input().len(),
        ensures
            final(self).input() == old(self).input(),
            final(self).position() <= final(self).input().len(),
            ({
                let (sr, q) = lex_string(old(self).input(), old(self).position(), Seq::empty());
                final(self).position() == q && result_model(r) == sr
            }),
    {
        let mut value: Vec<char> = Vec::new();
        let ghost s = self.input@;
        let ghost start = self.position as int;
        while self.position < self.input.len()
            invariant
                self.input@ == s,
                s == old(self).input@,
                start == old(self).position as int,
                self.position <= s.len(),
                lex_string(s, start, Seq::empty()) == lex_string(s, self.position as int, value@),
            decreases s.len() - self.position,
        {
            let c = self.input[self.position];
            self.position = self.position + 1;
            if c == '"' {
                return Ok(Token::String(string_from_chars(&value)));
            } else if c == '\\' {
                if self.position >= self.input.len() {
                    return Err(TokenError::UnexpectedEndOfString);
                }
                let escaped = self.input[self.position];
                self.position = self.position + 1;
                if escaped == '"' || escaped == '\\' || escaped == '/' {
                    value.push(escaped);
                } else if escaped == 'b' {
                    value.push('\u{8}');
                } else if escaped == 'f' {
                    value.push('\u{c}');
                } else if escaped == 'n' {
                    value.push('\n');
                } else if escaped == 'r' {
                    value.push('\r');
                } else if escaped == 't' {
                    value.push('\t');
                } else if escaped == 'u' {
                    if self.input.len() - self.position < 4 {
                        return Err(TokenError::InvalidUnicodeEscape);
                    }
                    let p = self.position;
                    self.position = self.position + 4;
                    match parse_hex4(&self.input, p) {
                        None => {
                            return Err(TokenError::InvalidUnicodeEscape);
                        },
                        Some(code) => {
                            match char_from_u32(code) {
                                Some(ch) => {
                                    proof {
                                        lemma_scalar_char(ch, code);
                                    }
                                    value.push(ch);
                                },
                                None => {
                                    return Err(TokenError::InvalidCodepoint);
                                },
                            }
                        },
                    }
                } else {
                    return Err(TokenError::InvalidEscape(escaped));
                }
            } else {
                value.push(c);
            }
        }
        Err(TokenError::UnterminatedString)
    }

    /// Reads a number starting at the current position.
    fn read_number(&mut self) -> (r: Result<Token, TokenError>)
        requires
            old(self).position() < old(self).input().len(),
        ensures
            final(self).input() == old(self).input(),
            final(self).position() <= final(self).input().len(),
            ({
                let (sr, q) = lex_number(old(self).input(), old(self).position());
                final(self).position() == q && result_model(r) == sr
            }),
    {
        let ghost s = self.input@;
        let len = self.input.len();
        let start = self.position;
        if self.input[self.position] == '-' {
            self.position = self.position + 1;
        }
        let p0 = self.position;
        self.position = scan_digits(&self.input, self.position);
        let p1 = self.position;
        let has_dot = self.position < self.input.len() && self.input[self.position] == '.';
        if has_dot {
            self.position = scan_digits(&self.input, self.position + 1);
        }
        let p2 = self.position;
        let has_exp = self.position < self.input.len() && (self.input[self.position] == 'e' || self.input[self.position] == 'E');
        let mut q = p2;
        if has_exp {
            self.position = self.position + 1;
            if self.position < self.input.len() && (self.input[self.position] == '+' || self.input[self.position] == '-') {
                self.position = self.position + 1;
            }
            q = self.position;
            self.position = scan_digits(&self.input, self.position);
        }
        let p3 = self.position;
        let mut text: Vec<char> = Vec::new();
        let mut i = start;
        while i < p3
            invariant
                start <= i <= p3 <= self.input@.len(),
                text@ == self.input@.subrange(start as int, i as int),
            decreases p3 - i,
        {
            text.push(self.input[i]);
            proof {
                assert(self.input@.subrange(start as int, i + 1) =~= self.input@.subrange(start as int, i as int).push(self.input@[i as int]));
            }
            i = i + 1;
        }
        let lexeme = string_from_chars(&text);
        if (p1 > p0 || (has_dot && p2 > p1 + 1)) && (!has_exp || p3 > q) {
            Ok(Token::Number(lexeme))
        } else {
            Err(TokenError::InvalidNumber(lexeme))
        }
    }

    /// Reads the keyword `k` at the current position, moving past it if it is there.
    fn read_keyword(&mut self, k: Keyword) -> (r: Result<(), TokenError>)
        requires
            old(self).position() <= old(self).input().len(),
        ensures
            final(self).input() == old(self).input(),
            final(self).position() <= final(self).input().len(),
            ({
                let (sr, q) = lex_keyword(old(self).input(), old(self).position(), k);
                &&& final(self).position() == q
                &&& match (r, sr) {
                    (Ok(()), Ok(t)) => t == keyword_token(k),
                    (Err(e), Err(se)) => e@ == se,
                    _ => false,
                }
            }),
    {
        let text: Vec<char> = match k {
            Keyword::True => vec!['t', 'r', 'u', 'e'],
            Keyword::False => vec!['f', 'a', 'l', 's', 'e'],
            Keyword::Null => vec!['n', 'u', 'l', 'l'],
        };
        proof {
            assert(text@ =~= keyword_text(k));
        }
        let len = self.input.len();
        if len - self.position < text.len() {
            return Err(TokenError::ExpectedKeyword(k));
        }
        let mut i: usize = 0;
        while i < text.len()
            invariant
                self.input@ == old(self).input@,
                self.position == old(self).position,
                self.position + text@.len() <= self.input@.len(),
                self.input@.len() == len,
                text@ == keyword_text(k),
                i <= text@.len(),
                forall|j: int| 0 <= j < i ==> self.input@[self.position + j] == text@[j],
            decreases text@.len() - i,
        {
            if self.input[self.position + i] != text[i] {
                proof {
                    let sub = self.input@.subrange(self.position as int, self.position + text@.len());
                    assert(sub[i as int] != text@[i as int]);
                    assert(sub != text@);
                }
                return Err(TokenError::ExpectedKeyword(k));
            }
            i = i + 1;
        }
        proof {
            assert(self.input@.subrange(self.position as int, self.position + text@.len()) =~= text@);
        }
        self.position = self.position + text.len();
        Ok(())
    }
}

/// Whether `c` is Unicode white space.
pub fn is_whitespace(c: char) -> (r: bool)
    ensures
        r == is_ws(c),
{
    let x = c as u32;
    (0x09 <= x && x <= 0x0d) || x == 0x20 || x == 0x85 || x == 0xa0 || x == 0x1680 || (0x2000 <= x && x <= 0x200a)
        || x == 0x2028 || x == 0x2029 || x == 0x202f || x == 0x205f || x == 0x3000
}

/// The position of the first non-digit at or after `p`.
fn scan_digits(s: &Vec<char>, p: usize) -> (r: usize)
    requires
        p <= s@.len(),
    ensures
        r == digits_end(s@, p as int),
        p <= r <= s@.len(),
{
    let mut i = p;
    while i < s.len() && '0' <= s[i] && s[i] <= '9'
        invariant
            p <= i <= s@.len(),
            digits_end(s@, i as int) == digits_end(s@, p as int),
        decreases s@.len() - i,
    {
        i = i + 1;
    }
    i
}

/// The value of a hexadecimal digit.
pub fn hex_value(c: char) -> (r: Option<u32>)
    ensures
        r == hex_val(c),
{
    if '0' <= c && c <= '9' {
        Some(c as u32 - '0' as u32)
    } else if 'a' <= c && c <= 'f' {
        Some(c as u32 - 'a' as u32 + 10)
    } else if 'A' <= c && c <= 'F' {
        Some(c as u32 - 'A' as u32 + 10)
    } else {
        None
    }
}

/// Parses the four characters at `p` as `u32::from_str_radix(_, 16)` does.
fn parse_hex4(s: &Vec<char>, p: usize) -> (r: Option<u32>)
    requires
        p + 4 <= s@.len(),
    ensures
        match (r, parse_hex(s@.subrange(p as int, p + 4))) {
            (Some(v), Some(w)) => v == w,
            (None, None) => true,
            _ => false,
        },
{
    let ghost cs = s@.subrange(p as int, p + 4);
    let len = s.len();
    let start = if s[p] == '+' { p + 1 } else { p };
    let ghost ds = s@.subrange(start as int, p + 4);
    proof {
        if s[p as int] == '+' {
            assert(cs.drop_first() =~= ds);
        } else {
            assert(cs =~= ds);
        }
        assert(parse_hex(cs) == hex_digits_val(ds));
        assert(s@.subrange(start as int, start as int) =~= Seq::<char>::empty());
    }
    let mut v: u32 = 0;
    let mut i = start;
    let end = p + 4;
    while i < end
        invariant
            end == p + 4,
            p <= start <= i <= p + 4 <= s@.len(),
            ds == s@.subrange(start as int, p + 4),
            cs == s@.subrange(p as int, p + 4),
            parse_hex(cs) == hex_digits_val(ds),
            hex_digits_val(s@.subrange(start as int, i as int)) == Some(v as int),
            (i - start) <= 4,
            v < pow16((i - start) as nat),
        decreases p + 4 - i,
    {
        let ghost prefix = s@.subrange(start as int, i as int);
        proof {
            assert(s@.subrange(start as int, i + 1).drop_last() =~= prefix);
            assert(s@.subrange(start as int, i + 1).last() == s@[i as int]);
        }
        match hex_value(s[i]) {
            None => {
                proof {
                    lemma_hex_digits_none(s@.subrange(start as int, p + 4), (i - start) as int);
                    assert(s@.subrange(start as int, p + 4).subrange(0, i - start + 1) =~= s@.subrange(start as int, i + 1));
                }
                return None;
            },
            Some(d) => {
                proof {
                    assert(d < 16);
                    lemma_pow16_step((i - start) as nat);
                }
                v = v * 16 + d;
            },
        }
        i = i + 1;
    }
    Some(v)
}

/// Sixteen to the power `n`.
pub open spec fn pow16(n: nat) -> nat
    decreases n,
{
    if n == 0 {
        1
    } else {
        16 * pow16((n - 1) as nat)
    }
}

proof fn lemma_pow16_step(n: nat)
    requires
        n < 4,
    ensures
        pow16(n + 1) == 16 * pow16(n),
        pow16(n + 1) <= 0x10000,
{
    reveal_with_fuel(pow16, 5);
}

/// A prefix with an invalid digit has no value, and neither has any longer prefix.
pub proof fn lemma_hex_digits_none(ds: Seq<char>, k: int)
    requires
        0 <= k < ds.len(),
        hex_val(ds[k]) is None,
    ensures
        hex_digits_val(ds) is None,
    decreases ds.len(),
{
    if k == ds.len() - 1 {
    } else {
        assert(ds.drop_last()[k] == ds[k]);
        lemma_hex_digits_none(ds.drop_last(), k);
    }
}

/// The message that reports a tokenizer error.
pub open spec fn token_error_message(e: TokenErrorModel) -> Seq<char> {
    match e {
        TokenErrorModel::UnexpectedCharacter(c) => "Unexpected character: "@.push(c),
        TokenErrorModel::UnexpectedEndOfString => "Unexpected end of string"@,
        TokenErrorModel::InvalidUnicodeEscape => "Invalid unicode escape sequence"@,
        TokenErrorModel::InvalidCodepoint => "Invalid unicode codepoint"@,
        TokenErrorModel::InvalidEscape(c) => "Invalid escape sequence: \\"@.push(c),
        TokenErrorModel::UnterminatedString => "Unterminated string"@,
        TokenErrorModel::InvalidNumber(t) => "Invalid number: "@ + t,
        TokenErrorModel::ExpectedKeyword(k) => "Expected keyword: "@ + keyword_text(k),
    }
}

impl TokenError {
    /// The error's message.
    pub fn message(&self) -> (r: String)
        ensures
            r@ == token_error_message(self@),
    {
        let mut cs: Vec<char> = Vec::new();
        match self {
            TokenError::UnexpectedCharacter(c) => {
                push_str(&mut cs, "Unexpected character: ");
                cs.push(*c);
            },
            TokenError::UnexpectedEndOfString => push_str(&mut cs, "Unexpected end of string"),
            TokenError::InvalidUnicodeEscape => push_str(&mut cs, "Invalid unicode escape sequence"),
            TokenError::InvalidCodepoint => push_str(&mut cs, "Invalid unicode codepoint"),
            TokenError::InvalidEscape(c) => {
                push_str(&mut cs, "Invalid escape sequence: \\");
                cs.push(*c);
            },
            TokenError::UnterminatedString => push_str(&mut cs, "Unterminated string"),
            TokenError::InvalidNumber(t) => {
                push_str(&mut cs, "Invalid number: ");
                push_str(&mut cs, t.as_str());
            },
            TokenError::ExpectedKeyword(k) => {
                push_str(&mut cs, "Expected keyword: ");
                match k {
                    Keyword::True => {
                        proof {
                            reveal_strlit("true");
                        }
                        push_str(&mut cs, "true");
                    },
                    Keyword::False => {
                        proof {
                            reveal_strlit("false");
                        }
                        push_str(&mut cs, "false");
                    },
                    Keyword::Null => {
                        proof {
                            reveal_strlit("null");
                        }
                        push_str(&mut cs, "null");
                    },
                }
            },
        }
        proof {
            assert(cs@ =~= token_error_message(self@));
        }
        string_from_chars(&cs)
    }
}

} // verus!
