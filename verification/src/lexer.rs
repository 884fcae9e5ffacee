use vstd::prelude::*;

use crate::token::{LexError, Token, TokenModel, TokenType};

verus! {

// ---------------------------------------------------------------------------
// Character classes
// ---------------------------------------------------------------------------

/// A letter for identifier purposes: ASCII `a`-`z`, `A`-`Z`, or underscore.
pub open spec fn is_letter_char(c: char) -> bool {
    (97 <= c as u32 && c as u32 <= 122) || (65 <= c as u32 && c as u32 <= 90) || c as u32 == 95
}

/// A decimal digit: ASCII `0`-`9`.
pub open spec fn is_digit_char(c: char) -> bool {
    48 <= c as u32 && c as u32 <= 57
}

pub fn is_letter(ch: Option<char>) -> (r: bool)
    ensures
        r == (match ch {
            Option::Some(c) => is_letter_char(c),
            Option::None => false,
        }),
{
    match ch {
        Option::Some(c) => {
            let u = c as u32;
            (97 <= u && u <= 122) || (65 <= u && u <= 90) || u == 95
        },
        Option::None => false,
    }
}

pub fn is_digit(ch: Option<char>) -> (r: bool)
    ensures
        r == (match ch {
            Option::Some(c) => is_digit_char(c),
            Option::None => false,
        }),
{
    match ch {
        Option::Some(c) => {
            let u = c as u32;
            48 <= u && u <= 57
        },
        Option::None => false,
    }
}

pub fn is_new_line(ch: char) -> (r: bool)
    ensures
        r == (ch == '\n'),
{
    ch == '\n'
}

// ---------------------------------------------------------------------------
// The scanner
// ---------------------------------------------------------------------------

/// Cursor over the input text. `pos` is a character index; when it has passed
/// the final character it equals the character length of the input, and `ch`
/// is absent.
pub struct Lexer<'a> {
    input: &'a str,
    length: usize,
    pos: usize,
    ch: Option<char>,
}

impl<'a> Lexer<'a> {
    /// The input text, as a sequence of characters.
    pub closed spec fn text(self) -> Seq<char> {
        self.input@
    }

    /// The character index of the cursor.
    pub closed spec fn cursor(self) -> int {
        self.pos as int
    }

    /// Internal consistency: the cached length matches the text, the cursor
    /// stays within the text, and the current character is the one under the
    /// cursor (absent past the end).
    pub closed spec fn wf(self) -> bool {
        &&& self.length as int == self.input@.len()
        &&& self.pos <= self.length
        &&& self.ch == (if self.pos < self.length {
            Option::Some(self.input@[self.pos as int])
        } else {
            Option::None::<char>
        })
    }

    pub fn new(input: &'a str) -> (lexer: Lexer<'a>)
        ensures
            lexer.wf(),
            lexer.text() == input@,
            lexer.cursor() == 0,
    {
        let length = input.unicode_len();
        let ch = if length > 0 {
            Option::Some(input.get_char(0))
        } else {
            Option::None
        };
        Lexer { input, length, pos: 0, ch }
    }

    /// Advance the cursor by one character; past the end it stays put.
    pub fn next_char(&mut self)
        requires
            old(self).wf(),
        ensures
            final(self).wf(),
            final(self).text() == old(self).text(),
            final(self).cursor() == (if old(self).cursor() < old(self).text().len() {
                old(self).cursor() + 1
            } else {
                old(self).cursor()
            }),
    {
        if self.pos < self.length {
            self.pos = self.pos + 1;
            if self.pos < self.length {
                self.ch = Option::Some(self.input.get_char(self.pos));
            } else {
                self.ch = Option::None;
            }
        }
    }

    /// The character one past the cursor, if both it and the cursor are in
    /// range.
    pub fn peek_char(&self) -> (r: Option<char>)
        requires
            self.wf(),
        ensures
            r == spec_peek(self.text(), self.cursor()),
    {
        if self.pos >= self.length {
            return Option::None;
        }
        if self.pos + 1 < self.length {
            Option::Some(self.input.get_char(self.pos + 1))
        } else {
            Option::None
        }
    }

    /// The character one before the cursor, if any.
    pub fn prev_char(&self) -> (r: Option<char>)
        requires
            self.wf(),
        ensures
            r == (if self.cursor() > 0 {
                Option::Some(self.text()[self.cursor() - 1])
            } else {
                Option::None::<char>
            }),
    {
        if self.pos == 0 {
            return Option::None;
        }
        Option::Some(self.input.get_char(self.pos - 1))
    }

    /// Move the cursor past consecutive space characters. Only `' '` counts
    /// as skippable whitespace; tab and newline are left for classification.
    pub fn skip_whitespace(&mut self)
        requires
            old(self).wf(),
        ensures
            final(self).wf(),
            final(self).text() == old(self).text(),
            final(self).cursor() == spec_skip_spaces(old(self).text(), old(self).cursor()),
    {
        loop
            invariant
                self.wf(),
                self.text() == old(self).text(),
                0 <= self.cursor() <= self.text().len(),
                spec_skip_spaces(self.text(), self.cursor()) == spec_skip_spaces(
                    old(self).text(),
                    old(self).cursor(),
                ),
            ensures
                self.wf(),
                self.text() == old(self).text(),
                self.cursor() == spec_skip_spaces(old(self).text(), old(self).cursor()),
            decreases self.text().len() - self.cursor(),
        {
            let at_space = match self.ch {
                Option::Some(c) => c == ' ',
                Option::None => false,
            };
            if !at_space {
                break ;
            }
            self.next_char();
        }
    }

    /// Consume a run of letters, digits and underscores and classify it as a
    /// boolean keyword, a reserved type word, or an identifier.
    fn read_identifier(&mut self) -> (r: TokenType)
        requires
            old(self).wf(),
        ensures
            final(self).wf(),
            final(self).text() == old(self).text(),
            final(self).cursor() == spec_ident_end(old(self).text(), old(self).cursor()),
            r@ == spec_lookup_ident(
                old(self).text().subrange(
                    old(self).cursor(),
                    spec_ident_end(old(self).text(), old(self).cursor()),
                ),
            ),
    {
        let ghost input = self.text();
        let ghost p0 = self.cursor();
        let initial_pos = self.pos;
        while is_letter(self.ch) || is_digit(self.ch)
            invariant
                self.wf(),
                self.text() == input,
                p0 == initial_pos as int,
                p0 <= self.cursor() <= input.len(),
                spec_ident_end(input, p0) == spec_ident_end(input, self.cursor()),
            decreases input.len() - self.cursor(),
        {
            self.next_char();
        }
        let end = self.pos;
        let text = self.input.substring_char(initial_pos, end);
        lookup_ident(text)
    }

    /// Consume a string literal, the cursor standing on its opening quote.
    /// Escape markers are kept verbatim in the text; an unescaped quote ends
    /// the literal. Running out of input ends the literal with the text
    /// gathered so far (no unterminated-string error is raised). The closing
    /// quote itself is left for the caller to step over.
    fn read_string(&mut self) -> (r: TokenType)
        requires
            old(self).wf(),
            0 <= old(self).cursor() < old(self).text().len(),
            old(self).text()[old(self).cursor()] == '"',
        ensures
            final(self).wf(),
            final(self).text() == old(self).text(),
            final(self).cursor() == spec_string_end(old(self).text(), old(self).cursor(), false),
            final(self).cursor() < final(self).text().len(),
            r@ == TokenModel::Str(spec_string_content(old(self).text(), old(self).cursor())),
    {
        let ghost input = self.text();
        let ghost p0 = self.cursor();
        let initial_pos = self.pos + 1;
        let mut escape = false;
        loop
            invariant_except_break
                self.wf(),
                self.text() == input,
                p0 <= self.cursor() < input.len(),
                spec_string_end(input, p0, false) == spec_string_end(
                    input,
                    self.cursor(),
                    escape,
                ),
            ensures
                self.wf(),
                self.text() == input,
                self.cursor() == spec_string_end(input, p0, false),
                self.cursor() < input.len(),
            decreases input.len() - self.cursor(),
        {
            let pk = self.peek_char();
            if pk.is_none() {
                break ;
            }
            self.next_char();
            let c = self.ch.unwrap();
            if c == '\\' && !escape {
                escape = true;
            } else if c == '"' && !escape {
                break ;
            } else {
                escape = false;
            }
        }
        let end = self.pos;
        let s = if initial_pos <= end {
            String::from_str(self.input.substring_char(initial_pos, end))
        } else {
            String::new()
        };
        TokenType::String(s)
    }

    /// Consume a numeric literal, the cursor standing on its first digit.
    /// The collected text becomes a float literal when a dot with a digit
    /// after it was consumed, and otherwise a 32-bit integer literal; digits
    /// that overflow 32 signed bits are the fatal scan-level error.
    fn read_number(&mut self) -> (r: Result<TokenType, LexError>)
        requires
            old(self).wf(),
            0 <= old(self).cursor() < old(self).text().len(),
            is_digit_char(old(self).text()[old(self).cursor()]),
        ensures
            final(self).wf(),
            final(self).text() == old(self).text(),
            final(self).cursor() == spec_number_end(old(self).text(), old(self).cursor()).0,
            (match r {
                Result::Ok(t) => Option::Some(t@) == spec_number_token(
                    old(self).text(),
                    old(self).cursor(),
                ),
                Result::Err(e) => {
                    &&& spec_number_token(old(self).text(), old(self).cursor()) is None
                    &&& e == LexError::IntOutOfRange
                },
            }),
    {
        let ghost input = self.text();
        let ghost p0 = self.cursor();
        let initial_pos = self.pos;
        let mut is_float = false;
        while is_digit(self.ch)
            invariant
                self.wf(),
                self.text() == input,
                p0 == initial_pos as int,
                p0 <= self.cursor() <= input.len(),
                spec_digits_end(input, p0) == spec_digits_end(input, self.cursor()),
            decreases input.len() - self.cursor(),
        {
            self.next_char();
        }
        let at_dot = match self.ch {
            Option::Some(c) => c == '.',
            Option::None => false,
        };
        if at_dot && is_digit(self.peek_char()) {
            is_float = true;
            self.next_char();
            let ghost p1 = self.cursor();
            while is_digit(self.ch)
                invariant
                    self.wf(),
                    self.text() == input,
                    p0 < p1 <= self.cursor() <= input.len(),
                    spec_digits_end(input, p1) == spec_digits_end(input, self.cursor()),
                    spec_number_end(input, p0) == (spec_digits_end(input, p1), true),
                decreases input.len() - self.cursor(),
            {
                self.next_char();
            }
        }
        let end = self.pos;
        assert(end as int == spec_number_end(input, p0).0);
        assert(is_float == spec_number_end(input, p0).1);
        let text = self.input.substring_char(initial_pos, end);
        if is_float {
            return Result::Ok(TokenType::Float(String::from_str(text)));
        }
        proof {
            lemma_digits_end_bounds(input, p0);
        }
        let mut val: u64 = 0;
        let mut i = initial_pos;
        while i < end
            invariant
                self.wf(),
                self.text() == input,
                input == old(self).text(),
                p0 == old(self).cursor(),
                self.cursor() == end as int,
                p0 == initial_pos as int,
                initial_pos <= i <= end,
                end as int <= input.len(),
                spec_number_end(input, p0) == (end as int, false),
                forall|j: int| p0 <= j < end as int ==> is_digit_char(input[j]),
                val as int == digits_val(input.subrange(p0, i as int)),
                val <= 0x7fff_ffff,
            decreases end - i,
        {
            let c = self.input.get_char(i);
            let d = (c as u32 - 48) as u64;
            let next_val = val * 10 + d;
            proof {
                assert(input.subrange(p0, i as int + 1).drop_last() =~= input.subrange(
                    p0,
                    i as int,
                ));
                assert(input.subrange(p0, i as int + 1).last() == input[i as int]);
            }
            if next_val > 0x7fff_ffff {
                proof {
                    let num = input.subrange(p0, end as int);
                    assert(input.subrange(p0, i as int + 1) =~= num.subrange(
                        0,
                        i as int + 1 - p0,
                    ));
                    lemma_digits_val_prefix(num, i as int + 1 - p0);
                }
                return Result::Err(LexError::IntOutOfRange);
            }
            val = next_val;
            i = i + 1;
        }
        proof {
            assert(input.subrange(p0, end as int) =~= input.subrange(p0, i as int));
        }
        Result::Ok(TokenType::Int(val as i32))
    }

    /// Produce the next token, advancing the cursor. Consumes zero or more
    /// characters and never fails on unclassifiable input — that surfaces as
    /// an `Illegal` token; the sole error is the fatal integer-overflow
    /// abort. Past the end of the input it returns `EndOfInput`-style `EOF`
    /// tokens forever.
    pub fn next_token(&mut self) -> (r: Result<Token, LexError>)
        requires
            old(self).wf(),
        ensures
            final(self).wf(),
            final(self).text() == old(self).text(),
            final(self).cursor() == spec_next_token(old(self).text(), old(self).cursor()).1,
            (match r {
                Result::Ok(tok) => spec_next_token(old(self).text(), old(self).cursor()).0
                    == Option::Some(tok@),
                Result::Err(e) => {
                    &&& spec_next_token(old(self).text(), old(self).cursor()).0 is None
                    &&& e == LexError::IntOutOfRange
                },
            }),
    {
        self.skip_whitespace();
        proof {
            lemma_skip_spaces_bounds(old(self).text(), old(self).cursor());
        }
        match self.ch {
            Option::None => {
                self.next_char();
                Result::Ok(Token::new(TokenType::EOF))
            },
            Option::Some(c) => {
                if c == ':' {
                    self.next_char();
                    Result::Ok(Token::new(TokenType::Colon))
                } else if c == '+' {
                    self.next_char();
                    Result::Ok(Token::new(TokenType::Plus))
                } else if c == '-' {
                    self.next_char();
                    Result::Ok(Token::new(TokenType::Minus))
                } else if c == '/' {
                    self.next_char();
                    Result::Ok(Token::new(TokenType::Slash))
                } else if c == '*' {
                    self.next_char();
                    Result::Ok(Token::new(TokenType::Asterisk))
                } else if c == '%' {
                    self.next_char();
                    Result::Ok(Token::new(TokenType::Module))
                } else if c == '"' {
                    let t = self.read_string();
                    self.next_char();
                    Result::Ok(Token::new(t))
                } else if c == '=' {
                    let pk = self.peek_char();
                    let eq = match pk {
                        Option::Some(x) => x == '=',
                        Option::None => false,
                    };
                    self.next_char();
                    if eq {
                        Result::Ok(Token::new(TokenType::Equal))
                    } else {
                        Result::Ok(Token::new(TokenType::Assign))
                    }
                } else if c == '!' {
                    let pk = self.peek_char();
                    let eq = match pk {
                        Option::Some(x) => x == '=',
                        Option::None => false,
                    };
                    self.next_char();
                    if eq {
                        Result::Ok(Token::new(TokenType::NotEqual))
                    } else {
                        Result::Ok(Token::new(TokenType::Bang))
                    }
                } else if is_letter(self.ch) {
                    let t = self.read_identifier();
                    Result::Ok(Token::new(t))
                } else if is_digit(self.ch) {
                    match self.read_number() {
                        Result::Ok(t) => Result::Ok(Token::new(t)),
                        Result::Err(e) => Result::Err(e),
                    }
                } else {
                    self.next_char();
                    Result::Ok(Token::new(TokenType::Illegal(c)))
                }
            },
        }
    }
}

/// Match a completed word against the keyword table, in order: booleans,
/// reserved type words, and otherwise a plain identifier.
fn lookup_ident(ident: &str) -> (t: TokenType)
    ensures
        t@ == spec_lookup_ident(ident@),
{
    let s = String::from_str(ident);
    if s == String::from_str("true") {
        TokenType::Bool(true)
    } else if s == String::from_str("false") {
        TokenType::Bool(false)
    } else if s == String::from_str("bool") || s == String::from_str("int") || s
        == String::from_str("float") || s == String::from_str("string") {
        TokenType::Type(s)
    } else {
        TokenType::Ident(s)
    }
}

// ---------------------------------------------------------------------------
// The scan, stated mathematically
// ---------------------------------------------------------------------------

/// The character one past `pos`, if in range.
pub open spec fn spec_peek(input: Seq<char>, pos: int) -> Option<char> {
    if 0 <= pos && pos + 1 < input.len() {
        Option::Some(input[pos + 1])
    } else {
        Option::None
    }
}

/// First index at or after `pos` that does not hold a space (or the end of
/// the input).
pub open spec fn spec_skip_spaces(input: Seq<char>, pos: int) -> int
    decreases input.len() - pos,
{
    if 0 <= pos && pos < input.len() && input[pos] == ' ' {
        spec_skip_spaces(input, pos + 1)
    } else {
        pos
    }
}

/// First index at or after `pos` whose character is neither a letter nor a
/// digit (or the end of the input): the end of an identifier run.
pub open spec fn spec_ident_end(input: Seq<char>, pos: int) -> int
    decreases input.len() - pos,
{
    if 0 <= pos && pos < input.len() && (is_letter_char(input[pos]) || is_digit_char(input[pos])) {
        spec_ident_end(input, pos + 1)
    } else {
        pos
    }
}

/// First index at or after `pos` whose character is not a digit (or the end
/// of the input): the end of a digit run.
pub open spec fn spec_digits_end(input: Seq<char>, pos: int) -> int
    decreases input.len() - pos,
{
    if 0 <= pos && pos < input.len() && is_digit_char(input[pos]) {
        spec_digits_end(input, pos + 1)
    } else {
        pos
    }
}

/// Classify a completed identifier run: boolean keywords first, then the
/// reserved type words, then a plain identifier.
pub open spec fn spec_lookup_ident(text: Seq<char>) -> TokenModel {
    if text == "true"@ {
        TokenModel::Bool(true)
    } else if text == "false"@ {
        TokenModel::Bool(false)
    } else if text == "bool"@ || text == "int"@ || text == "float"@ || text == "string"@ {
        TokenModel::Type(text)
    } else {
        TokenModel::Ident(text)
    }
}

/// Where the string sub-scan stops, starting with the cursor at `pos` (the
/// opening quote, or later a consumed character) and an escape flag. The scan
/// advances while a character follows the cursor; a backslash under a clear
/// flag sets it, an unescaped quote stops the scan at the quote, and anything
/// else clears the flag.
pub open spec fn spec_string_end(input: Seq<char>, pos: int, escape: bool) -> int
    decreases input.len() - pos,
{
    if pos + 1 < input.len() {
        if input[pos + 1] == '\\' && !escape {
            spec_string_end(input, pos + 1, true)
        } else if input[pos + 1] == '"' && !escape {
            pos + 1
        } else {
            spec_string_end(input, pos + 1, false)
        }
    } else {
        pos
    }
}

/// The text of a string literal whose opening quote stands at `pos`: the
/// characters strictly between the quote and where the sub-scan stops.
/// When the quote is the final character the scan does not move and the
/// literal is empty.
pub open spec fn spec_string_content(input: Seq<char>, pos: int) -> Seq<char> {
    let e = spec_string_end(input, pos, false);
    if pos + 1 <= e {
        input.subrange(pos + 1, e)
    } else {
        Seq::<char>::empty()
    }
}

/// Numeric value of one decimal digit character.
pub open spec fn digit_val(c: char) -> int {
    c as u32 - 48
}

/// Numeric value of a digit string, most significant digit first.
pub open spec fn digits_val(s: Seq<char>) -> int
    decreases s.len(),
{
    if s.len() == 0 {
        0
    } else {
        digits_val(s.drop_last()) * 10 + digit_val(s.last())
    }
}

/// Where a numeric literal beginning at `pos` stops, and whether it is a
/// float. Digits are consumed; one dot may follow, and switches the literal
/// to float mode only when a digit stands immediately after it, in which case
/// a second digit run is consumed. A trailing bare dot is left unconsumed.
pub open spec fn spec_number_end(input: Seq<char>, pos: int) -> (int, bool) {
    let e1 = spec_digits_end(input, pos);
    if e1 < input.len() && input[e1] == '.' && e1 + 1 < input.len() && is_digit_char(
        input[e1 + 1],
    ) {
        (spec_digits_end(input, e1 + 1), true)
    } else {
        (e1, false)
    }
}

/// The token a numeric literal beginning at `pos` produces: its text as a
/// float literal, or its value as a 32-bit integer literal. No token at all
/// when the integer value does not fit 32 signed bits — that case is the
/// fatal scan-level error.
pub open spec fn spec_number_token(input: Seq<char>, pos: int) -> Option<TokenModel> {
    let e = spec_number_end(input, pos).0;
    let text = input.subrange(pos, e);
    if spec_number_end(input, pos).1 {
        Option::Some(TokenModel::Float(text))
    } else if digits_val(text) <= i32::MAX as int {
        Option::Some(TokenModel::Int(digits_val(text)))
    } else {
        Option::None
    }
}

/// The token produced with the cursor at `p` (spaces already skipped), paired
/// with the cursor position after the step. `None` in the first slot is the
/// fatal integer-overflow abort. A step that resolves by lookahead (`==`,
/// `!=`) still advances by one character only; the sub-scans leave the cursor
/// where they stop, except the string scan, whose closing quote is stepped
/// over.
pub open spec fn spec_token_from(input: Seq<char>, p: int) -> (Option<TokenModel>, int) {
    if p >= input.len() {
        (Option::Some(TokenModel::EOF), p)
    } else {
        let c = input[p];
        if c == ':' {
            (Option::Some(TokenModel::Colon), p + 1)
        } else if c == '+' {
            (Option::Some(TokenModel::Plus), p + 1)
        } else if c == '-' {
            (Option::Some(TokenModel::Minus), p + 1)
        } else if c == '/' {
            (Option::Some(TokenModel::Slash), p + 1)
        } else if c == '*' {
            (Option::Some(TokenModel::Asterisk), p + 1)
        } else if c == '%' {
            (Option::Some(TokenModel::Module), p + 1)
        } else if c == '"' {
            (
                Option::Some(TokenModel::Str(spec_string_content(input, p))),
                spec_string_end(input, p, false) + 1,
            )
        } else if c == '=' {
            if spec_peek(input, p) == Option::Some('=') {
                (Option::Some(TokenModel::Equal), p + 1)
            } else {
                (Option::Some(TokenModel::Assign), p + 1)
            }
        } else if c == '!' {
            if spec_peek(input, p) == Option::Some('=') {
                (Option::Some(TokenModel::NotEqual), p + 1)
            } else {
                (Option::Some(TokenModel::Bang), p + 1)
            }
        } else if is_letter_char(c) {
            (
                Option::Some(spec_lookup_ident(input.subrange(p, spec_ident_end(input, p)))),
                spec_ident_end(input, p),
            )
        } else if is_digit_char(c) {
            (spec_number_token(input, p), spec_number_end(input, p).0)
        } else {
            (Option::Some(TokenModel::Illegal(c)), p + 1)
        }
    }
}

/// One full scan step from `pos`: skip consecutive spaces, then produce one
/// token and the cursor position after it.
pub open spec fn spec_next_token(input: Seq<char>, pos: int) -> (Option<TokenModel>, int) {
    spec_token_from(input, spec_skip_spaces(input, pos))
}

pub proof fn lemma_digits_val_nonneg(s: Seq<char>)
    requires
        forall|j: int| 0 <= j < s.len() ==> is_digit_char(s[j]),
    ensures
        digits_val(s) >= 0,
    decreases s.len(),
{
    if s.len() > 0 {
        lemma_digits_val_nonneg(s.drop_last());
    }
}

/// A digit string is worth at least any of its prefixes: appending digits
/// never shrinks the value.
pub proof fn lemma_digits_val_prefix(s: Seq<char>, k: int)
    requires
        0 <= k <= s.len(),
        forall|j: int| 0 <= j < s.len() ==> is_digit_char(s[j]),
    ensures
        digits_val(s.subrange(0, k)) <= digits_val(s),
    decreases s.len() - k,
{
    if k == s.len() {
        assert(s.subrange(0, s.len() as int) =~= s);
    } else {
        assert(s.subrange(0, k + 1).drop_last() =~= s.subrange(0, k));
        assert(s.subrange(0, k + 1).last() == s[k]);
        lemma_digits_val_nonneg(s.subrange(0, k));
        lemma_digits_val_prefix(s, k + 1);
    }
}

pub proof fn lemma_string_end_bounds(input: Seq<char>, pos: int, escape: bool)
    requires
        0 <= pos < input.len(),
    ensures
        pos <= spec_string_end(input, pos, escape) < input.len(),
    decreases input.len() - pos,
{
    if pos + 1 < input.len() {
        if input[pos + 1] == '\\' && !escape {
            lemma_string_end_bounds(input, pos + 1, true);
        } else if input[pos + 1] == '"' && !escape {
        } else {
            lemma_string_end_bounds(input, pos + 1, false);
        }
    }
}

pub proof fn lemma_skip_spaces_bounds(input: Seq<char>, pos: int)
    requires
        0 <= pos <= input.len(),
    ensures
        pos <= spec_skip_spaces(input, pos) <= input.len(),
        spec_skip_spaces(input, pos) < input.len() ==> input[spec_skip_spaces(input, pos)] != ' ',
        forall|j: int| pos <= j < spec_skip_spaces(input, pos) ==> input[j] == ' ',
    decreases input.len() - pos,
{
    if pos < input.len() && input[pos] == ' ' {
        lemma_skip_spaces_bounds(input, pos + 1);
    }
}

pub proof fn lemma_ident_end_bounds(input: Seq<char>, pos: int)
    requires
        0 <= pos <= input.len(),
    ensures
        pos <= spec_ident_end(input, pos) <= input.len(),
        spec_ident_end(input, pos) < input.len() ==> !(is_letter_char(
            input[spec_ident_end(input, pos)],
        ) || is_digit_char(input[spec_ident_end(input, pos)])),
        forall|j: int|
            pos <= j < spec_ident_end(input, pos) ==> (is_letter_char(input[j]) || is_digit_char(
                input[j],
            )),
    decreases input.len() - pos,
{
    if pos < input.len() && (is_letter_char(input[pos]) || is_digit_char(input[pos])) {
        lemma_ident_end_bounds(input, pos + 1);
    }
}

pub proof fn lemma_digits_end_bounds(input: Seq<char>, pos: int)
    requires
        0 <= pos <= input.len(),
    ensures
        pos <= spec_digits_end(input, pos) <= input.len(),
        spec_digits_end(input, pos) < input.len() ==> !is_digit_char(
            input[spec_digits_end(input, pos)],
        ),
        forall|j: int| pos <= j < spec_digits_end(input, pos) ==> is_digit_char(input[j]),
    decreases input.len() - pos,
{
    if pos < input.len() && is_digit_char(input[pos]) {
        lemma_digits_end_bounds(input, pos + 1);
    }
}

// ---------------------------------------------------------------------------
// Laws of the scan
// ---------------------------------------------------------------------------

/// Every token from `pos` to the end of the input, the final `EOF` included;
/// nothing when the scan aborts on an integer literal out of 32-bit range.
pub open spec fn spec_scan_all(input: Seq<char>, pos: int) -> Option<Seq<TokenModel>>
    decreases input.len() - pos
        when 0 <= pos <= input.len()
        via spec_scan_all_decreases
{
    let step = spec_next_token(input, pos);
    match step.0 {
        Option::None => Option::None,
        Option::Some(tok) => {
            if tok == TokenModel::EOF {
                Option::Some(seq![tok])
            } else {
                match spec_scan_all(input, step.1) {
                    Option::None => Option::None,
                    Option::Some(rest) => Option::Some(seq![tok] + rest),
                }
            }
        },
    }
}

#[via_fn]
proof fn spec_scan_all_decreases(input: Seq<char>, pos: int) {
    lemma_next_token_advances(input, pos);
}

/// Law: a scan step never moves the cursor backwards or past the end, it
/// produces `EOF` exactly when only spaces remain, and any other outcome
/// consumes at least one character. Repeated steps therefore reach the end
/// of the input.
pub proof fn lemma_next_token_advances(input: Seq<char>, pos: int)
    requires
        0 <= pos <= input.len(),
    ensures
        pos <= spec_next_token(input, pos).1 <= input.len(),
        (spec_next_token(input, pos).0 == Option::Some(TokenModel::EOF)) == (spec_skip_spaces(
            input,
            pos,
        ) == input.len()),
        spec_next_token(input, pos).0 != Option::Some(TokenModel::EOF) ==> spec_next_token(
            input,
            pos,
        ).1 > pos,
{
    let p = spec_skip_spaces(input, pos);
    lemma_skip_spaces_bounds(input, pos);
    if p < input.len() {
        lemma_string_end_bounds(input, p, false);
        lemma_ident_end_bounds(input, p);
        lemma_ident_end_bounds(input, p + 1);
        lemma_digits_end_bounds(input, p);
        lemma_digits_end_bounds(input, p + 1);
        let e1 = spec_digits_end(input, p);
        if e1 < input.len() && input[e1] == '.' && e1 + 1 < input.len() && is_digit_char(
            input[e1 + 1],
        ) {
            lemma_digits_end_bounds(input, e1 + 1);
        }
    }
}

/// Law: once a step has produced `EOF` the cursor stands at the end of the
/// input, and from there every further step produces `EOF` again without
/// moving — requesting more tokens after the first `EOF` is idempotent.
pub proof fn lemma_end_of_input_stable(input: Seq<char>, pos: int)
    requires
        0 <= pos <= input.len(),
        spec_next_token(input, pos).0 == Option::Some(TokenModel::EOF),
    ensures
        spec_next_token(input, pos).1 == input.len(),
        spec_next_token(input, input.len() as int) == (
            Option::Some(TokenModel::EOF),
            input.len() as int,
        ),
{
    lemma_next_token_advances(input, pos);
    lemma_skip_spaces_bounds(input, input.len() as int);
}

/// A character the scanner recognizes: skippable space, letter, digit, or a
/// character that begins an operator, a comparison, or a string literal.
pub open spec fn recognized_char(c: char) -> bool {
    c == ' ' || is_letter_char(c) || is_digit_char(c) || c == ':' || c == '+' || c == '-' || c
        == '/' || c == '*' || c == '%' || c == '"' || c == '=' || c == '!'
}

/// Law: a scan step over recognized characters never produces an `Illegal`
/// token.
pub proof fn lemma_recognized_step_not_illegal(input: Seq<char>, pos: int)
    requires
        0 <= pos <= input.len(),
        forall|j: int| 0 <= j < input.len() ==> recognized_char(input[j]),
    ensures
        !(spec_next_token(input, pos).0 matches Option::Some(TokenModel::Illegal(_))),
{
    lemma_skip_spaces_bounds(input, pos);
}

/// Law: on input made only of recognized characters, a scan that runs to
/// completion never yields an `Illegal` token, and its final token is `EOF`.
/// The one case left out by the premise on `spec_scan_all` is the fatal
/// abort on an integer literal out of 32-bit range, which produces no token
/// sequence at all.
pub proof fn lemma_recognized_scan(input: Seq<char>, pos: int)
    requires
        0 <= pos <= input.len(),
        forall|j: int| 0 <= j < input.len() ==> recognized_char(input[j]),
        spec_scan_all(input, pos) is Some,
    ensures
        spec_scan_all(input, pos)->Some_0.len() > 0,
        spec_scan_all(input, pos)->Some_0.last() == TokenModel::EOF,
        forall|i: int|
            0 <= i < spec_scan_all(input, pos)->Some_0.len() ==> !((#[trigger] spec_scan_all(
                input,
                pos,
            )->Some_0[i]) matches TokenModel::Illegal(_)),
    decreases input.len() - pos,
{
    lemma_next_token_advances(input, pos);
    lemma_recognized_step_not_illegal(input, pos);
    let step = spec_next_token(input, pos);
    if let Option::Some(tok) = step.0 {
        if tok != TokenModel::EOF {
            lemma_recognized_scan(input, step.1);
        }
    }
}

/// Law: a tab or a newline reached as the start of a token is not skipped as
/// whitespace; the step surfaces it as an `Illegal` token carrying that very
/// character and consumes it.
pub proof fn lemma_tab_newline_illegal(input: Seq<char>, pos: int)
    requires
        0 <= pos <= input.len(),
        spec_skip_spaces(input, pos) < input.len(),
        input[spec_skip_spaces(input, pos)] == '\t' || input[spec_skip_spaces(input, pos)]
            == '\n',
    ensures
        spec_next_token(input, pos).0 == Option::Some(
            TokenModel::Illegal(input[spec_skip_spaces(input, pos)]),
        ),
        spec_next_token(input, pos).1 == spec_skip_spaces(input, pos) + 1,
{
    lemma_skip_spaces_bounds(input, pos);
}

} // verus!
