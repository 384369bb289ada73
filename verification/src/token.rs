use vstd::prelude::*;
use crate::text::{
    alphabetic, char_is_alphabetic, char_is_ascii_digit, char_is_whitespace, is_digit,
    is_white_space,
};

verus! {

// ---------------------------------------------------------------------------
// Tokens and errors
// ---------------------------------------------------------------------------

/// A token of a command line, as the lexer sees it.
pub enum SpecToken {
    Word(Seq<char>),
    Number(u16),
    Char(char),
    Str(Seq<char>),
    LeftBracket,
    RightBracket,
    Comma,
    Equal,
}

/// A token of a command line.
#[derive(Debug, PartialEq, Eq)]
pub enum Token {
    Word(Vec<char>),
    Number(u16),
    Char(char),
    StringLiteral(Vec<char>),
    LeftBracket,
    RightBracket,
    Comma,
    Equal,
}

impl View for Token {
    type V = SpecToken;

    open spec fn view(&self) -> SpecToken {
        match self {
            Token::Word(w) => SpecToken::Word(w@),
            Token::Number(n) => SpecToken::Number(*n),
            Token::Char(c) => SpecToken::Char(*c),
            Token::StringLiteral(s) => SpecToken::Str(s@),
            Token::LeftBracket => SpecToken::LeftBracket,
            Token::RightBracket => SpecToken::RightBracket,
            Token::Comma => SpecToken::Comma,
            Token::Equal => SpecToken::Equal,
        }
    }
}

/// The parameter list a command accepts.
#[derive(Debug, Copy, Clone, PartialEq, Eq)]
pub enum Signature {
    /// `x, y, glyph, fg_color, bg_color`
    Draw,
    /// no parameters
    Bare,
}

/// Why a command line is rejected, as the contracts speak of it.
pub enum SpecParseError {
    NumberTooLarge(Seq<char>),
    MissingCharAfterQuote,
    MissingEscapedChar,
    InvalidCharEscape(char),
    UnterminatedChar,
    CharNotClosed(char),
    InvalidStringEscape(char),
    UnterminatedString,
    UnexpectedChar(char),
    MissingOpenParen,
    ExpectedOpenParen,
    MissingCloseParen,
    UnknownArgument(Seq<char>, Signature),
    MissingEqual,
    ExpectedEqual(SpecToken),
    MissingValue,
    TooManyPositional(nat),
    PositionalAfterKeyword,
    InvalidX,
    InvalidY,
    MissingGlyph,
    InvalidGlyph,
    InvalidFgColor,
    InvalidBgColor,
    UnknownCommand(Seq<char>),
}

/// Why a command line is rejected.
#[derive(Debug, PartialEq, Eq)]
pub enum ParseError {
    /// A number with more than `u16` can hold; its digits.
    NumberTooLarge(Vec<char>),
    /// A `'` at the end of the line.
    MissingCharAfterQuote,
    /// A `\` at the end of the line, inside a literal.
    MissingEscapedChar,
    /// A `\` followed by a character other than `\` or `'` in a character literal.
    InvalidCharEscape(char),
    /// A character literal cut off by the end of the line.
    UnterminatedChar,
    /// A character literal closed by this character instead of `'`.
    CharNotClosed(char),
    /// A `\` followed by a character other than `\` or `"` in a string literal.
    InvalidStringEscape(char),
    /// A string literal cut off by the end of the line.
    UnterminatedString,
    /// A character that starts no token.
    UnexpectedChar(char),
    /// The line ends after the command name.
    MissingOpenParen,
    /// The command name is followed by a token other than `(`.
    ExpectedOpenParen,
    /// The argument list is not closed.
    MissingCloseParen,
    /// A named argument that the command does not have.
    UnknownArgument(Vec<char>, Signature),
    /// The line ends after an argument name.
    MissingEqual,
    /// An argument name is followed by this token instead of `=`.
    ExpectedEqual(Token),
    /// The line ends after `name =`.
    MissingValue,
    /// More positional arguments than the command has parameters; their number.
    TooManyPositional(usize),
    /// A positional argument after a named one.
    PositionalAfterKeyword,
    InvalidX,
    InvalidY,
    MissingGlyph,
    InvalidGlyph,
    InvalidFgColor,
    InvalidBgColor,
    /// The first word of the line names no command.
    UnknownCommand(Vec<char>),
}

impl View for ParseError {
    type V = SpecParseError;

    open spec fn view(&self) -> SpecParseError {
        match self {
            ParseError::NumberTooLarge(d) => SpecParseError::NumberTooLarge(d@),
            ParseError::MissingCharAfterQuote => SpecParseError::MissingCharAfterQuote,
            ParseError::MissingEscapedChar => SpecParseError::MissingEscapedChar,
            ParseError::InvalidCharEscape(c) => SpecParseError::InvalidCharEscape(*c),
            ParseError::UnterminatedChar => SpecParseError::UnterminatedChar,
            ParseError::CharNotClosed(c) => SpecParseError::CharNotClosed(*c),
            ParseError::InvalidStringEscape(c) => SpecParseError::InvalidStringEscape(*c),
            ParseError::UnterminatedString => SpecParseError::UnterminatedString,
            ParseError::UnexpectedChar(c) => SpecParseError::UnexpectedChar(*c),
            ParseError::MissingOpenParen => SpecParseError::MissingOpenParen,
            ParseError::ExpectedOpenParen => SpecParseError::ExpectedOpenParen,
            ParseError::MissingCloseParen => SpecParseError::MissingCloseParen,
            ParseError::UnknownArgument(n, s) => SpecParseError::UnknownArgument(n@, *s),
            ParseError::MissingEqual => SpecParseError::MissingEqual,
            ParseError::ExpectedEqual(t) => SpecParseError::ExpectedEqual(t@),
            ParseError::MissingValue => SpecParseError::MissingValue,
            ParseError::TooManyPositional(n) => SpecParseError::TooManyPositional(*n as nat),
            ParseError::PositionalAfterKeyword => SpecParseError::PositionalAfterKeyword,
            ParseError::InvalidX => SpecParseError::InvalidX,
            ParseError::InvalidY => SpecParseError::InvalidY,
            ParseError::MissingGlyph => SpecParseError::MissingGlyph,
            ParseError::InvalidGlyph => SpecParseError::InvalidGlyph,
            ParseError::InvalidFgColor => SpecParseError::InvalidFgColor,
            ParseError::InvalidBgColor => SpecParseError::InvalidBgColor,
            ParseError::UnknownCommand(w) => SpecParseError::UnknownCommand(w@),
        }
    }
}

// ---------------------------------------------------------------------------
// The lexer, as a function of the line and a position in it
// ---------------------------------------------------------------------------

/// The first position at or after `i` that holds no white space.
pub open spec fn skip_ws(s: Seq<char>, i: int) -> int
    decreases s.len() - i,
{
    if 0 <= i < s.len() && is_white_space(s[i]) {
        skip_ws(s, i + 1)
    } else {
        i
    }
}

/// The end of the run of ASCII digits that starts at `i`.
pub open spec fn digits_end(s: Seq<char>, i: int) -> int
    decreases s.len() - i,
{
    if 0 <= i < s.len() && is_digit(s[i]) {
        digits_end(s, i + 1)
    } else {
        i
    }
}

/// A character that may continue a word.
pub open spec fn is_word_char(c: char) -> bool {
    alphabetic(c) || c == '_'
}

/// The end of the run of word characters that starts at `i`.
pub open spec fn word_end(s: Seq<char>, i: int) -> int
    decreases s.len() - i,
{
    if 0 <= i < s.len() && is_word_char(s[i]) {
        word_end(s, i + 1)
    } else {
        i
    }
}

/// The number that a run of ASCII digits denotes in decimal.
pub open spec fn decimal_value(d: Seq<char>) -> nat
    decreases d.len(),
{
    if d.len() == 0 {
        0
    } else {
        decimal_value(d.drop_last()) * 10 + ((d.last() as nat) - ('0' as nat)) as nat
    }
}

/// Lexes the number whose first digit stands at `i`.
pub open spec fn lex_number(s: Seq<char>, i: int) -> Result<(SpecToken, int), SpecParseError> {
    let j = digits_end(s, i);
    let d = s.subrange(i, j);
    if decimal_value(d) <= u16::MAX {
        Ok((SpecToken::Number(decimal_value(d) as u16), j))
    } else {
        Err(SpecParseError::NumberTooLarge(d))
    }
}

/// Lexes the character literal whose opening `'` stands at `i`.
pub open spec fn lex_char(s: Seq<char>, i: int) -> Result<(SpecToken, int), SpecParseError> {
    let j = i + 1;
    if j >= s.len() {
        Err(SpecParseError::MissingCharAfterQuote)
    } else {
        let first = s[j];
        let decoded: Result<(char, int), SpecParseError> = if first == '\\' {
            if j + 1 >= s.len() {
                Err(SpecParseError::MissingEscapedChar)
            } else if s[j + 1] == '\\' || s[j + 1] == '\'' {
                Ok((s[j + 1], j + 2))
            } else {
                Err(SpecParseError::InvalidCharEscape(s[j + 1]))
            }
        } else {
            Ok((first, j + 1))
        };
        match decoded {
            Err(e) => Err(e),
            Ok((c, k)) => if k >= s.len() {
                Err(SpecParseError::UnterminatedChar)
            } else if s[k] != '\'' {
                Err(SpecParseError::CharNotClosed(s[k]))
            } else {
                Ok((SpecToken::Char(c), k + 1))
            },
        }
    }
}

/// Lexes the rest of a string literal from position `j`, `acc` being the
/// characters read so far; gives the whole content and the position after
/// the closing `"`.
pub open spec fn lex_str_from(s: Seq<char>, j: int, acc: Seq<char>) -> Result<
    (Seq<char>, int),
    SpecParseError,
>
    decreases s.len() - j,
{
    if j < 0 || j >= s.len() {
        Err(SpecParseError::UnterminatedString)
    } else if s[j] == '"' {
        Ok((acc, j + 1))
    } else if s[j] == '\\' {
        if j + 1 >= s.len() {
            Err(SpecParseError::MissingEscapedChar)
        } else if s[j + 1] == '\\' || s[j + 1] == '"' {
            lex_str_from(s, j + 2, acc.push(s[j + 1]))
        } else {
            Err(SpecParseError::InvalidStringEscape(s[j + 1]))
        }
    } else {
        lex_str_from(s, j + 1, acc.push(s[j]))
    }
}

/// Lexes the string literal whose opening `"` stands at `i`.
pub open spec fn lex_string(s: Seq<char>, i: int) -> Result<(SpecToken, int), SpecParseError> {
    match lex_str_from(s, i + 1, Seq::empty()) {
        Ok((v, k)) => Ok((SpecToken::Str(v), k)),
        Err(e) => Err(e),
    }
}

/// The token that starts at the first non-blank position at or after `i`,
/// with the position after it; `None` where only white space is left.
pub open spec fn lex(s: Seq<char>, i: int) -> Option<Result<(SpecToken, int), SpecParseError>> {
    let p = skip_ws(s, i);
    if p >= s.len() {
        None
    } else {
        let c = s[p];
        Some(
            if c == '(' {
                Ok((SpecToken::LeftBracket, p + 1))
            } else if c == ')' {
                Ok((SpecToken::RightBracket, p + 1))
            } else if c == ',' {
                Ok((SpecToken::Comma, p + 1))
            } else if c == '=' {
                Ok((SpecToken::Equal, p + 1))
            } else if c == '\'' {
                lex_char(s, p)
            } else if c == '"' {
                lex_string(s, p)
            } else if is_digit(c) {
                lex_number(s, p)
            } else if alphabetic(c) {
                Ok((SpecToken::Word(s.subrange(p, word_end(s, p))), word_end(s, p)))
            } else {
                Err(SpecParseError::UnexpectedChar(c))
            },
        )
    }
}

// ---------------------------------------------------------------------------
// Where the lexer stops
// ---------------------------------------------------------------------------

/// Where reading the character literal whose `'` stands at `i` stops,
/// whether it succeeds or fails: after the last character it took.
pub open spec fn char_end(s: Seq<char>, i: int) -> int {
    let j = i + 1;
    if j >= s.len() {
        s.len() as int
    } else if s[j] == '\\' {
        if j + 1 >= s.len() {
            s.len() as int
        } else if s[j + 1] == '\\' || s[j + 1] == '\'' {
            if j + 2 >= s.len() {
                s.len() as int
            } else {
                j + 3
            }
        } else {
            j + 2
        }
    } else if j + 1 >= s.len() {
        s.len() as int
    } else {
        j + 2
    }
}

/// Where reading the rest of a string literal from `j` stops, whether it
/// succeeds or fails: after the last character it took.
pub open spec fn str_end(s: Seq<char>, j: int) -> int
    decreases s.len() - j,
{
    if j < 0 || j >= s.len() {
        s.len() as int
    } else if s[j] == '"' {
        j + 1
    } else if s[j] == '\\' {
        if j + 1 >= s.len() {
            s.len() as int
        } else if s[j + 1] == '\\' || s[j + 1] == '"' {
            str_end(s, j + 2)
        } else {
            j + 2
        }
    } else {
        str_end(s, j + 1)
    }
}

/// Where reading a token from `i` stops, whether it succeeds or fails: a
/// number takes all its digits even when too large, a literal takes the
/// characters up to the one that ends or breaks it, and a character that
/// starts no token is not taken.
pub open spec fn lex_end(s: Seq<char>, i: int) -> int {
    let p = skip_ws(s, i);
    if p >= s.len() {
        s.len() as int
    } else {
        let c = s[p];
        if c == '(' || c == ')' || c == ',' || c == '=' {
            p + 1
        } else if c == '\'' {
            char_end(s, p)
        } else if c == '"' {
            str_end(s, p + 1)
        } else if is_digit(c) {
            digits_end(s, p)
        } else if alphabetic(c) {
            word_end(s, p)
        } else {
            p
        }
    }
}

// ---------------------------------------------------------------------------
// Facts about the lexer
// ---------------------------------------------------------------------------

/// Skipping white space stops within the line, after blanks only, and at
/// a character that is not white space (or the end).
pub proof fn lemma_skip_ws(s: Seq<char>, i: int)
    requires
        0 <= i <= s.len(),
    ensures
        i <= skip_ws(s, i) <= s.len(),
        forall|k: int| i <= k < skip_ws(s, i) ==> is_white_space(s[k]),
        skip_ws(s, i) < s.len() ==> !is_white_space(s[skip_ws(s, i)]),
    decreases s.len() - i,
{
    if i < s.len() && is_white_space(s[i]) {
        lemma_skip_ws(s, i + 1);
    }
}

proof fn lemma_digits_end(s: Seq<char>, i: int)
    requires
        0 <= i <= s.len(),
    ensures
        i <= digits_end(s, i) <= s.len(),
        forall|k: int| i <= k < digits_end(s, i) ==> is_digit(s[k]),
        digits_end(s, i) < s.len() ==> !is_digit(s[digits_end(s, i)]),
    decreases s.len() - i,
{
    if i < s.len() && is_digit(s[i]) {
        lemma_digits_end(s, i + 1);
    }
}

proof fn lemma_word_end(s: Seq<char>, i: int)
    requires
        0 <= i <= s.len(),
    ensures
        i <= word_end(s, i) <= s.len(),
        forall|k: int| i <= k < word_end(s, i) ==> is_word_char(s[k]),
        word_end(s, i) < s.len() ==> !is_word_char(s[word_end(s, i)]),
    decreases s.len() - i,
{
    if i < s.len() && is_word_char(s[i]) {
        lemma_word_end(s, i + 1);
    }
}

proof fn lemma_lex_str_from(s: Seq<char>, j: int, acc: Seq<char>)
    requires
        0 <= j,
    ensures
        lex_str_from(s, j, acc) matches Ok((_, k)) ==> j < k <= s.len(),
    decreases s.len() - j,
{
    if 0 <= j < s.len() && s[j] != '"' {
        if s[j] == '\\' {
            if j + 1 < s.len() && (s[j + 1] == '\\' || s[j + 1] == '"') {
                lemma_lex_str_from(s, j + 2, acc.push(s[j + 1]));
            }
        } else {
            lemma_lex_str_from(s, j + 1, acc.push(s[j]));
        }
    }
}

/// Each token the lexer gives ends after the position it started from and
/// within the line.
pub proof fn lemma_lex_progress(s: Seq<char>, i: int)
    requires
        0 <= i <= s.len(),
    ensures
        lex(s, i) matches Some(Ok((_, k))) ==> i < k <= s.len(),
        lex(s, i) is None ==> skip_ws(s, i) == s.len(),
{
    lemma_skip_ws(s, i);
    let p = skip_ws(s, i);
    if p < s.len() {
        lemma_digits_end(s, p);
        lemma_word_end(s, p);
        lemma_lex_str_from(s, p + 1, Seq::empty());
        if is_digit(s[p]) {
            assert(digits_end(s, p) > p) by {
                assert(digits_end(s, p) == digits_end(s, p + 1));
                lemma_digits_end(s, p + 1);
            }
        }
        if alphabetic(s[p]) {
            assert(word_end(s, p) > p) by {
                assert(word_end(s, p) == word_end(s, p + 1));
                lemma_word_end(s, p + 1);
            }
        }
    }
}

// ---------------------------------------------------------------------------
// Laws of literals
// ---------------------------------------------------------------------------

/// The character literal for `c`: `c` between single quotes, a backslash or
/// a single quote written after a backslash.
pub open spec fn char_quoted(c: char) -> Seq<char> {
    if c == '\\' || c == '\'' {
        seq!['\'', '\\', c, '\'']
    } else {
        seq!['\'', c, '\'']
    }
}

/// The body of the string literal for `s`: each backslash and each double
/// quote written after a backslash.
pub open spec fn escaped(s: Seq<char>) -> Seq<char>
    decreases s.len(),
{
    if s.len() == 0 {
        seq![]
    } else {
        (if s[0] == '\\' || s[0] == '"' {
            seq!['\\', s[0]]
        } else {
            seq![s[0]]
        }) + escaped(s.drop_first())
    }
}

/// The string literal for `s`.
pub open spec fn string_quoted(s: Seq<char>) -> Seq<char> {
    seq!['"'] + escaped(s) + seq!['"']
}

/// A character literal reads back as the character it was written for,
/// whatever follows it.
pub proof fn lemma_char_literal_round_trip(c: char, tail: Seq<char>)
    ensures
        lex(char_quoted(c) + tail, 0) == Some(
            Ok::<(SpecToken, int), SpecParseError>(
                (SpecToken::Char(c), char_quoted(c).len() as int),
            ),
        ),
{
    let s = char_quoted(c) + tail;
    assert(s[0] == '\'');
    assert(skip_ws(s, 0) == 0);
    if c == '\\' || c == '\'' {
        assert(s[1] == '\\' && s[2] == c && s[3] == '\'');
    } else {
        assert(s[1] == c && s[2] == '\'');
    }
}

proof fn lemma_str_body(pre: Seq<char>, s: Seq<char>, tail: Seq<char>, acc: Seq<char>)
    ensures
        lex_str_from(pre + escaped(s) + seq!['"'] + tail, pre.len() as int, acc) == Ok::<
            (Seq<char>, int),
            SpecParseError,
        >((acc + s, (pre.len() + escaped(s).len() + 1) as int)),
    decreases s.len(),
{
    let line = pre + escaped(s) + seq!['"'] + tail;
    let j = pre.len() as int;
    if s.len() == 0 {
        assert(escaped(s) =~= Seq::<char>::empty());
        assert(line[j] == '"');
        assert(acc + s =~= acc);
    } else {
        let c = s[0];
        let rest = s.drop_first();
        if c == '\\' || c == '"' {
            let pre2 = pre + seq!['\\', c];
            assert(line =~= pre2 + escaped(rest) + seq!['"'] + tail);
            assert(line[j] == '\\' && line[j + 1] == c);
            lemma_str_body(pre2, rest, tail, acc.push(c));
            assert(acc.push(c) + rest =~= acc + s);
        } else {
            let pre2 = pre + seq![c];
            assert(line =~= pre2 + escaped(rest) + seq!['"'] + tail);
            assert(line[j] == c);
            lemma_str_body(pre2, rest, tail, acc.push(c));
            assert(acc.push(c) + rest =~= acc + s);
        }
    }
}

/// A string literal reads back as the string it was written for, whatever
/// follows it.
pub proof fn lemma_string_literal_round_trip(s: Seq<char>, tail: Seq<char>)
    ensures
        lex(string_quoted(s) + tail, 0) == Some(
            Ok::<(SpecToken, int), SpecParseError>(
                (SpecToken::Str(s), string_quoted(s).len() as int),
            ),
        ),
{
    let line = string_quoted(s) + tail;
    assert(line =~= seq!['"'] + escaped(s) + seq!['"'] + tail);
    assert(line[0] == '"');
    assert(skip_ws(line, 0) == 0);
    lemma_str_body(seq!['"'], s, tail, Seq::empty());
    assert(Seq::<char>::empty() + s =~= s);
}

/// A decimal digit: one of the characters `'0'` to `'9'`, by code.
pub open spec fn decimal_digit(c: char) -> bool {
    48 <= (c as u32) && (c as u32) <= 57
}

proof fn lemma_decimal_digit(c: char)
    ensures
        decimal_digit(c) <==> is_digit(c),
{
}

proof fn lemma_digit_run(d: Seq<char>, tail: Seq<char>, i: int)
    requires
        0 <= i <= d.len(),
        forall|k: int| 0 <= k < d.len() ==> decimal_digit(#[trigger] d[k]),
        tail.len() == 0 || !decimal_digit(tail[0]),
    ensures
        digits_end(d + tail, i) == d.len(),
    decreases d.len() - i,
{
    let s = d + tail;
    if i < d.len() {
        assert(s[i] == d[i]);
        lemma_decimal_digit(d[i]);
        lemma_digit_run(d, tail, i + 1);
    } else if tail.len() > 0 {
        assert(s[i] == tail[0]);
        lemma_decimal_digit(tail[0]);
    } else {
        assert(i == s.len());
    }
}

/// A run of decimal digits reads as one number: its digits, whatever
/// follows them (so long as it is not another digit), give a number token
/// of their decimal value, or the error for a number too large.
pub proof fn lemma_number_round_trip(d: Seq<char>, tail: Seq<char>)
    requires
        d.len() > 0,
        forall|k: int| 0 <= k < d.len() ==> decimal_digit(#[trigger] d[k]),
        tail.len() == 0 || !decimal_digit(tail[0]),
    ensures
        decimal_value(d) <= u16::MAX ==> lex(d + tail, 0) == Some(
            Ok::<(SpecToken, int), SpecParseError>(
                (SpecToken::Number(decimal_value(d) as u16), d.len() as int),
            ),
        ),
        decimal_value(d) > u16::MAX ==> lex(d + tail, 0) == Some(
            Err::<(SpecToken, int), SpecParseError>(SpecParseError::NumberTooLarge(d)),
        ),
{
    let s = d + tail;
    assert(s[0] == d[0]);
    lemma_decimal_digit(d[0]);
    assert(skip_ws(s, 0) == 0);
    lemma_digit_run(d, tail, 0);
    assert(s.subrange(0, d.len() as int) =~= d);
}

/// The value of a numeral is its digits' values in base ten: the last digit
/// counts its code less that of `'0'`, each one before ten times more.
pub proof fn lemma_decimal_value_digits(d: Seq<char>, c: char)
    requires
        decimal_digit(c),
    ensures
        decimal_value(d.push(c)) == 10 * decimal_value(d) + ((c as u32) - 48),
        decimal_value(seq![c]) == (c as u32) - 48,
{
    assert(d.push(c).drop_last() =~= d);
    assert(seq![c].drop_last() =~= Seq::<char>::empty());
    assert(decimal_value(Seq::<char>::empty()) == 0);
}

// ---------------------------------------------------------------------------
// The lexer
// ---------------------------------------------------------------------------

/// A cursor over the characters of one command line.
pub struct Tokenizer {
    chars: Vec<char>,
    pos: usize,
}

impl Tokenizer {
    /// The characters of the line.
    pub closed spec fn text(&self) -> Seq<char> {
        self.chars@
    }

    /// The position of the next character to read.
    pub closed spec fn position(&self) -> int {
        self.pos as int
    }

    pub open spec fn wf(&self) -> bool {
        0 <= self.position() <= self.text().len()
    }

    /// A cursor at the start of `input`.
    pub fn new(input: &str) -> (t: Self)
        ensures
            t.wf(),
            t.text() == input@,
            t.position() == 0,
    {
        Tokenizer { chars: crate::text::chars_of(input), pos: 0 }
    }

    fn skip_whitespace(&mut self)
        requires
            old(self).wf(),
        ensures
            final(self).wf(),
            final(self).chars@ == old(self).chars@,
            final(self).pos == skip_ws(old(self).chars@, old(self).pos as int),
    {
        let ghost start = self.pos as int;
        while self.pos < self.chars.len() && char_is_whitespace(self.chars[self.pos])
            invariant
                self.pos <= self.chars@.len(),
                self.chars@ == old(self).chars@,
                skip_ws(self.chars@, self.pos as int) == skip_ws(self.chars@, start),
            decreases self.chars@.len() - self.pos,
        {
            self.pos = self.pos + 1;
        }
    }

    fn read_number(&mut self) -> (r: Result<Token, ParseError>)
        requires
            old(self).wf(),
            old(self).pos < old(self).chars@.len(),
            is_digit(old(self).chars@[old(self).pos as int]),
        ensures
            final(self).wf(),
            final(self).chars@ == old(self).chars@,
            final(self).pos == digits_end(old(self).chars@, old(self).pos as int),
            match lex_number(old(self).chars@, old(self).pos as int) {
                Ok((t, j)) => r matches Ok(t2) && t2@ == t && final(self).pos == j,
                Err(e) => r matches Err(e2) && e2@ == e,
            },
    {
        let ghost s = self.chars@;
        let start = self.pos;
        let mut digits: Vec<char> = Vec::new();
        let mut value: u32 = 0;
        let mut too_large = false;
        while self.pos < self.chars.len() && char_is_ascii_digit(self.chars[self.pos])
            invariant
                self.chars@ == s,
                start <= self.pos <= s.len(),
                digits@ == s.subrange(start as int, self.pos as int),
                digits_end(s, self.pos as int) == digits_end(s, start as int),
                !too_large ==> value == decimal_value(digits@) && value <= u16::MAX,
                too_large ==> decimal_value(digits@) > u16::MAX,
            decreases s.len() - self.pos,
        {
            let c = self.chars[self.pos];
            let ghost before = digits@;
            digits.push(c);
            assert(digits@.drop_last() =~= before);
            assert(digits@ =~= s.subrange(start as int, self.pos + 1));
            if !too_large {
                let d = (c as u32) - ('0' as u32);
                let next = value * 10 + d;
                if next > 65535 {
                    too_large = true;
                } else {
                    value = next;
                }
            }
            self.pos = self.pos + 1;
        }
        if too_large {
            Err(ParseError::NumberTooLarge(digits))
        } else {
            Ok(Token::Number(value as u16))
        }
    }

    fn read_char_literal(&mut self) -> (r: Result<Token, ParseError>)
        requires
            old(self).wf(),
            old(self).pos < old(self).chars@.len(),
            old(self).chars@[old(self).pos as int] == '\'',
        ensures
            final(self).wf(),
            final(self).chars@ == old(self).chars@,
            final(self).pos == char_end(old(self).chars@, old(self).pos as int),
            match lex_char(old(self).chars@, old(self).pos as int) {
                Ok((t, j)) => r matches Ok(t2) && t2@ == t && final(self).pos == j,
                Err(e) => r matches Err(e2) && e2@ == e,
            },
    {
        let len = self.chars.len();
        let j = self.pos + 1;
        if j >= len {
            self.pos = len;
            return Err(ParseError::MissingCharAfterQuote);
        }
        let first = self.chars[j];
        let mut k = j + 1;
        let c = if first == '\\' {
            if j + 1 >= len {
                self.pos = len;
                return Err(ParseError::MissingEscapedChar);
            }
            let escaped = self.chars[j + 1];
            if escaped == '\\' || escaped == '\'' {
                k = j + 2;
                escaped
            } else {
                self.pos = j + 2;
                return Err(ParseError::InvalidCharEscape(escaped));
            }
        } else {
            first
        };
        if k >= len {
            self.pos = len;
            return Err(ParseError::UnterminatedChar);
        }
        let close = self.chars[k];
        if close != '\'' {
            self.pos = k + 1;
            return Err(ParseError::CharNotClosed(close));
        }
        self.pos = k + 1;
        Ok(Token::Char(c))
    }

    fn read_string_literal(&mut self) -> (r: Result<Token, ParseError>)
        requires
            old(self).wf(),
            old(self).pos < old(self).chars@.len(),
            old(self).chars@[old(self).pos as int] == '"',
        ensures
            final(self).wf(),
            final(self).chars@ == old(self).chars@,
            final(self).pos == str_end(old(self).chars@, old(self).pos + 1),
            match lex_string(old(self).chars@, old(self).pos as int) {
                Ok((t, j)) => r matches Ok(t2) && t2@ == t && final(self).pos == j,
                Err(e) => r matches Err(e2) && e2@ == e,
            },
    {
        let ghost s = self.chars@;
        let start = self.pos;
        let len = self.chars.len();
        assert(start < len);
        self.pos = start + 1;
        let mut content: Vec<char> = Vec::new();
        loop
            invariant
                self.chars@ == s,
                s == old(self).chars@,
                start == old(self).pos,
                start < self.pos <= s.len(),
                lex_str_from(s, self.pos as int, content@) == lex_str_from(
                    s,
                    start + 1,
                    Seq::empty(),
                ),
                str_end(s, self.pos as int) == str_end(s, start + 1),
            decreases s.len() - self.pos,
        {
            if self.pos >= self.chars.len() {
                return Err(ParseError::UnterminatedString);
            }
            let c = self.chars[self.pos];
            if c == '"' {
                self.pos = self.pos + 1;
                return Ok(Token::StringLiteral(content));
            } else if c == '\\' {
                if self.pos + 1 >= self.chars.len() {
                    self.pos = self.chars.len();
                    return Err(ParseError::MissingEscapedChar);
                }
                let escaped = self.chars[self.pos + 1];
                if escaped == '\\' || escaped == '"' {
                    content.push(escaped);
                    self.pos = self.pos + 2;
                } else {
                    self.pos = self.pos + 2;
                    return Err(ParseError::InvalidStringEscape(escaped));
                }
            } else {
                content.push(c);
                self.pos = self.pos + 1;
            }
        }
    }

    fn read_word(&mut self) -> (t: Token)
        requires
            old(self).wf(),
        ensures
            final(self).wf(),
            final(self).chars@ == old(self).chars@,
            final(self).pos == word_end(old(self).chars@, old(self).pos as int),
            t@ == SpecToken::Word(
                old(self).chars@.subrange(old(self).pos as int, final(self).pos as int),
            ),
    {
        let ghost s = self.chars@;
        let start = self.pos;
        let mut word: Vec<char> = Vec::new();
        while self.pos < self.chars.len() && (char_is_alphabetic(self.chars[self.pos])
            || self.chars[self.pos] == '_')
            invariant
                self.chars@ == s,
                start <= self.pos <= s.len(),
                word@ == s.subrange(start as int, self.pos as int),
                word_end(s, self.pos as int) == word_end(s, start as int),
            decreases s.len() - self.pos,
        {
            word.push(self.chars[self.pos]);
            assert(word@ =~= s.subrange(start as int, self.pos + 1));
            self.pos = self.pos + 1;
        }
        Token::Word(word)
    }

    /// Reads the next token: `None` where only white space is left.
    pub fn next_token(&mut self) -> (r: Option<Result<Token, ParseError>>)
        requires
            old(self).wf(),
        ensures
            final(self).wf(),
            final(self).text() == old(self).text(),
            final(self).position() == lex_end(old(self).text(), old(self).position()),
            match lex(old(self).text(), old(self).position()) {
                None => r is None && final(self).position() == old(self).text().len(),
                Some(Err(e)) => r matches Some(Err(e2)) && e2@ == e,
                Some(Ok((t, j))) => r matches Some(Ok(t2)) && t2@ == t && final(self).position()
                    == j,
            },
    {
        proof {
            lemma_skip_ws(self.chars@, self.pos as int);
        }
        self.skip_whitespace();
        if self.pos >= self.chars.len() {
            return None;
        }
        let c = self.chars[self.pos];
        if c == '(' {
            self.pos = self.pos + 1;
            Some(Ok(Token::LeftBracket))
        } else if c == ')' {
            self.pos = self.pos + 1;
            Some(Ok(Token::RightBracket))
        } else if c == ',' {
            self.pos = self.pos + 1;
            Some(Ok(Token::Comma))
        } else if c == '=' {
            self.pos = self.pos + 1;
            Some(Ok(Token::Equal))
        } else if c == '\'' {
            Some(self.read_char_literal())
        } else if c == '"' {
            Some(self.read_string_literal())
        } else if char_is_ascii_digit(c) {
            Some(self.read_number())
        } else if char_is_alphabetic(c) {
            Some(Ok(self.read_word()))
        } else {
            Some(Err(ParseError::UnexpectedChar(c)))
        }
    }
}

} // verus!
