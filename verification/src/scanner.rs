//! The lexical analyser.
//!
//! The scanner walks the UTF-8 bytes of the source character by character,
//! telling a character's length from its leading byte, and hands out one
//! token per call. Every character that means something to the language is
//! ASCII; any other character only occurs inside a string or a comment, or
//! is reported as unexpected.

use vstd::prelude::*;
use vstd::string::{is_ascii, is_ascii_spec_bytes, StringSliceAdditionalSpecFns};
use vstd::utf8::{
    encode_utf8_valid_utf8, is_char_boundary, is_char_boundary_iff_not_is_continuation_byte,
    is_char_boundary_start_end_of_seq, length_of_first_scalar, pop_first_scalar, valid_utf8,
    valid_utf8_split,
};

verus! {

#[derive(Debug, PartialEq, Eq, Copy, Clone, Structural)]
pub enum TokenType {
    LeftParen,
    RightParen,
    LeftBrace,
    RightBrace,
    Comma,
    Dot,
    Minus,
    Plus,
    Semicolon,
    Slash,
    Star,
    // One or two character tokens.
    Bang,
    BangEqual,
    Equal,
    EqualEqual,
    Greater,
    GreaterEqual,
    Less,
    LessEqual,
    // Literals.
    Identifier,
    String,
    Number,
    // Keywords.
    And,
    Class,
    Else,
    False,
    Fun,
    For,
    If,
    Nil,
    Or,
    Print,
    Return,
    Super,
    This,
    True,
    Var,
    While,
    Error,
    Eof,
}

/// A token: its kind, its text and the line it ends on. The text of an error
/// token is the error message; that of any other token is a slice of the
/// source.
#[derive(Debug, Clone, Copy)]
pub struct Token<'a> {
    pub token_type: TokenType,
    pub source: &'a str,
    pub line: usize,
}

// The ASCII codes of the characters that the language knows.
pub const TAB: u8 = 9;

pub const LINE_FEED: u8 = 10;

pub const CARRIAGE_RETURN: u8 = 13;

pub const SPACE: u8 = 32;

pub const BANG: u8 = 33;

pub const QUOTE: u8 = 34;

pub const LEFT_PAREN: u8 = 40;

pub const RIGHT_PAREN: u8 = 41;

pub const STAR: u8 = 42;

pub const PLUS: u8 = 43;

pub const COMMA: u8 = 44;

pub const MINUS: u8 = 45;

pub const DOT: u8 = 46;

pub const SLASH: u8 = 47;

pub const DIGIT_0: u8 = 48;

pub const DIGIT_9: u8 = 57;

pub const SEMICOLON: u8 = 59;

pub const LESS: u8 = 60;

pub const EQUAL: u8 = 61;

pub const GREATER: u8 = 62;

pub const UPPER_A: u8 = 65;

pub const UPPER_Z: u8 = 90;

pub const UNDERSCORE: u8 = 95;

pub const LOWER_A: u8 = 97;

pub const LOWER_Z: u8 = 122;

pub const LOWER_C: u8 = 99;

pub const LOWER_E: u8 = 101;

pub const LOWER_F: u8 = 102;

pub const LOWER_H: u8 = 104;

pub const LOWER_I: u8 = 105;

pub const LOWER_N: u8 = 110;

pub const LOWER_O: u8 = 111;

pub const LOWER_P: u8 = 112;

pub const LOWER_R: u8 = 114;

pub const LOWER_S: u8 = 115;

pub const LOWER_T: u8 = 116;

pub const LOWER_U: u8 = 117;

pub const LOWER_V: u8 = 118;

pub const LOWER_W: u8 = 119;

pub const LEFT_BRACE: u8 = 123;

pub const RIGHT_BRACE: u8 = 125;

/// A decimal digit.
pub open spec fn digit(c: u8) -> bool {
    DIGIT_0 <= c <= DIGIT_9
}

/// A letter or an underscore.
pub open spec fn alpha(c: u8) -> bool {
    LOWER_A <= c <= LOWER_Z || UPPER_A <= c <= UPPER_Z || c == UNDERSCORE
}

/// A character that may continue an identifier.
pub open spec fn alphanumeric(c: u8) -> bool {
    alpha(c) || digit(c)
}

pub fn is_digit(c: u8) -> (result: bool)
    ensures
        result == digit(c),
{
    c >= DIGIT_0 && c <= DIGIT_9
}

pub fn is_alpha(c: u8) -> (result: bool)
    ensures
        result == alpha(c),
{
    c >= LOWER_A && c <= LOWER_Z || c >= UPPER_A && c <= UPPER_Z || c == UNDERSCORE
}

pub fn is_alphanumeric(c: u8) -> (result: bool)
    ensures
        result == alphanumeric(c),
{
    is_alpha(c) || is_digit(c)
}

/// Number of bytes of the character that starts with the byte `lead`.
pub open spec fn char_width(lead: u8) -> int {
    if lead < 0x80 {
        1
    } else if lead < 0xe0 {
        2
    } else if lead < 0xf0 {
        3
    } else {
        4
    }
}

/// In well-formed UTF-8 the character that starts at a boundary ends at the
/// next boundary, inside the text.
pub proof fn lemma_next_boundary(bytes: Seq<u8>, index: int)
    requires
        valid_utf8(bytes),
        is_char_boundary(bytes, index),
        0 <= index < bytes.len(),
    ensures
        index + char_width(bytes[index]) <= bytes.len(),
        is_char_boundary(bytes, index + char_width(bytes[index])),
    decreases bytes.len(),
{
    let first = length_of_first_scalar(bytes);
    let tail = pop_first_scalar(bytes);
    reveal_with_fuel(is_char_boundary, 2);
    if index == 0 {
        assert(first == char_width(bytes[0]));
    } else {
        lemma_next_boundary(tail, index - first);
        assert(tail[index - first] == bytes[index]);
    }
}

/// A position on a character boundary splits off a prefix in which every
/// earlier boundary is still a boundary.
pub proof fn lemma_boundary_in_prefix(bytes: Seq<u8>, start: int, end: int)
    requires
        valid_utf8(bytes),
        is_char_boundary(bytes, start),
        is_char_boundary(bytes, end),
        0 <= start <= end <= bytes.len(),
    ensures
        valid_utf8(bytes.subrange(0, end)),
        is_char_boundary(bytes.subrange(0, end), start),
{
    let prefix = bytes.subrange(0, end);
    valid_utf8_split(bytes, end);
    if start < end {
        is_char_boundary_iff_not_is_continuation_byte(bytes, start);
        assert(prefix[start] == bytes[start]);
        is_char_boundary_iff_not_is_continuation_byte(prefix, start);
    } else {
        is_char_boundary_start_end_of_seq(prefix);
    }
}

/// Where whitespace and line comments that start at `offset` end, and the
/// line reached there. Inside a comment every character up to the next line
/// feed is skipped; the line feed itself is whitespace.
pub open spec fn trivia_end(bytes: Seq<u8>, offset: int, line: int, in_comment: bool) -> (int, int)
    decreases bytes.len() + 4 - offset, (if in_comment { 1int } else { 0int }),
{
    if offset < 0 || offset >= bytes.len() {
        (offset, line)
    } else if in_comment {
        if bytes[offset] == LINE_FEED {
            trivia_end(bytes, offset, line, false)
        } else {
            trivia_end(bytes, offset + char_width(bytes[offset]), line, true)
        }
    } else if bytes[offset] == SPACE || bytes[offset] == CARRIAGE_RETURN || bytes[offset] == TAB {
        trivia_end(bytes, offset + 1, line, false)
    } else if bytes[offset] == LINE_FEED {
        trivia_end(bytes, offset + 1, line + 1, false)
    } else if bytes[offset] == SLASH && offset + 1 < bytes.len() && bytes[offset + 1] == SLASH {
        trivia_end(bytes, offset + 1, line, true)
    } else {
        (offset, line)
    }
}

/// Where the string whose body starts at `offset` meets its closing quote, or
/// the end of the text where there is none, and the line reached there.
pub open spec fn string_end(bytes: Seq<u8>, offset: int, line: int) -> (int, int)
    decreases bytes.len() + 4 - offset,
{
    if offset < 0 || offset >= bytes.len() || bytes[offset] == QUOTE {
        (offset, line)
    } else if bytes[offset] == LINE_FEED {
        string_end(bytes, offset + 1, line + 1)
    } else {
        string_end(bytes, offset + char_width(bytes[offset]), line)
    }
}

/// Where the run of digits that starts at `offset` ends.
pub open spec fn digits_end(bytes: Seq<u8>, offset: int) -> int
    decreases bytes.len() - offset,
{
    if offset < 0 || offset >= bytes.len() || !digit(bytes[offset]) {
        offset
    } else {
        digits_end(bytes, offset + 1)
    }
}

/// Where the number that starts at `offset` ends: digits, then a fraction
/// where a dot is followed by at least one digit.
pub open spec fn number_end(bytes: Seq<u8>, offset: int) -> int {
    let whole = digits_end(bytes, offset);
    if 0 <= whole && whole + 1 < bytes.len() && bytes[whole] == DOT && digit(bytes[whole + 1]) {
        digits_end(bytes, whole + 1)
    } else {
        whole
    }
}

/// Where the run of letters, digits and underscores that starts at `offset`
/// ends.
pub open spec fn identifier_end(bytes: Seq<u8>, offset: int) -> int
    decreases bytes.len() - offset,
{
    if offset < 0 || offset >= bytes.len() || !alphanumeric(bytes[offset]) {
        offset
    } else {
        identifier_end(bytes, offset + 1)
    }
}

/// The kind of an identifier-shaped lexeme: that of the keyword it spells,
/// else `Identifier`.
pub open spec fn identifier_kind(lexeme: Seq<u8>) -> TokenType {
    if lexeme == "and".spec_bytes() {
        TokenType::And
    } else if lexeme == "class".spec_bytes() {
        TokenType::Class
    } else if lexeme == "else".spec_bytes() {
        TokenType::Else
    } else if lexeme == "false".spec_bytes() {
        TokenType::False
    } else if lexeme == "for".spec_bytes() {
        TokenType::For
    } else if lexeme == "fun".spec_bytes() {
        TokenType::Fun
    } else if lexeme == "if".spec_bytes() {
        TokenType::If
    } else if lexeme == "nil".spec_bytes() {
        TokenType::Nil
    } else if lexeme == "or".spec_bytes() {
        TokenType::Or
    } else if lexeme == "print".spec_bytes() {
        TokenType::Print
    } else if lexeme == "return".spec_bytes() {
        TokenType::Return
    } else if lexeme == "super".spec_bytes() {
        TokenType::Super
    } else if lexeme == "this".spec_bytes() {
        TokenType::This
    } else if lexeme == "true".spec_bytes() {
        TokenType::True
    } else if lexeme == "var".spec_bytes() {
        TokenType::Var
    } else if lexeme == "while".spec_bytes() {
        TokenType::While
    } else {
        TokenType::Identifier
    }
}

/// The next character is `=`.
pub open spec fn equals_follows(bytes: Seq<u8>, offset: int) -> bool {
    offset + 1 < bytes.len() && bytes[offset + 1] == EQUAL
}

/// The kind of the punctuation or operator token that starts at `offset`, if
/// one starts there. A `!`, `=`, `<` or `>` takes a following `=` with it.
pub open spec fn operator_kind(bytes: Seq<u8>, offset: int) -> Option<TokenType> {
    let c = bytes[offset];
    let long = equals_follows(bytes, offset);
    if c == LEFT_PAREN {
        Some(TokenType::LeftParen)
    } else if c == RIGHT_PAREN {
        Some(TokenType::RightParen)
    } else if c == LEFT_BRACE {
        Some(TokenType::LeftBrace)
    } else if c == RIGHT_BRACE {
        Some(TokenType::RightBrace)
    } else if c == SEMICOLON {
        Some(TokenType::Semicolon)
    } else if c == COMMA {
        Some(TokenType::Comma)
    } else if c == DOT {
        Some(TokenType::Dot)
    } else if c == MINUS {
        Some(TokenType::Minus)
    } else if c == PLUS {
        Some(TokenType::Plus)
    } else if c == SLASH {
        Some(TokenType::Slash)
    } else if c == STAR {
        Some(TokenType::Star)
    } else if c == BANG {
        Some(if long { TokenType::BangEqual } else { TokenType::Bang })
    } else if c == EQUAL {
        Some(if long { TokenType::EqualEqual } else { TokenType::Equal })
    } else if c == LESS {
        Some(if long { TokenType::LessEqual } else { TokenType::Less })
    } else if c == GREATER {
        Some(if long { TokenType::GreaterEqual } else { TokenType::Greater })
    } else {
        None
    }
}

/// Number of characters of an operator token.
pub open spec fn operator_len(kind: TokenType) -> int {
    match kind {
        TokenType::BangEqual
        | TokenType::EqualEqual
        | TokenType::LessEqual
        | TokenType::GreaterEqual => 2,
        _ => 1,
    }
}

/// What the scanner finds: the kind of a token, the byte range of the source
/// that it covers, and the line on which it ends.
pub struct Lexed {
    pub kind: TokenType,
    pub start: int,
    pub end: int,
    pub line: int,
}

/// The token that starts at `start`, a position inside the text that holds
/// neither whitespace nor the start of a comment.
pub open spec fn token_at(bytes: Seq<u8>, start: int, line: int) -> Lexed {
    let c = bytes[start];
    if let Some(kind) = operator_kind(bytes, start) {
        Lexed { kind, start, end: start + operator_len(kind), line }
    } else if c == QUOTE {
        let (close, last_line) = string_end(bytes, start + 1, line);
        if close >= bytes.len() {
            Lexed { kind: TokenType::Error, start, end: close, line: last_line }
        } else {
            Lexed { kind: TokenType::String, start, end: close + 1, line: last_line }
        }
    } else if digit(c) {
        Lexed { kind: TokenType::Number, start, end: number_end(bytes, start), line }
    } else if alpha(c) {
        let end = identifier_end(bytes, start);
        Lexed { kind: identifier_kind(bytes.subrange(start, end)), start, end, line }
    } else {
        Lexed { kind: TokenType::Error, start, end: start + char_width(c), line }
    }
}

/// The token found by a scanner that stands at `offset` on line `line`.
pub open spec fn next_token(bytes: Seq<u8>, offset: int, line: int) -> Lexed {
    let (start, reached) = trivia_end(bytes, offset, line, false);
    if start >= bytes.len() {
        Lexed { kind: TokenType::Eof, start, end: start, line: reached }
    } else {
        token_at(bytes, start, reached)
    }
}

/// The message of the error token that starts at `start`.
pub open spec fn error_message(bytes: Seq<u8>, start: int) -> Seq<char> {
    if bytes[start] == QUOTE {
        "Unterminated string"@
    } else {
        "Unexpected character"@
    }
}

/// The bytes of a text made of ASCII characters are the codes of its
/// characters.
pub proof fn lemma_ascii_bytes(text: &str, codes: Seq<u8>)
    requires
        is_ascii(text),
        text@.len() == codes.len(),
        forall|i: int| 0 <= i < codes.len() ==> text@[i] as u8 == codes[i],
    ensures
        text.spec_bytes() == codes,
{
    is_ascii_spec_bytes(text);
    assert(text.spec_bytes() =~= codes);
}

proof fn lemma_spelling_of_and()
    ensures
        "and".spec_bytes() == seq![97u8, 110u8, 100u8],
        "and".spec_bytes().len() == 3,
        "and".spec_bytes()[0] == 97,
        "and".spec_bytes()[1] == 110,
{
    reveal_strlit("and");
    assert(is_ascii("and"));
    lemma_ascii_bytes("and", seq![97u8, 110u8, 100u8]);
}

proof fn lemma_spelling_of_class()
    ensures
        "class".spec_bytes() == seq![99u8, 108u8, 97u8, 115u8, 115u8],
        "class".spec_bytes().len() == 5,
        "class".spec_bytes()[0] == 99,
        "class".spec_bytes()[1] == 108,
{
    reveal_strlit("class");
    assert(is_ascii("class"));
    lemma_ascii_bytes("class", seq![99u8, 108u8, 97u8, 115u8, 115u8]);
}

proof fn lemma_spelling_of_else()
    ensures
        "else".spec_bytes() == seq![101u8, 108u8, 115u8, 101u8],
        "else".spec_bytes().len() == 4,
        "else".spec_bytes()[0] == 101,
        "else".spec_bytes()[1] == 108,
{
    reveal_strlit("else");
    assert(is_ascii("else"));
    lemma_ascii_bytes("else", seq![101u8, 108u8, 115u8, 101u8]);
}

proof fn lemma_spelling_of_false()
    ensures
        "false".spec_bytes() == seq![102u8, 97u8, 108u8, 115u8, 101u8],
        "false".spec_bytes().len() == 5,
        "false".spec_bytes()[0] == 102,
        "false".spec_bytes()[1] == 97,
{
    reveal_strlit("false");
    assert(is_ascii("false"));
    lemma_ascii_bytes("false", seq![102u8, 97u8, 108u8, 115u8, 101u8]);
}

proof fn lemma_spelling_of_for()
    ensures
        "for".spec_bytes() == seq![102u8, 111u8, 114u8],
        "for".spec_bytes().len() == 3,
        "for".spec_bytes()[0] == 102,
        "for".spec_bytes()[1] == 111,
{
    reveal_strlit("for");
    assert(is_ascii("for"));
    lemma_ascii_bytes("for", seq![102u8, 111u8, 114u8]);
}

proof fn lemma_spelling_of_fun()
    ensures
        "fun".spec_bytes() == seq![102u8, 117u8, 110u8],
        "fun".spec_bytes().len() == 3,
        "fun".spec_bytes()[0] == 102,
        "fun".spec_bytes()[1] == 117,
{
    reveal_strlit("fun");
    assert(is_ascii("fun"));
    lemma_ascii_bytes("fun", seq![102u8, 117u8, 110u8]);
}

proof fn lemma_spelling_of_if()
    ensures
        "if".spec_bytes() == seq![105u8, 102u8],
        "if".spec_bytes().len() == 2,
        "if".spec_bytes()[0] == 105,
        "if".spec_bytes()[1] == 102,
{
    reveal_strlit("if");
    assert(is_ascii("if"));
    lemma_ascii_bytes("if", seq![105u8, 102u8]);
}

proof fn lemma_spelling_of_nil()
    ensures
        "nil".spec_bytes() == seq![110u8, 105u8, 108u8],
        "nil".spec_bytes().len() == 3,
        "nil".spec_bytes()[0] == 110,
        "nil".spec_bytes()[1] == 105,
{
    reveal_strlit("nil");
    assert(is_ascii("nil"));
    lemma_ascii_bytes("nil", seq![110u8, 105u8, 108u8]);
}

proof fn lemma_spelling_of_or()
    ensures
        "or".spec_bytes() == seq![111u8, 114u8],
        "or".spec_bytes().len() == 2,
        "or".spec_bytes()[0] == 111,
        "or".spec_bytes()[1] == 114,
{
    reveal_strlit("or");
    assert(is_ascii("or"));
    lemma_ascii_bytes("or", seq![111u8, 114u8]);
}

proof fn lemma_spelling_of_print()
    ensures
        "print".spec_bytes() == seq![112u8, 114u8, 105u8, 110u8, 116u8],
        "print".spec_bytes().len() == 5,
        "print".spec_bytes()[0] == 112,
        "print".spec_bytes()[1] == 114,
{
    reveal_strlit("print");
    assert(is_ascii("print"));
    lemma_ascii_bytes("print", seq![112u8, 114u8, 105u8, 110u8, 116u8]);
}

proof fn lemma_spelling_of_return()
    ensures
        "return".spec_bytes() == seq![114u8, 101u8, 116u8, 117u8, 114u8, 110u8],
        "return".spec_bytes().len() == 6,
        "return".spec_bytes()[0] == 114,
        "return".spec_bytes()[1] == 101,
{
    reveal_strlit("return");
    assert(is_ascii("return"));
    lemma_ascii_bytes("return", seq![114u8, 101u8, 116u8, 117u8, 114u8, 110u8]);
}

proof fn lemma_spelling_of_super()
    ensures
        "super".spec_bytes() == seq![115u8, 117u8, 112u8, 101u8, 114u8],
        "super".spec_bytes().len() == 5,
        "super".spec_bytes()[0] == 115,
        "super".spec_bytes()[1] == 117,
{
    reveal_strlit("super");
    assert(is_ascii("super"));
    lemma_ascii_bytes("super", seq![115u8, 117u8, 112u8, 101u8, 114u8]);
}

proof fn lemma_spelling_of_this()
    ensures
        "this".spec_bytes() == seq![116u8, 104u8, 105u8, 115u8],
        "this".spec_bytes().len() == 4,
        "this".spec_bytes()[0] == 116,
        "this".spec_bytes()[1] == 104,
{
    reveal_strlit("this");
    assert(is_ascii("this"));
    lemma_ascii_bytes("this", seq![116u8, 104u8, 105u8, 115u8]);
}

proof fn lemma_spelling_of_true()
    ensures
        "true".spec_bytes() == seq![116u8, 114u8, 117u8, 101u8],
        "true".spec_bytes().len() == 4,
        "true".spec_bytes()[0] == 116,
        "true".spec_bytes()[1] == 114,
{
    reveal_strlit("true");
    assert(is_ascii("true"));
    lemma_ascii_bytes("true", seq![116u8, 114u8, 117u8, 101u8]);
}

proof fn lemma_spelling_of_var()
    ensures
        "var".spec_bytes() == seq![118u8, 97u8, 114u8],
        "var".spec_bytes().len() == 3,
        "var".spec_bytes()[0] == 118,
        "var".spec_bytes()[1] == 97,
{
    reveal_strlit("var");
    assert(is_ascii("var"));
    lemma_ascii_bytes("var", seq![118u8, 97u8, 114u8]);
}

proof fn lemma_spelling_of_while()
    ensures
        "while".spec_bytes() == seq![119u8, 104u8, 105u8, 108u8, 101u8],
        "while".spec_bytes().len() == 5,
        "while".spec_bytes()[0] == 119,
        "while".spec_bytes()[1] == 104,
{
    reveal_strlit("while");
    assert(is_ascii("while"));
    lemma_ascii_bytes("while", seq![119u8, 104u8, 105u8, 108u8, 101u8]);
}

/// The bytes of every keyword.
pub proof fn lemma_keyword_spellings()
    ensures
        "and".spec_bytes() == seq![97u8, 110u8, 100u8],
        "and".spec_bytes().len() == 3,
        "and".spec_bytes()[0] == 97,
        "and".spec_bytes()[1] == 110,
        "class".spec_bytes() == seq![99u8, 108u8, 97u8, 115u8, 115u8],
        "class".spec_bytes().len() == 5,
        "class".spec_bytes()[0] == 99,
        "class".spec_bytes()[1] == 108,
        "else".spec_bytes() == seq![101u8, 108u8, 115u8, 101u8],
        "else".spec_bytes().len() == 4,
        "else".spec_bytes()[0] == 101,
        "else".spec_bytes()[1] == 108,
        "false".spec_bytes() == seq![102u8, 97u8, 108u8, 115u8, 101u8],
        "false".spec_bytes().len() == 5,
        "false".spec_bytes()[0] == 102,
        "false".spec_bytes()[1] == 97,
        "for".spec_bytes() == seq![102u8, 111u8, 114u8],
        "for".spec_bytes().len() == 3,
        "for".spec_bytes()[0] == 102,
        "for".spec_bytes()[1] == 111,
        "fun".spec_bytes() == seq![102u8, 117u8, 110u8],
        "fun".spec_bytes().len() == 3,
        "fun".spec_bytes()[0] == 102,
        "fun".spec_bytes()[1] == 117,
        "if".spec_bytes() == seq![105u8, 102u8],
        "if".spec_bytes().len() == 2,
        "if".spec_bytes()[0] == 105,
        "if".spec_bytes()[1] == 102,
        "nil".spec_bytes() == seq![110u8, 105u8, 108u8],
        "nil".spec_bytes().len() == 3,
        "nil".spec_bytes()[0] == 110,
        "nil".spec_bytes()[1] == 105,
        "or".spec_bytes() == seq![111u8, 114u8],
        "or".spec_bytes().len() == 2,
        "or".spec_bytes()[0] == 111,
        "or".spec_bytes()[1] == 114,
        "print".spec_bytes() == seq![112u8, 114u8, 105u8, 110u8, 116u8],
        "print".spec_bytes().len() == 5,
        "print".spec_bytes()[0] == 112,
        "print".spec_bytes()[1] == 114,
        "return".spec_bytes() == seq![114u8, 101u8, 116u8, 117u8, 114u8, 110u8],
        "return".spec_bytes().len() == 6,
        "return".spec_bytes()[0] == 114,
        "return".spec_bytes()[1] == 101,
        "super".spec_bytes() == seq![115u8, 117u8, 112u8, 101u8, 114u8],
        "super".spec_bytes().len() == 5,
        "super".spec_bytes()[0] == 115,
        "super".spec_bytes()[1] == 117,
        "this".spec_bytes() == seq![116u8, 104u8, 105u8, 115u8],
        "this".spec_bytes().len() == 4,
        "this".spec_bytes()[0] == 116,
        "this".spec_bytes()[1] == 104,
        "true".spec_bytes() == seq![116u8, 114u8, 117u8, 101u8],
        "true".spec_bytes().len() == 4,
        "true".spec_bytes()[0] == 116,
        "true".spec_bytes()[1] == 114,
        "var".spec_bytes() == seq![118u8, 97u8, 114u8],
        "var".spec_bytes().len() == 3,
        "var".spec_bytes()[0] == 118,
        "var".spec_bytes()[1] == 97,
        "while".spec_bytes() == seq![119u8, 104u8, 105u8, 108u8, 101u8],
        "while".spec_bytes().len() == 5,
        "while".spec_bytes()[0] == 119,
        "while".spec_bytes()[1] == 104,
{
    lemma_spelling_of_and();
    lemma_spelling_of_class();
    lemma_spelling_of_else();
    lemma_spelling_of_false();
    lemma_spelling_of_for();
    lemma_spelling_of_fun();
    lemma_spelling_of_if();
    lemma_spelling_of_nil();
    lemma_spelling_of_or();
    lemma_spelling_of_print();
    lemma_spelling_of_return();
    lemma_spelling_of_super();
    lemma_spelling_of_this();
    lemma_spelling_of_true();
    lemma_spelling_of_var();
    lemma_spelling_of_while();
}

/// The lexeme has the length of `word` and its bytes from `start` on.
pub open spec fn agrees_from(lexeme: Seq<u8>, word: Seq<u8>, start: int) -> bool {
    lexeme.len() == word.len() && forall|i: int|
        start <= i < word.len() ==> lexeme[i] == word[i]
}

/// A lexeme that shares its first `start` bytes with `word` spells `word`
/// where it agrees with it from `start` on.
pub proof fn lemma_agreement(lexeme: Seq<u8>, word: Seq<u8>, start: int)
    requires
        0 <= start <= word.len(),
        start <= lexeme.len(),
        forall|i: int| 0 <= i < start ==> lexeme[i] == word[i],
    ensures
        agrees_from(lexeme, word, start) <==> lexeme == word,
{
    if agrees_from(lexeme, word, start) {
        assert(lexeme =~= word);
    }
}

/// The token `token` is what the scanner hands out for `lexed`: the same kind
/// and line, and as text the bytes that `lexed` covers, or the message where
/// it is an error.
pub open spec fn shows(bytes: Seq<u8>, token: Token<'_>, lexed: Lexed) -> bool {
    &&& token.token_type == lexed.kind
    &&& token.line == lexed.line
    &&& lexed.kind != TokenType::Error ==> token.source.spec_bytes() == bytes.subrange(
        lexed.start,
        lexed.end,
    )
    &&& lexed.kind == TokenType::Error ==> token.source@ == error_message(bytes, lexed.start)
}

/// Offset and line of a scanner that has handed out the first `count` tokens
/// of a text.
pub open spec fn position_after(bytes: Seq<u8>, count: nat) -> (int, int)
    decreases count,
{
    if count == 0 {
        (0, 1)
    } else {
        let (offset, line) = position_after(bytes, (count - 1) as nat);
        let lexed = next_token(bytes, offset, line);
        (lexed.end, lexed.line)
    }
}

/// The token of a text at position `index`, counted from 0. Past the end of
/// the text every token is `Eof`.
pub open spec fn nth_token(bytes: Seq<u8>, index: nat) -> Lexed {
    let (offset, line) = position_after(bytes, index);
    next_token(bytes, offset, line)
}

/// The byte at `offset`, if the text reaches that far.
pub open spec fn byte_at(bytes: Seq<u8>, offset: int) -> Option<u8> {
    if 0 <= offset < bytes.len() {
        Some(bytes[offset])
    } else {
        None
    }
}

/// Tells whether `x` holds a value that `predicate` accepts.
pub fn is_some_where<T: Copy, F: Fn(T) -> bool>(x: Option<T>, predicate: &F) -> (result: bool)
    requires
        x matches Some(value) ==> predicate.requires((value,)),
    ensures
        x is None ==> !result,
        x matches Some(value) ==> predicate.ensures((value,), result),
{
    match x {
        Some(value) => predicate(value),
        None => false,
    }
}

/// Number of bytes of the character that starts with the byte `lead`.
fn width_of(lead: u8) -> (width: usize)
    ensures
        width == char_width(lead),
{
    if lead < 0x80 {
        1
    } else if lead < 0xe0 {
        2
    } else if lead < 0xf0 {
        3
    } else {
        4
    }
}

pub struct Scanner<'a> {
    /// Source to be scanned
    source: &'a str,
    /// Offset to first character of current token in bytes
    start_offset: usize,
    /// Offset to next character in bytes
    current_offset: usize,
    /// Current line
    line: usize,
}

impl<'a> Scanner<'a> {
    /// The source text.
    pub closed spec fn text(&self) -> &'a str {
        self.source
    }

    /// The UTF-8 bytes of the source text.
    pub open spec fn bytes(&self) -> Seq<u8> {
        self.text().spec_bytes()
    }

    /// Offset of the first byte of the token being built.
    pub closed spec fn start(&self) -> int {
        self.start_offset as int
    }

    /// Offset of the next byte to look at.
    pub closed spec fn current(&self) -> int {
        self.current_offset as int
    }

    /// The line that the scanner has reached, counted from 1.
    pub closed spec fn line_number(&self) -> int {
        self.line as int
    }

    /// Both offsets lie on character boundaries of the text, in order, and the
    /// line counter has counted no more line feeds than bytes were passed.
    pub open spec fn wf(&self) -> bool {
        &&& 0 <= self.start() <= self.current() <= self.bytes().len()
        &&& self.bytes().len() < usize::MAX
        &&& is_char_boundary(self.bytes(), self.start())
        &&& is_char_boundary(self.bytes(), self.current())
        &&& 1 <= self.line_number() <= self.current() + 1
    }

    /// The scanner `next` differs from this one in its position only.
    pub open spec fn moved_to(&self, next: &Scanner<'a>, current: int) -> bool {
        &&& next.wf()
        &&& next.text() == self.text()
        &&& next.start() == self.start()
        &&& next.line_number() == self.line_number()
        &&& next.current() == current
    }

    proof fn lemma_valid_text(&self)
        ensures
            valid_utf8(self.bytes()),
    {
        encode_utf8_valid_utf8(self.text()@);
    }

    pub fn new(source: &'a str) -> (scanner: Scanner<'a>)
        requires
            source.spec_bytes().len() < usize::MAX,
        ensures
            scanner.wf(),
            scanner.text() == source,
            scanner.start() == 0,
            scanner.current() == 0,
            scanner.line_number() == 1,
    {
        proof {
            encode_utf8_valid_utf8(source@);
        }
        Scanner { source: source, start_offset: 0, current_offset: 0, line: 1 }
    }

    pub fn start_offset(&self) -> (offset: usize)
        ensures
            offset == self.start(),
    {
        self.start_offset
    }

    pub fn current_offset(&self) -> (offset: usize)
        ensures
            offset == self.current(),
    {
        self.current_offset
    }

    pub fn line(&self) -> (line: usize)
        ensures
            line == self.line_number(),
    {
        self.line
    }

    /// The leading byte of the next character.
    pub fn peek(&self) -> (next: Option<u8>)
        requires
            self.wf(),
        ensures
            next == byte_at(self.bytes(), self.current()),
    {
        let bytes = self.source.as_bytes();
        if self.current_offset < bytes.len() {
            Some(bytes[self.current_offset])
        } else {
            None
        }
    }

    /// The leading byte of the character after the next one.
    pub fn peek_next(&self) -> (next: Option<u8>)
        requires
            self.wf(),
        ensures
            self.current() < self.bytes().len() ==> next == byte_at(
                self.bytes(),
                self.current() + char_width(self.bytes()[self.current()]),
            ),
            self.current() >= self.bytes().len() ==> next is None,
    {
        let bytes = self.source.as_bytes();
        if self.current_offset < bytes.len() {
            proof {
                self.lemma_valid_text();
                lemma_next_boundary(self.bytes(), self.current());
            }
            let after = self.current_offset + width_of(bytes[self.current_offset]);
            if after < bytes.len() {
                Some(bytes[after])
            } else {
                None
            }
        } else {
            None
        }
    }

    /// The part of the source that has not been scanned yet.
    pub fn remaining_source(&self) -> (rest: &'a str)
        requires
            self.wf(),
        ensures
            rest.spec_bytes() == self.bytes().skip(self.current()),
    {
        let (_, rest) = self.source.split_at(self.current_offset);
        rest
    }

    /// The part of the source that the token being built covers.
    pub fn current_token_source(&self) -> (lexeme: &'a str)
        requires
            self.wf(),
        ensures
            lexeme.spec_bytes() == self.bytes().subrange(self.start(), self.current()),
    {
        proof {
            self.lemma_valid_text();
            lemma_boundary_in_prefix(self.bytes(), self.start(), self.current());
        }
        let (head, _) = self.source.split_at(self.current_offset);
        let (_, lexeme) = head.split_at(self.start_offset);
        assert(lexeme.spec_bytes() =~= self.bytes().subrange(self.start(), self.current()));
        lexeme
    }

    /// Consumes the next character and returns its leading byte.
    pub fn advance(&mut self) -> (next_char: u8)
        requires
            old(self).wf(),
            old(self).current() < old(self).bytes().len(),
        ensures
            next_char == old(self).bytes()[old(self).current()],
            old(self).moved_to(final(self), old(self).current() + char_width(next_char)),
    {
        let bytes = self.source.as_bytes();
        let next_char = bytes[self.current_offset];
        self.increment_offset();
        next_char
    }

    /// Consumes the next character where it is `test_char`.
    pub fn match_next(&mut self, test_char: u8) -> (matched: bool)
        requires
            old(self).wf(),
        ensures
            matched == (byte_at(old(self).bytes(), old(self).current()) == Some(test_char)),
            matched ==> old(self).moved_to(
                final(self),
                old(self).current() + char_width(test_char),
            ),
            !matched ==> old(self).moved_to(final(self), old(self).current()),
    {
        match self.peek() {
            Some(c) => {
                if c == test_char {
                    self.increment_offset();
                    true
                } else {
                    false
                }
            },
            None => false,
        }
    }

    /// Moves past the next character, if there is one.
    pub fn increment_offset(&mut self)
        requires
            old(self).wf(),
        ensures
            old(self).current() < old(self).bytes().len() ==> old(self).moved_to(
                final(self),
                old(self).current() + char_width(old(self).bytes()[old(self).current()]),
            ),
            old(self).current() >= old(self).bytes().len() ==> old(self).moved_to(
                final(self),
                old(self).current(),
            ),
    {
        let bytes = self.source.as_bytes();
        if self.current_offset < bytes.len() {
            proof {
                self.lemma_valid_text();
                lemma_next_boundary(self.bytes(), self.current());
            }
            self.current_offset = self.current_offset + width_of(bytes[self.current_offset]);
        }
    }

    pub fn is_at_end(&self) -> (at_end: bool)
        ensures
            at_end == (self.current() >= self.bytes().len()),
    {
        self.current_offset >= self.source.as_bytes().len()
    }

    /// The bytes that the token being built covers.
    pub open spec fn lexeme(&self) -> Seq<u8> {
        self.bytes().subrange(self.start(), self.current())
    }

    /// `token` is the next token of this scanner and `next` the scanner after
    /// it was handed out.
    pub open spec fn produces(&self, next: &Scanner<'a>, token: Token<'a>) -> bool {
        let lexed = next_token(self.bytes(), self.current(), self.line_number());
        &&& next.wf()
        &&& next.text() == self.text()
        &&& next.start() == lexed.start
        &&& next.current() == lexed.end
        &&& next.line_number() == lexed.line
        &&& shows(self.bytes(), token, lexed)
    }

    /// Moves past whitespace and line comments, counting the lines.
    pub fn skip_whitespace_and_comments(&mut self)
        requires
            old(self).wf(),
        ensures
            final(self).wf(),
            final(self).text() == old(self).text(),
            final(self).start() == old(self).start(),
            final(self).current() >= old(self).current(),
            (final(self).current(), final(self).line_number()) == trivia_end(
                old(self).bytes(),
                old(self).current(),
                old(self).line_number(),
                false,
            ),
    {
        let ghost goal = trivia_end(self.bytes(), self.current(), self.line_number(), false);
        loop
            invariant
                self.wf(),
                self.current() >= old(self).current(),
                self.text() == old(self).text(),
                self.start() == old(self).start(),
                trivia_end(self.bytes(), self.current(), self.line_number(), false) == goal,
            ensures
                (self.current(), self.line_number()) == goal,
            decreases self.bytes().len() - self.current(),
        {
            let ghost entry = self.current();
            match self.peek() {
                Some(c) => {
                    if c == SPACE || c == CARRIAGE_RETURN || c == TAB {
                        self.advance();
                    } else if c == LINE_FEED {
                        self.advance();
                        self.line = self.line + 1;
                    } else if c == SLASH {
                        match self.peek_next() {
                            Some(next) => {
                                if next != SLASH {
                                    break ;
                                }
                            },
                            None => {
                                break ;
                            },
                        }
                        self.advance();
                        loop
                            invariant
                                self.wf(),
                                self.text() == old(self).text(),
                                self.start() == old(self).start(),
                                self.current() > entry,
                                entry >= old(self).current(),
                                trivia_end(
                                    self.bytes(),
                                    self.current(),
                                    self.line_number(),
                                    true,
                                ) == goal,
                            ensures
                                self.current() > entry,
                                trivia_end(
                                    self.bytes(),
                                    self.current(),
                                    self.line_number(),
                                    false,
                                ) == goal,
                            decreases self.bytes().len() - self.current(),
                        {
                            match self.peek() {
                                Some(inside) => {
                                    if inside == LINE_FEED {
                                        break ;
                                    }
                                },
                                None => {
                                    break ;
                                },
                            }
                            self.advance();
                        }
                    } else {
                        break ;
                    }
                },
                None => {
                    break ;
                },
            }
        }
    }

    /// A token of kind `token_type` over the bytes scanned since the token's
    /// start.
    pub fn make_token(&self, token_type: TokenType) -> (token: Token<'a>)
        requires
            self.wf(),
        ensures
            token.token_type == token_type,
            token.source.spec_bytes() == self.lexeme(),
            token.line == self.line_number(),
    {
        Token { token_type, source: self.current_token_source(), line: self.line }
    }

    /// An error token that carries `message`.
    pub fn error_token(&self, message: &'static str) -> (token: Token<'static>)
        ensures
            token.token_type == TokenType::Error,
            token.source == message,
            token.line == self.line_number(),
    {
        Token { token_type: TokenType::Error, source: message, line: self.line }
    }

    /// Scans the rest of a string literal whose opening quote was consumed.
    pub fn string_token(&mut self) -> (token: Token<'a>)
        requires
            old(self).wf(),
        ensures
            final(self).wf(),
            final(self).text() == old(self).text(),
            final(self).start() == old(self).start(),
            final(self).current() >= old(self).current(),
            ({
                let (close, line) = string_end(
                    old(self).bytes(),
                    old(self).current(),
                    old(self).line_number(),
                );
                &&& final(self).line_number() == line
                &&& token.line == line
                &&& close >= old(self).bytes().len() ==> {
                    &&& final(self).current() == close
                    &&& token.token_type == TokenType::Error
                    &&& token.source@ == "Unterminated string"@
                }
                &&& close < old(self).bytes().len() ==> {
                    &&& final(self).current() == close + 1
                    &&& token.token_type == TokenType::String
                    &&& token.source.spec_bytes() == final(self).lexeme()
                }
            }),
    {
        let ghost goal = string_end(self.bytes(), self.current(), self.line_number());
        loop
            invariant
                self.wf(),
                self.text() == old(self).text(),
                self.start() == old(self).start(),
                self.current() >= old(self).current(),
                string_end(self.bytes(), self.current(), self.line_number()) == goal,
            ensures
                (self.current(), self.line_number()) == goal,
                byte_at(self.bytes(), self.current()) is Some ==> self.bytes()[self.current()]
                    == QUOTE,
            decreases self.bytes().len() - self.current(),
        {
            match self.peek() {
                Some(c) => {
                    if c == QUOTE {
                        break ;
                    }
                    self.advance();
                    if c == LINE_FEED {
                        self.line = self.line + 1;
                    }
                },
                None => {
                    break ;
                },
            }
        }
        if self.is_at_end() {
            return self.error_token("Unterminated string");
        }
        // Skip closing "
        self.advance();
        self.make_token(TokenType::String)
    }

    /// Scans the rest of a number whose first digit was consumed.
    pub fn number_token(&mut self) -> (token: Token<'a>)
        requires
            old(self).wf(),
            old(self).current() == old(self).start() + 1,
            digit(old(self).bytes()[old(self).start()]),
        ensures
            old(self).moved_to(final(self), number_end(old(self).bytes(), old(self).start())),
            final(self).current() >= old(self).current(),
            token.token_type == TokenType::Number,
            token.source.spec_bytes() == final(self).lexeme(),
            token.line == final(self).line_number(),
    {
        self.skip_digits();
        let after_dot = match self.peek_next() {
            Some(c) => is_digit(c),
            None => false,
        };
        let at_dot = match self.peek() {
            Some(c) => c == DOT,
            None => false,
        };
        if at_dot && after_dot {
            // Consume '.'
            self.advance();
            self.skip_digits();
        }
        self.make_token(TokenType::Number)
    }

    /// Moves past the digits that follow.
    fn skip_digits(&mut self)
        requires
            old(self).wf(),
        ensures
            old(self).moved_to(final(self), digits_end(old(self).bytes(), old(self).current())),
            final(self).current() >= old(self).current(),
    {
        let ghost goal = digits_end(self.bytes(), self.current());
        while is_some_where(self.peek(), &is_digit)
            invariant
                old(self).moved_to(self, self.current()),
                self.current() >= old(self).current(),
                digits_end(self.bytes(), self.current()) == goal,
            decreases self.bytes().len() - self.current(),
        {
            self.advance();
        }
    }

    /// Scans the rest of an identifier or keyword whose first character was
    /// consumed.
    pub fn identifier_token(&mut self) -> (token: Token<'a>)
        requires
            old(self).wf(),
            old(self).current() == old(self).start() + 1,
            alpha(old(self).bytes()[old(self).start()]),
        ensures
            old(self).moved_to(final(self), identifier_end(old(self).bytes(), old(self).start())),
            final(self).current() >= old(self).current(),
            token.token_type == identifier_kind(final(self).lexeme()),
            token.source.spec_bytes() == final(self).lexeme(),
            token.line == final(self).line_number(),
    {
        let ghost goal = identifier_end(self.bytes(), self.start());
        while is_some_where(self.peek(), &is_alphanumeric)
            invariant
                old(self).moved_to(self, self.current()),
                self.current() >= old(self).current(),
                identifier_end(self.bytes(), self.current()) == goal,
            decreases self.bytes().len() - self.current(),
        {
            self.advance();
        }
        return self.make_token(self.identifier_type());
    }

    /// Works out the kind of the identifier-shaped token just scanned: the
    /// first one or two characters single out the only keyword it can be.
    pub fn identifier_type(&self) -> (kind: TokenType)
        requires
            self.wf(),
        ensures
            kind == identifier_kind(self.lexeme()),
    {
        proof {
            lemma_keyword_spellings();
        }
        let bytes = self.source.as_bytes();
        let length = self.current_offset - self.start_offset;
        if length == 0 {
            return TokenType::Identifier;
        }
        let first = bytes[self.start_offset];
        assert(first == self.lexeme()[0]);
        assert(length >= 2 ==> bytes@[self.start_offset + 1] == self.lexeme()[1]);
        if first == LOWER_A {
            proof {
                lemma_agreement(self.lexeme(), "and".spec_bytes(), 1);
            }
            self.check_keyword(1, "and", TokenType::And)
        } else if first == LOWER_C {
            proof {
                lemma_agreement(self.lexeme(), "class".spec_bytes(), 1);
            }
            self.check_keyword(1, "class", TokenType::Class)
        } else if first == LOWER_E {
            proof {
                lemma_agreement(self.lexeme(), "else".spec_bytes(), 1);
            }
            self.check_keyword(1, "else", TokenType::Else)
        } else if first == LOWER_F {
            if length < 2 {
                TokenType::Identifier
            } else if bytes[self.start_offset + 1] == LOWER_A {
                proof {
                    lemma_agreement(self.lexeme(), "false".spec_bytes(), 2);
                }
                self.check_keyword(2, "false", TokenType::False)
            } else if bytes[self.start_offset + 1] == LOWER_O {
                proof {
                    lemma_agreement(self.lexeme(), "for".spec_bytes(), 2);
                }
                self.check_keyword(2, "for", TokenType::For)
            } else if bytes[self.start_offset + 1] == LOWER_U {
                proof {
                    lemma_agreement(self.lexeme(), "fun".spec_bytes(), 2);
                }
                self.check_keyword(2, "fun", TokenType::Fun)
            } else {
                TokenType::Identifier
            }
        } else if first == LOWER_I {
            proof {
                lemma_agreement(self.lexeme(), "if".spec_bytes(), 1);
            }
            self.check_keyword(1, "if", TokenType::If)
        } else if first == LOWER_N {
            proof {
                lemma_agreement(self.lexeme(), "nil".spec_bytes(), 1);
            }
            self.check_keyword(1, "nil", TokenType::Nil)
        } else if first == LOWER_O {
            proof {
                lemma_agreement(self.lexeme(), "or".spec_bytes(), 1);
            }
            self.check_keyword(1, "or", TokenType::Or)
        } else if first == LOWER_P {
            proof {
                lemma_agreement(self.lexeme(), "print".spec_bytes(), 1);
            }
            self.check_keyword(1, "print", TokenType::Print)
        } else if first == LOWER_R {
            proof {
                lemma_agreement(self.lexeme(), "return".spec_bytes(), 1);
            }
            self.check_keyword(1, "return", TokenType::Return)
        } else if first == LOWER_S {
            proof {
                lemma_agreement(self.lexeme(), "super".spec_bytes(), 1);
            }
            self.check_keyword(1, "super", TokenType::Super)
        } else if first == LOWER_T {
            if length < 2 {
                TokenType::Identifier
            } else if bytes[self.start_offset + 1] == LOWER_H {
                proof {
                    lemma_agreement(self.lexeme(), "this".spec_bytes(), 2);
                }
                self.check_keyword(2, "this", TokenType::This)
            } else if bytes[self.start_offset + 1] == LOWER_R {
                proof {
                    lemma_agreement(self.lexeme(), "true".spec_bytes(), 2);
                }
                self.check_keyword(2, "true", TokenType::True)
            } else {
                TokenType::Identifier
            }
        } else if first == LOWER_V {
            proof {
                lemma_agreement(self.lexeme(), "var".spec_bytes(), 1);
            }
            self.check_keyword(1, "var", TokenType::Var)
        } else if first == LOWER_W {
            proof {
                lemma_agreement(self.lexeme(), "while".spec_bytes(), 1);
            }
            self.check_keyword(1, "while", TokenType::While)
        } else {
            TokenType::Identifier
        }
    }

    /// Tells whether the token just scanned spells `word`, of which the first
    /// `start` bytes are known to match: `token_type` if it does, else
    /// `Identifier`.
    pub fn check_keyword(&self, start: usize, word: &str, token_type: TokenType) -> (kind:
        TokenType)
        requires
            self.wf(),
        ensures
            kind == (if agrees_from(self.lexeme(), word.spec_bytes(), start as int) {
                token_type
            } else {
                TokenType::Identifier
            }),
    {
        let bytes = self.source.as_bytes();
        let word_bytes = word.as_bytes();
        let length = self.current_offset - self.start_offset;
        if length != word_bytes.len() {
            return TokenType::Identifier;
        }
        let mut i = start;
        while i < length
            invariant
                self.wf(),
                bytes@ == self.bytes(),
                word_bytes@ == word.spec_bytes(),
                length == self.lexeme().len(),
                length == word_bytes@.len(),
                start <= i,
                forall|k: int| start <= k < i && k < length ==> self.lexeme()[k] == word_bytes@[k],
            decreases length - i,
        {
            assert(self.lexeme()[i as int] == bytes@[self.start_offset + i]);
            if bytes[self.start_offset + i] != word_bytes[i] {
                return TokenType::Identifier;
            }
            i = i + 1;
        }
        token_type
    }

    /// The kind of the punctuation or operator token whose first character
    /// `c` was consumed, if `c` starts one; a following `=` that belongs to
    /// the token is consumed too.
    fn operator_type(&mut self, c: u8) -> (kind: Option<TokenType>)
        requires
            old(self).wf(),
            old(self).start() < old(self).bytes().len(),
            c == old(self).bytes()[old(self).start()],
            old(self).current() == old(self).start() + char_width(c),
        ensures
            kind == operator_kind(old(self).bytes(), old(self).start()),
            kind matches Some(found) ==> old(self).moved_to(
                final(self),
                old(self).start() + operator_len(found),
            ),
            kind is None ==> old(self).moved_to(final(self), old(self).current()),
    {
        if c == LEFT_PAREN {
            Some(TokenType::LeftParen)
        } else if c == RIGHT_PAREN {
            Some(TokenType::RightParen)
        } else if c == LEFT_BRACE {
            Some(TokenType::LeftBrace)
        } else if c == RIGHT_BRACE {
            Some(TokenType::RightBrace)
        } else if c == SEMICOLON {
            Some(TokenType::Semicolon)
        } else if c == COMMA {
            Some(TokenType::Comma)
        } else if c == DOT {
            Some(TokenType::Dot)
        } else if c == MINUS {
            Some(TokenType::Minus)
        } else if c == PLUS {
            Some(TokenType::Plus)
        } else if c == SLASH {
            Some(TokenType::Slash)
        } else if c == STAR {
            Some(TokenType::Star)
        } else if c == BANG {
            Some(if self.match_next(EQUAL) { TokenType::BangEqual } else { TokenType::Bang })
        } else if c == EQUAL {
            Some(if self.match_next(EQUAL) { TokenType::EqualEqual } else { TokenType::Equal })
        } else if c == LESS {
            Some(if self.match_next(EQUAL) { TokenType::LessEqual } else { TokenType::Less })
        } else if c == GREATER {
            Some(
                if self.match_next(EQUAL) {
                    TokenType::GreaterEqual
                } else {
                    TokenType::Greater
                },
            )
        } else {
            None
        }
    }

    /// Produces the next token. Past the end of the source every token is
    /// `Eof`.
    pub fn scan_token(&mut self) -> (token: Token<'a>)
        requires
            old(self).wf(),
        ensures
            old(self).produces(final(self), token),
            old(self).current() <= final(self).start() <= final(self).current(),
            token.token_type == TokenType::Eof <==> final(self).start() >= old(self).bytes().len(),
            token.token_type != TokenType::Eof ==> final(self).current() > old(self).current(),
    {
        self.skip_whitespace_and_comments();
        self.start_offset = self.current_offset;

        if self.is_at_end() {
            return self.make_token(TokenType::Eof);
        }
        let c = self.advance();
        let token_type = self.operator_type(c);

        if let Some(token_type) = token_type {
            return self.make_token(token_type);
        }
        if c == QUOTE {
            return self.string_token();
        }
        if is_digit(c) {
            return self.number_token();
        }
        if is_alpha(c) {
            return self.identifier_token();
        }
        return self.error_token("Unexpected character");
    }
}

/// The first `count` tokens of a text.
pub open spec fn token_stream(bytes: Seq<u8>, count: nat) -> Seq<Lexed> {
    Seq::new(count, |i: int| nth_token(bytes, i as nat))
}

/// The tokens `tokens` are those of `stream`: in order, inside the text, at
/// start offsets that never go back, and with one `Eof`, the last.
pub open spec fn tokenizes(bytes: Seq<u8>, tokens: Seq<Token<'_>>, stream: Seq<Lexed>) -> bool {
    &&& tokens.len() == stream.len()
    &&& tokens.len() >= 1
    &&& forall|i: int| 0 <= i < stream.len() ==> shows(bytes, tokens[i], #[trigger] stream[i])
    &&& forall|i: int|
        0 <= i < stream.len() ==> ((#[trigger] stream[i]).kind == TokenType::Eof <==> i
            == stream.len() - 1)
    &&& forall|i: int|
        0 <= i < stream.len() ==> 0 <= (#[trigger] stream[i]).start <= stream[i].end
            <= bytes.len()
    &&& forall|i: int, j: int|
        0 <= i <= j < stream.len() ==> (#[trigger] stream[i]).start <= (#[trigger] stream[j]).start
}

/// Every token of `source`, in order, up to and with the first `Eof`.
pub fn scan_tokens(source: &str) -> (tokens: Vec<Token<'_>>)
    requires
        source.spec_bytes().len() < usize::MAX,
    ensures
        tokenizes(
            source.spec_bytes(),
            tokens@,
            token_stream(source.spec_bytes(), tokens@.len()),
        ),
{
    let ghost bytes = source.spec_bytes();
    let ghost mut stream: Seq<Lexed> = Seq::empty();
    let mut scanner = Scanner::new(source);
    let mut tokens: Vec<Token<'_>> = Vec::new();
    loop
        invariant_except_break
            forall|i: int| 0 <= i < stream.len() ==> (#[trigger] stream[i]).kind != TokenType::Eof,
        invariant
            scanner.wf(),
            scanner.text() == source,
            bytes == source.spec_bytes(),
            (scanner.current(), scanner.line_number()) == position_after(bytes, tokens@.len()),
            stream =~= token_stream(bytes, tokens@.len()),
            forall|i: int| 0 <= i < stream.len() ==> shows(bytes, tokens@[i], #[trigger] stream[i]),
            forall|i: int|
                0 <= i < stream.len() ==> 0 <= (#[trigger] stream[i]).start <= stream[i].end
                    <= scanner.current(),
            forall|i: int, j: int|
                0 <= i <= j < stream.len() ==> (#[trigger] stream[i]).start
                    <= (#[trigger] stream[j]).start,
        ensures
            tokenizes(bytes, tokens@, stream),
            stream =~= token_stream(bytes, tokens@.len()),
        decreases bytes.len() - scanner.current(),
    {
        let ghost lexed = next_token(bytes, scanner.current(), scanner.line_number());
        let ghost earlier = stream;
        let token = scanner.scan_token();
        let done = token.token_type == TokenType::Eof;
        tokens.push(token);
        proof {
            stream = earlier.push(lexed);
            assert(nth_token(bytes, earlier.len()) == lexed);
            assert forall|i: int| 0 <= i < stream.len() implies stream[i] == token_stream(
                bytes,
                tokens@.len(),
            )[i] by {
                if i < earlier.len() {
                    assert(stream[i] == earlier[i]);
                }
            }
            assert forall|i: int, j: int| 0 <= i <= j < stream.len() implies
                (#[trigger] stream[i]).start <= (#[trigger] stream[j]).start by {
                if j < earlier.len() {
                    assert(stream[i] == earlier[i] && stream[j] == earlier[j]);
                } else if i < earlier.len() {
                    assert(stream[i] == earlier[i]);
                }
            }
        }
        if done {
            break ;
        }
    }
    tokens
}

} // verus!
