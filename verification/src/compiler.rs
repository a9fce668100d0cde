//! The single-pass compiler: a Pratt parser that emits bytecode while it
//! reads the tokens of one expression.
//!
//! What the compiler does is stated as a function on an abstract parser
//! state; the compiler itself is proved to follow that function step by
//! step. The value of a number literal is not computed here: the caller
//! supplies the conversion from the literal's text to the bit pattern of a
//! double.

use crate::chunk::{constant_load, Chunk, MAX_LONG_INDEX};
use crate::errors::{decimal, line_text, InterpretError, InterpretResult};
use crate::instructions::{OpCode, SimpleInstruction};
use crate::run_length_encoding::repeat;
use crate::scanner::{error_message, next_token, shows, Lexed, Scanner, Token, TokenType};
use crate::stack_effect::{
    depth_after, lemma_depth_after_concat, lemma_depth_after_lift, lemma_depth_after_load,
    lemma_depth_after_simple, runnable, simple_effect,
};
use crate::value::Value;
use vstd::prelude::*;
use vstd::string::{StringExecFns, StringSliceAdditionalSpecFns};
use vstd::utf8::{decode_utf8, encode_utf8_decode_utf8};

verus! {

/// Binding strength, weakest first.
#[derive(Debug, Copy, Clone, PartialEq, Eq, Structural)]
pub enum Precedence {
    Lowest,
    Assignment,  // =
    Or,  // or
    And,  // and
    Equality,  // == !=
    Comparison,  // < > <= >=
    Term,  // + -
    Factor,  // * /
    Unary,  // ! - +
    Call,  // . () []
    Primary,
}

impl Precedence {
    /// The rank of the level: 0 for `Lowest` up to 10 for `Primary`.
    pub open spec fn level(self) -> nat {
        match self {
            Precedence::Lowest => 0,
            Precedence::Assignment => 1,
            Precedence::Or => 2,
            Precedence::And => 3,
            Precedence::Equality => 4,
            Precedence::Comparison => 5,
            Precedence::Term => 6,
            Precedence::Factor => 7,
            Precedence::Unary => 8,
            Precedence::Call => 9,
            Precedence::Primary => 10,
        }
    }

    /// The level one above; `Primary` is the highest and stays.
    pub open spec fn above(self) -> Precedence {
        match self {
            Precedence::Lowest => Precedence::Assignment,
            Precedence::Assignment => Precedence::Or,
            Precedence::Or => Precedence::And,
            Precedence::And => Precedence::Equality,
            Precedence::Equality => Precedence::Comparison,
            Precedence::Comparison => Precedence::Term,
            Precedence::Term => Precedence::Factor,
            Precedence::Factor => Precedence::Unary,
            Precedence::Unary => Precedence::Call,
            Precedence::Call => Precedence::Primary,
            Precedence::Primary => Precedence::Primary,
        }
    }

    pub fn to_usize(self) -> (level: usize)
        ensures
            level == self.level(),
    {
        match self {
            Precedence::Lowest => 0,
            Precedence::Assignment => 1,
            Precedence::Or => 2,
            Precedence::And => 3,
            Precedence::Equality => 4,
            Precedence::Comparison => 5,
            Precedence::Term => 6,
            Precedence::Factor => 7,
            Precedence::Unary => 8,
            Precedence::Call => 9,
            Precedence::Primary => 10,
        }
    }

    /// The level one above this one.
    pub fn next(self) -> (higher: Precedence)
        requires
            self != Precedence::Primary,
        ensures
            higher == self.above(),
            higher.level() == self.level() + 1,
    {
        match self {
            Precedence::Lowest => Precedence::Assignment,
            Precedence::Assignment => Precedence::Or,
            Precedence::Or => Precedence::And,
            Precedence::And => Precedence::Equality,
            Precedence::Equality => Precedence::Comparison,
            Precedence::Comparison => Precedence::Term,
            Precedence::Term => Precedence::Factor,
            Precedence::Factor => Precedence::Unary,
            Precedence::Unary => Precedence::Call,
            Precedence::Call => Precedence::Primary,
            Precedence::Primary => Precedence::Primary,
        }
    }
}

/// What a token does at the start of an expression.
#[derive(Debug, Copy, Clone, PartialEq, Eq, Structural)]
pub enum PrefixRule {
    Grouping,
    Unary,
    Number,
    Literal,
}

/// What a token does after a complete operand.
#[derive(Debug, Copy, Clone, PartialEq, Eq, Structural)]
pub enum InfixRule {
    Binary,
}

/// The row of the parse table for one kind of token.
#[derive(Debug, Copy, Clone, PartialEq, Eq, Structural)]
pub struct ParseRule {
    pub prefix: Option<PrefixRule>,
    pub infix: Option<InfixRule>,
    pub precedence: Precedence,
}

/// The parse table.
pub open spec fn rule(token: TokenType) -> ParseRule {
    match token {
        TokenType::LeftParen => ParseRule {
            prefix: Some(PrefixRule::Grouping),
            infix: None,
            precedence: Precedence::Call,
        },
        TokenType::Dot => ParseRule { prefix: None, infix: None, precedence: Precedence::Call },
        TokenType::Minus => ParseRule {
            prefix: Some(PrefixRule::Unary),
            infix: Some(InfixRule::Binary),
            precedence: Precedence::Term,
        },
        TokenType::Plus => ParseRule {
            prefix: None,
            infix: Some(InfixRule::Binary),
            precedence: Precedence::Term,
        },
        TokenType::Slash | TokenType::Star => ParseRule {
            prefix: None,
            infix: Some(InfixRule::Binary),
            precedence: Precedence::Factor,
        },
        TokenType::Bang => ParseRule {
            prefix: Some(PrefixRule::Unary),
            infix: None,
            precedence: Precedence::Lowest,
        },
        TokenType::BangEqual | TokenType::EqualEqual => ParseRule {
            prefix: None,
            infix: Some(InfixRule::Binary),
            precedence: Precedence::Equality,
        },
        TokenType::Greater
        | TokenType::GreaterEqual
        | TokenType::Less
        | TokenType::LessEqual => ParseRule {
            prefix: None,
            infix: Some(InfixRule::Binary),
            precedence: Precedence::Comparison,
        },
        TokenType::Number => ParseRule {
            prefix: Some(PrefixRule::Number),
            infix: None,
            precedence: Precedence::Lowest,
        },
        TokenType::And => ParseRule { prefix: None, infix: None, precedence: Precedence::And },
        TokenType::Or => ParseRule { prefix: None, infix: None, precedence: Precedence::Or },
        TokenType::False | TokenType::Nil | TokenType::True => ParseRule {
            prefix: Some(PrefixRule::Literal),
            infix: None,
            precedence: Precedence::Lowest,
        },
        _ => ParseRule { prefix: None, infix: None, precedence: Precedence::Lowest },
    }
}

impl ParseRule {
    pub fn new(prefix: Option<PrefixRule>, infix: Option<InfixRule>, precedence: Precedence) -> (row:
        ParseRule)
        ensures
            row == (ParseRule { prefix, infix, precedence }),
    {
        ParseRule { prefix, infix, precedence }
    }
}

/// Looks a kind of token up in the parse table.
pub fn get_rule(token: TokenType) -> (row: ParseRule)
    ensures
        row == rule(token),
{
    match token {
        TokenType::LeftParen => ParseRule::new(Some(PrefixRule::Grouping), None, Precedence::Call),
        TokenType::RightParen => ParseRule::new(None, None, Precedence::Lowest),
        TokenType::LeftBrace => ParseRule::new(None, None, Precedence::Lowest),
        TokenType::RightBrace => ParseRule::new(None, None, Precedence::Lowest),
        TokenType::Comma => ParseRule::new(None, None, Precedence::Lowest),
        TokenType::Dot => ParseRule::new(None, None, Precedence::Call),
        TokenType::Minus => ParseRule::new(
            Some(PrefixRule::Unary),
            Some(InfixRule::Binary),
            Precedence::Term,
        ),
        TokenType::Plus => ParseRule::new(None, Some(InfixRule::Binary), Precedence::Term),
        TokenType::Semicolon => ParseRule::new(None, None, Precedence::Lowest),
        TokenType::Slash => ParseRule::new(None, Some(InfixRule::Binary), Precedence::Factor),
        TokenType::Star => ParseRule::new(None, Some(InfixRule::Binary), Precedence::Factor),
        TokenType::Bang => ParseRule::new(Some(PrefixRule::Unary), None, Precedence::Lowest),
        TokenType::BangEqual => ParseRule::new(None, Some(InfixRule::Binary), Precedence::Equality),
        TokenType::Equal => ParseRule::new(None, None, Precedence::Lowest),
        TokenType::EqualEqual => ParseRule::new(
            None,
            Some(InfixRule::Binary),
            Precedence::Equality,
        ),
        TokenType::Greater => ParseRule::new(
            None,
            Some(InfixRule::Binary),
            Precedence::Comparison,
        ),
        TokenType::GreaterEqual => ParseRule::new(
            None,
            Some(InfixRule::Binary),
            Precedence::Comparison,
        ),
        TokenType::Less => ParseRule::new(None, Some(InfixRule::Binary), Precedence::Comparison),
        TokenType::LessEqual => ParseRule::new(
            None,
            Some(InfixRule::Binary),
            Precedence::Comparison,
        ),
        TokenType::Identifier => ParseRule::new(None, None, Precedence::Lowest),
        TokenType::String => ParseRule::new(None, None, Precedence::Lowest),
        TokenType::Number => ParseRule::new(Some(PrefixRule::Number), None, Precedence::Lowest),
        TokenType::And => ParseRule::new(None, None, Precedence::And),
        TokenType::Class => ParseRule::new(None, None, Precedence::Lowest),
        TokenType::Else => ParseRule::new(None, None, Precedence::Lowest),
        TokenType::False => ParseRule::new(Some(PrefixRule::Literal), None, Precedence::Lowest),
        TokenType::Fun => ParseRule::new(None, None, Precedence::Lowest),
        TokenType::For => ParseRule::new(None, None, Precedence::Lowest),
        TokenType::If => ParseRule::new(None, None, Precedence::Lowest),
        TokenType::Nil => ParseRule::new(Some(PrefixRule::Literal), None, Precedence::Lowest),
        TokenType::Or => ParseRule::new(None, None, Precedence::Or),
        TokenType::Print => ParseRule::new(None, None, Precedence::Lowest),
        TokenType::Return => ParseRule::new(None, None, Precedence::Lowest),
        TokenType::Super => ParseRule::new(None, None, Precedence::Lowest),
        TokenType::This => ParseRule::new(None, None, Precedence::Lowest),
        TokenType::True => ParseRule::new(Some(PrefixRule::Literal), None, Precedence::Lowest),
        TokenType::Var => ParseRule::new(None, None, Precedence::Lowest),
        TokenType::While => ParseRule::new(None, None, Precedence::Lowest),
        TokenType::Error => ParseRule::new(None, None, Precedence::Lowest),
        TokenType::Eof => ParseRule::new(None, None, Precedence::Lowest),
    }
}

/// A token as the parser sees it: its kind, its text and its line.
pub struct Seen {
    pub kind: TokenType,
    pub text: Seq<char>,
    pub line: usize,
}

/// What the parser sees of a token.
pub open spec fn seen(token: Token<'_>) -> Seen {
    Seen { kind: token.token_type, text: token.source@, line: token.line }
}

/// What the parser sees of the token that the scanner found at `lexed`.
pub open spec fn seen_at(bytes: Seq<u8>, lexed: Lexed) -> Seen {
    Seen {
        kind: lexed.kind,
        text: if lexed.kind == TokenType::Error {
            error_message(bytes, lexed.start)
        } else {
            decode_utf8(bytes.subrange(lexed.start, lexed.end))
        },
        line: lexed.line as usize,
    }
}

/// The diagnostic for an error with `message` found at `token`.
pub open spec fn report_text(token: Option<Seen>, message: Seq<char>) -> Seq<char> {
    match token {
        Some(token) => "[line "@ + decimal(token.line as nat) + "] Error"@ + (match token.kind {
            TokenType::Eof => " at end"@,
            TokenType::Error => Seq::empty(),
            _ => " at '"@ + token.text + "'"@,
        }) + ": "@ + message,
        None => "Error: "@ + message,
    }
}

/// The parser and what it has emitted, at one moment of a compilation.
pub struct ParseState {
    /// Offset of the scanner in the source.
    pub offset: int,
    /// Line of the scanner.
    pub line: int,
    /// The token consumed last.
    pub previous: Option<Seen>,
    /// The token looked at.
    pub current: Option<Seen>,
    pub had_error: bool,
    pub panic_mode: bool,
    /// The first diagnostic; later ones are suppressed.
    pub report: Option<Seq<char>>,
    /// The code emitted.
    pub code: Seq<u8>,
    /// The source line of each code byte.
    pub lines: Seq<usize>,
    /// The text of each number literal for which a constant was stored.
    pub literals: Seq<Seq<char>>,
}

impl ParseState {
    /// The state before anything was read.
    pub open spec fn initial() -> ParseState {
        ParseState {
            offset: 0,
            line: 1,
            previous: None,
            current: None,
            had_error: false,
            panic_mode: false,
            report: None,
            code: Seq::empty(),
            lines: Seq::empty(),
            literals: Seq::empty(),
        }
    }

    /// The kind of the token looked at.
    pub open spec fn current_kind(self) -> TokenType {
        match self.current {
            Some(token) => token.kind,
            None => TokenType::Eof,
        }
    }

    /// The kind of the token consumed last.
    pub open spec fn previous_kind(self) -> TokenType {
        match self.previous {
            Some(token) => token.kind,
            None => TokenType::Eof,
        }
    }

    /// A bound on the tokens still to come: the bytes not scanned yet, and
    /// one more while the token looked at is not the end.
    pub open spec fn remaining(self, bytes: Seq<u8>) -> nat {
        let unread: nat = if 0 <= self.offset <= bytes.len() {
            (bytes.len() - self.offset) as nat
        } else {
            0
        };
        if self.current_kind() != TokenType::Eof {
            unread + 1
        } else {
            unread
        }
    }

    /// Records an error at `token`, unless one was recorded before.
    pub open spec fn error_at(self, token: Option<Seen>, message: Seq<char>) -> ParseState {
        if self.panic_mode {
            self
        } else {
            ParseState {
                panic_mode: true,
                had_error: true,
                report: Some(report_text(token, message)),
                ..self
            }
        }
    }

    /// Records an error at the token consumed last.
    pub open spec fn error(self, message: Seq<char>) -> ParseState {
        self.error_at(self.previous, message)
    }

    /// Records an error at the token looked at.
    pub open spec fn error_at_current(self, message: Seq<char>) -> ParseState {
        self.error_at(self.current, message)
    }

    /// Scans up to the next token that is no error token and looks at it; each
    /// error token on the way is reported.
    pub open spec fn scanned(self, bytes: Seq<u8>) -> ParseState
        decreases bytes.len() - self.offset,
    {
        let lexed = next_token(bytes, self.offset, self.line);
        let moved = ParseState {
            offset: lexed.end,
            line: lexed.line,
            current: Some(seen_at(bytes, lexed)),
            ..self
        };
        if lexed.kind != TokenType::Error {
            moved
        } else if self.offset < lexed.end <= bytes.len() {
            moved.error_at_current(error_message(bytes, lexed.start)).scanned(bytes)
        } else {
            moved.error_at_current(error_message(bytes, lexed.start))
        }
    }

    /// Consumes the token looked at and looks at the next one.
    pub open spec fn advance(self, bytes: Seq<u8>) -> ParseState {
        ParseState { previous: self.current, ..self }.scanned(bytes)
    }

    /// Consumes the token looked at where it is of kind `kind`, and reports
    /// `message` where it is not.
    pub open spec fn consume(self, bytes: Seq<u8>, kind: TokenType, message: Seq<char>) -> ParseState {
        if self.current is Some && self.current_kind() == kind {
            self.advance(bytes)
        } else {
            self.error_at_current(message)
        }
    }

    /// The line recorded for emitted code: that of the token consumed last.
    pub open spec fn emit_line(self) -> usize {
        match self.previous {
            Some(token) => token.line,
            None => 0,
        }
    }

    /// Appends `bytes` to the code.
    pub open spec fn emit(self, bytes: Seq<u8>) -> ParseState {
        ParseState {
            code: self.code + bytes,
            lines: self.lines + repeat(self.emit_line(), bytes.len()),
            ..self
        }
    }

    /// Appends the opcodes `first` and `second` to the code.
    pub open spec fn emit_pair(self, first: OpCode, second: OpCode) -> ParseState {
        self.emit(seq![first.byte()]).emit(seq![second.byte()])
    }

    /// Stores a constant for the number literal consumed last and emits the
    /// instruction that loads it.
    pub open spec fn number(self) -> ParseState {
        let text = match self.previous {
            Some(token) => token.text,
            None => Seq::empty(),
        };
        let stored = ParseState { literals: self.literals.push(text), ..self };
        if self.literals.len() <= MAX_LONG_INDEX {
            stored.emit(constant_load(self.literals.len()))
        } else {
            stored.error("too many constants"@)
        }
    }

    /// Emits the opcode of the literal keyword consumed last.
    pub open spec fn literal(self) -> ParseState {
        match self.previous_kind() {
            TokenType::True => self.emit(seq![OpCode::True.byte()]),
            TokenType::False => self.emit(seq![OpCode::False.byte()]),
            TokenType::Nil => self.emit(seq![OpCode::Nil.byte()]),
            _ => self,
        }
    }

    /// Emits the instruction of the unary operator `operator`.
    pub open spec fn unary_operator(self, operator: TokenType) -> ParseState {
        match operator {
            TokenType::Bang => self.emit(seq![OpCode::Not.byte()]),
            TokenType::Minus => self.emit(seq![OpCode::Negate.byte()]),
            _ => self.error("Invalid unary operator"@),
        }
    }

    /// Emits the instructions of the binary operator `operator`.
    pub open spec fn binary_operator(self, operator: TokenType) -> ParseState {
        match operator {
            TokenType::BangEqual => self.emit_pair(OpCode::Equal, OpCode::Not),
            TokenType::EqualEqual => self.emit(seq![OpCode::Equal.byte()]),
            TokenType::Greater => self.emit(seq![OpCode::Greater.byte()]),
            TokenType::GreaterEqual => self.emit_pair(OpCode::Less, OpCode::Not),
            TokenType::Less => self.emit(seq![OpCode::Less.byte()]),
            TokenType::LessEqual => self.emit_pair(OpCode::Greater, OpCode::Not),
            TokenType::Plus => self.emit(seq![OpCode::Add.byte()]),
            TokenType::Minus => self.emit(seq![OpCode::Subtract.byte()]),
            TokenType::Star => self.emit(seq![OpCode::Multiply.byte()]),
            TokenType::Slash => self.emit(seq![OpCode::Divide.byte()]),
            _ => self.error("Invalid binary operator"@),
        }
    }

    /// Parses an expression whose operators bind at least as strongly as
    /// `precedence`: one prefix expression, then every infix operator of
    /// that strength with its right operand.
    ///
    /// A token is consumed before the parser goes down into an operand, so
    /// the tests on `remaining` always succeed; they are what makes the
    /// definition well-founded.
    pub open spec fn parse_precedence(self, bytes: Seq<u8>, precedence: Precedence) -> ParseState
        decreases self.remaining(bytes), 1int,
    {
        let advanced = self.advance(bytes);
        let operator = advanced.previous_kind();
        let inner = advanced.remaining(bytes) < self.remaining(bytes);
        let operand = match rule(operator).prefix {
            Some(PrefixRule::Grouping) => if inner {
                advanced.parse_precedence(bytes, Precedence::Assignment).consume(
                    bytes,
                    TokenType::RightParen,
                    "Expected ')' after expression"@,
                )
            } else {
                advanced
            },
            Some(PrefixRule::Unary) => if inner {
                advanced.parse_precedence(bytes, Precedence::Unary).unary_operator(operator)
            } else {
                advanced
            },
            Some(PrefixRule::Number) => advanced.number(),
            Some(PrefixRule::Literal) => advanced.literal(),
            None => advanced.error("Expected expression."@),
        };
        if operand.remaining(bytes) <= self.remaining(bytes) {
            operand.infix_operators(bytes, precedence)
        } else {
            operand
        }
    }

    /// Parses every infix operator that binds at least as strongly as
    /// `precedence`, each with its right operand, which is parsed one level
    /// above the operator's own so that operators of one level group to the
    /// left.
    pub open spec fn infix_operators(self, bytes: Seq<u8>, precedence: Precedence) -> ParseState
        decreases self.remaining(bytes), 0int,
    {
        if precedence.level() <= rule(self.current_kind()).precedence.level() {
            let advanced = self.advance(bytes);
            let operator = advanced.previous_kind();
            let inner = advanced.remaining(bytes) < self.remaining(bytes);
            let applied = match rule(operator).infix {
                Some(InfixRule::Binary) => if inner {
                    advanced.parse_precedence(
                        bytes,
                        rule(operator).precedence.above(),
                    ).binary_operator(operator)
                } else {
                    advanced
                },
                None => advanced.error("No infix parsing method set."@),
            };
            if applied.remaining(bytes) < self.remaining(bytes) {
                applied.infix_operators(bytes, precedence)
            } else {
                applied
            }
        } else {
            self
        }
    }

    /// The state at the end of the compilation of `bytes`: one expression up
    /// to the end of the source, and the final `Return` where no error was
    /// found.
    pub open spec fn compiled(bytes: Seq<u8>) -> ParseState {
        let parsed = ParseState::initial().advance(bytes).parse_precedence(
            bytes,
            Precedence::Assignment,
        ).consume(bytes, TokenType::Eof, "Expected end of expression"@);
        if parsed.had_error {
            parsed
        } else {
            parsed.emit(seq![OpCode::Return.byte()])
        }
    }
}

/// The constant `value` is the number that `parse_number` gave for a literal
/// with the text `text`.
pub open spec fn stores<F: Fn(&str) -> u64>(parse_number: F, text: Seq<char>, value: Value) -> bool {
    exists|lexeme: &str, bits: u64|
        lexeme@ == text && #[trigger] parse_number.ensures((lexeme,), bits) && value
            == Value::NumberValue(bits)
}

/// The state `after` has come from `before` without a change to the code:
/// an error once found stays found and no constant is lost.
pub open spec fn keeps_code(before: ParseState, after: ParseState) -> bool {
    &&& after.code == before.code
    &&& before.had_error ==> after.had_error
    &&& before.literals.len() <= after.literals.len()
}

/// The state `after` has come from `before`: an error once found stays
/// found, no constant is lost, and code was only added.
pub open spec fn continues(before: ParseState, after: ParseState) -> bool {
    &&& before.had_error ==> after.had_error
    &&& before.literals.len() <= after.literals.len()
    &&& before.code.is_prefix_of(after.code)
}

/// Unless an error was found, the code added between `before` and `after`
/// runs well on a stack of depth `from` and leaves it at depth `to`.
pub open spec fn pushes(before: ParseState, after: ParseState, from: nat, to: nat) -> bool {
    &&& continues(before, after)
    &&& !after.had_error ==> depth_after(
        after.code.skip(before.code.len() as int),
        after.literals.len(),
        from,
    ) == Some(to)
}

/// Without new code the stack stays as deep as it is.
pub proof fn lemma_pushes_nothing(before: ParseState, after: ParseState, depth: nat)
    requires
        keeps_code(before, after),
    ensures
        pushes(before, after, depth, depth),
{
    assert(after.code.skip(before.code.len() as int) =~= Seq::<u8>::empty());
}

/// Code that takes the stack from depth `from` to depth `middle`, followed
/// by instructions that take it on to depth `to`, takes it from `from` to
/// `to`.
pub proof fn lemma_pushes_emit(
    before: ParseState,
    reached: ParseState,
    bytes: Seq<u8>,
    from: nat,
    middle: nat,
    to: nat,
)
    requires
        pushes(before, reached, from, middle),
        depth_after(bytes, reached.literals.len(), middle) == Some(to),
    ensures
        pushes(before, reached.emit(bytes), from, to),
{
    let after = reached.emit(bytes);
    let start = before.code.len() as int;
    assert(after.code.skip(start) =~= reached.code.skip(start) + bytes);
    if !after.had_error {
        lemma_depth_after_concat(reached.code.skip(start), bytes, reached.literals.len(), from);
    }
}

/// Code that takes the stack from depth `from` to depth `middle`, followed
/// by code that takes it on to depth `to`, takes it from `from` to `to`.
pub proof fn lemma_pushes_chain(
    before: ParseState,
    reached: ParseState,
    after: ParseState,
    from: nat,
    middle: nat,
    to: nat,
)
    requires
        pushes(before, reached, from, middle),
        pushes(reached, after, middle, to),
    ensures
        pushes(before, after, from, to),
{
    let start = before.code.len() as int;
    let first = reached.code.skip(start);
    let second = after.code.skip(reached.code.len() as int);
    assert(after.code.skip(start) =~= first + second);
    if !after.had_error {
        lemma_depth_after_lift(
            first,
            reached.literals.len(),
            from,
            (after.literals.len() - reached.literals.len()) as nat,
            0,
        );
        lemma_depth_after_concat(first, second, after.literals.len(), from);
    }
}

/// Code that runs well on a stack runs as well on a deeper one.
pub proof fn lemma_pushes_deeper(
    before: ParseState,
    after: ParseState,
    from: nat,
    to: nat,
    deeper: nat,
)
    requires
        pushes(before, after, from, to),
    ensures
        pushes(before, after, from + deeper, to + deeper),
{
    if !after.had_error {
        lemma_depth_after_lift(
            after.code.skip(before.code.len() as int),
            after.literals.len(),
            from,
            0,
            deeper,
        );
    }
}

/// Code that takes the stack from depth `from` to depth `middle`, followed
/// by an opcode that finds its operands there, takes it to where the opcode
/// leaves it.
pub proof fn lemma_pushes_operator(
    before: ParseState,
    reached: ParseState,
    op: OpCode,
    from: nat,
    middle: nat,
)
    requires
        pushes(before, reached, from, middle),
        simple_effect(op, middle) is Some,
    ensures
        pushes(before, reached.emit(seq![op.byte()]), from, simple_effect(op, middle)->Some_0),
{
    lemma_depth_after_simple(op, reached.literals.len(), middle);
    lemma_pushes_emit(
        before,
        reached,
        seq![op.byte()],
        from,
        middle,
        simple_effect(op, middle)->Some_0,
    );
}

/// The same for two opcodes, one after the other.
pub proof fn lemma_pushes_operator_pair(
    before: ParseState,
    reached: ParseState,
    first: OpCode,
    second: OpCode,
    from: nat,
    middle: nat,
)
    requires
        pushes(before, reached, from, middle),
        simple_effect(first, middle) is Some,
        simple_effect(second, simple_effect(first, middle)->Some_0) is Some,
    ensures
        pushes(
            before,
            reached.emit_pair(first, second),
            from,
            simple_effect(second, simple_effect(first, middle)->Some_0)->Some_0,
        ),
{
    lemma_pushes_operator(before, reached, first, from, middle);
    lemma_pushes_operator(
        before,
        reached.emit(seq![first.byte()]),
        second,
        from,
        simple_effect(first, middle)->Some_0,
    );
}

struct Parser<'a> {
    current: Option<Token<'a>>,
    previous: Option<Token<'a>>,
    had_error: bool,
    panic_mode: bool,
    report: Option<String>,
}

enum ParserToken {
    Current,
    Previous,
}

struct Compiler<'s, F> {
    scanner: Scanner<'s>,
    chunk: Chunk,
    parser: Parser<'s>,
    parse_number: F,
    literals: Ghost<Seq<Seq<char>>>,
}

/// What the parser sees of a token it may hold.
pub open spec fn seen_option(token: Option<Token<'_>>) -> Option<Seen> {
    match token {
        Some(token) => Some(seen(token)),
        None => None,
    }
}

/// A token handed out by the scanner is seen as the token that the scanner
/// found.
proof fn lemma_seen(bytes: Seq<u8>, token: Token<'_>, lexed: Lexed)
    requires
        shows(bytes, token, lexed),
    ensures
        seen(token) == seen_at(bytes, lexed),
{
    encode_utf8_decode_utf8(token.source@);
}

impl<'s, F: Fn(&str) -> u64> Compiler<'s, F> {
    spec fn bytes(&self) -> Seq<u8> {
        self.scanner.bytes()
    }

    spec fn state(&self) -> ParseState {
        ParseState {
            offset: self.scanner.current(),
            line: self.scanner.line_number(),
            previous: seen_option(self.parser.previous),
            current: seen_option(self.parser.current),
            had_error: self.parser.had_error,
            panic_mode: self.parser.panic_mode,
            report: match self.parser.report {
                Some(report) => Some(report@),
                None => None,
            },
            code: self.chunk.code@,
            lines: self.chunk.lines@,
            literals: self.literals@,
        }
    }

    spec fn wf(&self) -> bool {
        &&& self.scanner.wf()
        &&& self.chunk.wf()
        &&& forall|lexeme: &str| #[trigger] self.parse_number.requires((lexeme,))
        &&& self.chunk.constants@.len() == self.literals@.len()
        &&& forall|i: int|
            0 <= i < self.literals@.len() ==> stores(
                self.parse_number,
                #[trigger] self.literals@[i],
                self.chunk.constants@[i],
            )
        &&& self.parser.had_error ==> self.parser.report is Some
        &&& self.parser.panic_mode ==> self.parser.had_error
    }

    /// The compiler `next` works on the same source with the same number
    /// conversion, has come from the state `state`, and has no more tokens to
    /// come than this one.
    spec fn leads_to(&self, next: &Compiler<'s, F>, state: ParseState) -> bool {
        &&& next.wf()
        &&& next.scanner.text() == self.scanner.text()
        &&& next.parse_number == self.parse_number
        &&& next.state() == state
        &&& next.state().remaining(self.bytes()) <= self.state().remaining(self.bytes())
        &&& self.state().current is Some ==> next.state().current is Some
        &&& continues(self.state(), next.state())
    }

    fn new(scanner: Scanner<'s>, parse_number: F) -> (compiler: Compiler<'s, F>)
        requires
            scanner.wf(),
            scanner.current() == 0,
            scanner.line_number() == 1,
            forall|lexeme: &str| #[trigger] parse_number.requires((lexeme,)),
        ensures
            compiler.wf(),
            compiler.scanner.text() == scanner.text(),
            compiler.parse_number == parse_number,
            compiler.state() == ParseState::initial(),
    {
        Compiler {
            scanner,
            chunk: Chunk::new(),
            parser: Parser {
                current: None,
                previous: None,
                had_error: false,
                panic_mode: false,
                report: None,
            },
            parse_number,
            literals: Ghost(Seq::empty()),
        }
    }

    fn scan_token(&mut self) -> (token: Token<'s>)
        requires
            old(self).wf(),
        ensures
            final(self).wf(),
            final(self).parse_number == old(self).parse_number,
            final(self).parser == old(self).parser,
            final(self).chunk == old(self).chunk,
            final(self).literals == old(self).literals,
            old(self).scanner.produces(&final(self).scanner, token),
            token.token_type != TokenType::Eof ==> final(self).scanner.current() > old(self).scanner.current(),
            final(self).scanner.current() >= old(self).scanner.current(),
    {
        self.scanner.scan_token()
    }

    fn advance(&mut self)
        requires
            old(self).wf(),
        ensures
            old(self).leads_to(final(self), old(self).state().advance(old(self).bytes())),
            final(self).state().current is Some,
            final(self).state().previous == old(self).state().current,
            keeps_code(old(self).state(), final(self).state()),
            old(self).state().current_kind() != TokenType::Eof ==> final(self).state().remaining(
                old(self).bytes(),
            ) < old(self).state().remaining(old(self).bytes()),
    {
        let ghost bytes = self.bytes();
        let ghost goal = self.state().advance(bytes);
        self.parser.previous = self.parser.current;
        loop
            invariant_except_break
                self.state().scanned(bytes) == goal,
            invariant
                self.wf(),
                self.scanner.text() == old(self).scanner.text(),
                self.parse_number == old(self).parse_number,
                bytes == self.bytes(),
                self.scanner.current() >= old(self).scanner.current(),
                self.state().previous == old(self).state().current,
                keeps_code(old(self).state(), self.state()),
            ensures
                self.wf(),
                keeps_code(old(self).state(), self.state()),
                self.scanner.text() == old(self).scanner.text(),
                self.parse_number == old(self).parse_number,
                self.state() == goal,
                self.state().current is Some,
                self.scanner.current() >= old(self).scanner.current(),
                self.state().current_kind() != TokenType::Eof ==> self.scanner.current() > old(self).scanner.current(),
            decreases bytes.len() - self.scanner.current(),
        {
            let ghost lexed = next_token(
                bytes,
                self.scanner.current(),
                self.scanner.line_number(),
            );
            let current_token = self.scan_token();
            proof {
                lemma_seen(bytes, current_token, lexed);
            }
            self.parser.current = Some(current_token);
            if !(current_token.token_type == TokenType::Error) {
                break ;
            }
            self.error_at_current(current_token.source);
        }
    }

    fn consume(&mut self, token_type: TokenType, message: &str)
        requires
            old(self).wf(),
        ensures
            old(self).leads_to(
                final(self),
                old(self).state().consume(old(self).bytes(), token_type, message@),
            ),
            keeps_code(old(self).state(), final(self).state()),
    {
        let matches = match self.parser.current {
            Some(token) => token.token_type == token_type,
            None => false,
        };
        if matches {
            self.advance();
            return ;
        }
        self.error_at_current(message);
    }

    fn end_compiler(&mut self)
        requires
            old(self).wf(),
        ensures
            old(self).leads_to(
                final(self),
                old(self).state().emit(seq![OpCode::Return.byte()]),
            ),
    {
        self.write_op_code(OpCode::Return);
    }

    fn error(&mut self, message: &str)
        requires
            old(self).wf(),
        ensures
            old(self).leads_to(final(self), old(self).state().error(message@)),
            keeps_code(old(self).state(), final(self).state()),
            final(self).state().had_error,
    {
        self.error_at(ParserToken::Previous, message);
    }

    fn error_at_current(&mut self, message: &str)
        requires
            old(self).wf(),
        ensures
            old(self).leads_to(final(self), old(self).state().error_at_current(message@)),
            keeps_code(old(self).state(), final(self).state()),
            final(self).state().had_error,
    {
        self.error_at(ParserToken::Current, message);
    }

    fn error_at(&mut self, token: ParserToken, message: &str)
        requires
            old(self).wf(),
        ensures
            old(self).leads_to(
                final(self),
                old(self).state().error_at(
                    match token {
                        ParserToken::Current => old(self).state().current,
                        ParserToken::Previous => old(self).state().previous,
                    },
                    message@,
                ),
            ),
            keeps_code(old(self).state(), final(self).state()),
            final(self).state().had_error,
    {
        if self.parser.panic_mode {
            // Suppress any further errors being reported
            return ;
        }
        self.parser.panic_mode = true;
        let token = match token {
            ParserToken::Current => self.parser.current,
            ParserToken::Previous => self.parser.previous,
        };
        let report = match token {
            Some(token) => {
                let mut text = String::from_str("[line ");
                text.append(line_text(token.line).as_str());
                text.append("] Error");
                let ghost head = text@;
                let ghost place;
                match token.token_type {
                    TokenType::Eof => {
                        text.append(" at end");
                        proof {
                            place = " at end"@;
                        }
                    },
                    TokenType::Error => {
                        proof {
                            place = Seq::empty();
                        }
                    },
                    _ => {
                        text.append(" at '");
                        text.append(token.source);
                        text.append("'");
                        proof {
                            place = " at '"@ + token.source@ + "'"@;
                        }
                    },
                }
                assert(text@ =~= head + place);
                text.append(": ");
                text.append(message);
                assert(text@ =~= report_text(Some(seen(token)), message@));
                text
            },
            None => String::from_str("Error: ").concat(message),
        };
        self.parser.report = Some(report);
        self.parser.had_error = true;
    }

    fn current_token_type(&self) -> (kind: TokenType)
        requires
            self.state().current is Some,
        ensures
            kind == self.state().current_kind(),
    {
        match self.parser.current {
            Some(token) => token.token_type,
            None => TokenType::Eof,
        }
    }

    fn previous_token_type(&self) -> (kind: TokenType)
        requires
            self.state().previous is Some,
        ensures
            kind == self.state().previous_kind(),
    {
        match self.parser.previous {
            Some(token) => token.token_type,
            None => TokenType::Eof,
        }
    }

    fn line_number(&self) -> (line: usize)
        ensures
            line == self.state().emit_line(),
    {
        match self.parser.previous {
            Some(token) => token.line,
            None => 0,
        }
    }

    fn write_instruction<T: crate::instructions::InstructionWrite>(&mut self, instruction: T)
        requires
            old(self).wf(),
        ensures
            old(self).leads_to(final(self), old(self).state().emit(instruction.encoding())),
    {
        let line_no = self.line_number();
        self.chunk.write_instruction(instruction, line_no);
    }

    fn write_op_code(&mut self, op_code: OpCode)
        requires
            old(self).wf(),
        ensures
            old(self).leads_to(final(self), old(self).state().emit(seq![op_code.byte()])),
    {
        let line_no = self.line_number();
        let instruction = SimpleInstruction::new(op_code);
        self.chunk.write_instruction(instruction, line_no);
    }

    fn write_op_codes(&mut self, first: OpCode, second: OpCode)
        requires
            old(self).wf(),
        ensures
            old(self).leads_to(final(self), old(self).state().emit_pair(first, second)),
    {
        self.write_op_code(first);
        self.write_op_code(second);
    }

    fn emit_constant(&mut self, value: Value)
        requires
            old(self).wf(),
            old(self).state().previous matches Some(token) && stores(
                old(self).parse_number,
                token.text,
                value,
            ),
        ensures
            old(self).leads_to(final(self), old(self).state().number()),
            pushes(old(self).state(), final(self).state(), 0, 1),
    {
        let line_no = self.line_number();
        proof {
            self.literals@ = self.literals@.push(self.state().previous->Some_0.text);
        }
        let written = self.chunk.write_constant(value, line_no);
        if let Err(err) = written {
            self.error(err.description());
        } else {
            proof {
                let index = old(self).state().literals.len();
                lemma_depth_after_load(index, index + 1, 0);
                assert(self.state().code.skip(old(self).state().code.len() as int)
                    =~= constant_load(index));
            }
        }
    }

    // Expression parsing
    // ------------------
    fn binary(&mut self)
        requires
            old(self).wf(),
            old(self).state().current is Some,
            old(self).state().previous is Some,
            rule(old(self).state().previous_kind()).infix is Some,
        ensures
            old(self).leads_to(
                final(self),
                old(self).state().parse_precedence(
                    old(self).bytes(),
                    rule(old(self).state().previous_kind()).precedence.above(),
                ).binary_operator(old(self).state().previous_kind()),
            ),
            pushes(old(self).state(), final(self).state(), 1, 1),
        decreases old(self).state().remaining(old(self).bytes()), 2int,
    {
        let operator_type = self.previous_token_type();

        // Compile the right operand
        // Use one higher precedence due to operators being left-associative
        let rule = get_rule(operator_type);
        let precedence = rule.precedence.next();
        self.parse_precedence(precedence);
        let ghost entry = old(self).state();
        let ghost operand = self.state();
        proof {
            lemma_pushes_deeper(entry, operand, 0, 1, 1);
            match operator_type {
                TokenType::BangEqual => {
                    lemma_pushes_operator_pair(entry, operand, OpCode::Equal, OpCode::Not, 1, 2);
                },
                TokenType::EqualEqual => {
                    lemma_pushes_operator(entry, operand, OpCode::Equal, 1, 2);
                },
                TokenType::Greater => {
                    lemma_pushes_operator(entry, operand, OpCode::Greater, 1, 2);
                },
                TokenType::GreaterEqual => {
                    lemma_pushes_operator_pair(entry, operand, OpCode::Less, OpCode::Not, 1, 2);
                },
                TokenType::Less => {
                    lemma_pushes_operator(entry, operand, OpCode::Less, 1, 2);
                },
                TokenType::LessEqual => {
                    lemma_pushes_operator_pair(entry, operand, OpCode::Greater, OpCode::Not, 1, 2);
                },
                TokenType::Plus => {
                    lemma_pushes_operator(entry, operand, OpCode::Add, 1, 2);
                },
                TokenType::Minus => {
                    lemma_pushes_operator(entry, operand, OpCode::Subtract, 1, 2);
                },
                TokenType::Star => {
                    lemma_pushes_operator(entry, operand, OpCode::Multiply, 1, 2);
                },
                TokenType::Slash => {
                    lemma_pushes_operator(entry, operand, OpCode::Divide, 1, 2);
                },
                _ => {},
            }
        }

        // Emit the operator instruction
        match operator_type {
            TokenType::BangEqual => self.write_op_codes(OpCode::Equal, OpCode::Not),
            TokenType::EqualEqual => self.write_op_code(OpCode::Equal),
            TokenType::Greater => self.write_op_code(OpCode::Greater),
            TokenType::GreaterEqual => self.write_op_codes(OpCode::Less, OpCode::Not),
            TokenType::Less => self.write_op_code(OpCode::Less),
            TokenType::LessEqual => self.write_op_codes(OpCode::Greater, OpCode::Not),
            TokenType::Plus => self.write_op_code(OpCode::Add),
            TokenType::Minus => self.write_op_code(OpCode::Subtract),
            TokenType::Star => self.write_op_code(OpCode::Multiply),
            TokenType::Slash => self.write_op_code(OpCode::Divide),
            _ => {
                self.error("Invalid binary operator");
                proof {
                    lemma_pushes_nothing(operand, self.state(), 2);
                    lemma_pushes_chain(entry, operand, self.state(), 1, 2, 1);
                }
            },
        }
    }

    fn expression(&mut self)
        requires
            old(self).wf(),
            old(self).state().current is Some,
        ensures
            old(self).leads_to(
                final(self),
                old(self).state().parse_precedence(old(self).bytes(), Precedence::Assignment),
            ),
            pushes(old(self).state(), final(self).state(), 0, 1),
        decreases old(self).state().remaining(old(self).bytes()), 1int,
    {
        self.parse_precedence(Precedence::Assignment);
    }

    fn grouping(&mut self)
        requires
            old(self).wf(),
            old(self).state().current is Some,
        ensures
            old(self).leads_to(
                final(self),
                old(self).state().parse_precedence(
                    old(self).bytes(),
                    Precedence::Assignment,
                ).consume(old(self).bytes(), TokenType::RightParen, "Expected ')' after expression"@),
            ),
            pushes(old(self).state(), final(self).state(), 0, 1),
        decreases old(self).state().remaining(old(self).bytes()), 2int,
    {
        self.expression();
        let ghost inner = self.state();
        self.consume(TokenType::RightParen, "Expected ')' after expression");
        proof {
            lemma_pushes_nothing(inner, self.state(), 1);
            lemma_pushes_chain(old(self).state(), inner, self.state(), 0, 1, 1);
        }
    }

    fn literal(&mut self)
        requires
            old(self).wf(),
            old(self).state().previous is Some,
            rule(old(self).state().previous_kind()).prefix == Some(PrefixRule::Literal),
        ensures
            old(self).leads_to(final(self), old(self).state().literal()),
            pushes(old(self).state(), final(self).state(), 0, 1),
    {
        proof {
            let entry = self.state();
            lemma_pushes_nothing(entry, entry, 0);
            lemma_pushes_operator(entry, entry, OpCode::True, 0, 0);
            lemma_pushes_operator(entry, entry, OpCode::False, 0, 0);
            lemma_pushes_operator(entry, entry, OpCode::Nil, 0, 0);
        }
        let op = self.previous_token_type();
        match op {
            TokenType::True => self.write_instruction(SimpleInstruction::new(OpCode::True)),
            TokenType::False => self.write_instruction(SimpleInstruction::new(OpCode::False)),
            TokenType::Nil => self.write_instruction(SimpleInstruction::new(OpCode::Nil)),
            _ => {},
        }
    }

    fn number(&mut self)
        requires
            old(self).wf(),
            old(self).state().previous is Some,
        ensures
            old(self).leads_to(final(self), old(self).state().number()),
            pushes(old(self).state(), final(self).state(), 0, 1),
    {
        let lexeme = match self.parser.previous {
            Some(token) => token.source,
            None => "",
        };
        let bits = (self.parse_number)(lexeme);
        let value = Value::number(bits);
        self.emit_constant(value);
    }

    fn parse_precedence(&mut self, precedence: Precedence)
        requires
            old(self).wf(),
            old(self).state().current is Some,
            precedence.level() >= 1,
        ensures
            old(self).leads_to(
                final(self),
                old(self).state().parse_precedence(old(self).bytes(), precedence),
            ),
            pushes(old(self).state(), final(self).state(), 0, 1),
        decreases old(self).state().remaining(old(self).bytes()), 0int,
    {
        let ghost bytes = self.bytes();
        let ghost entry = self.state();
        self.advance();
        let ghost advanced = self.state();
        let parse_rule = get_rule(self.previous_token_type());
        match parse_rule.prefix {
            Some(PrefixRule::Grouping) => self.grouping(),
            Some(PrefixRule::Unary) => self.unary(),
            Some(PrefixRule::Number) => self.number(),
            Some(PrefixRule::Literal) => self.literal(),
            None => {
                self.error("Expected expression.");
                proof {
                    lemma_pushes_nothing(advanced, self.state(), 0);
                }
            },
        }
        proof {
            lemma_pushes_nothing(entry, advanced, 0);
            lemma_pushes_chain(entry, advanced, self.state(), 0, 0, 1);
        }
        let ghost goal = self.state().infix_operators(bytes, precedence);

        while precedence.to_usize() <= get_rule(self.current_token_type()).precedence.to_usize()
            invariant
                self.wf(),
                self.scanner.text() == old(self).scanner.text(),
                self.parse_number == old(self).parse_number,
                bytes == self.bytes(),
                precedence.level() >= 1,
                self.state().current is Some,
                entry == old(self).state(),
                bytes == old(self).bytes(),
                self.state().remaining(bytes) <= entry.remaining(bytes),
                self.state().infix_operators(bytes, precedence) == goal,
                pushes(entry, self.state(), 0, 1),
            decreases self.state().remaining(bytes),
        {
            let ghost left = self.state();
            self.advance();
            let ghost advanced = self.state();
            let parse_rule = get_rule(self.previous_token_type());
            match parse_rule.infix {
                Some(InfixRule::Binary) => self.binary(),
                None => {
                    self.error("No infix parsing method set.");
                    proof {
                        lemma_pushes_nothing(advanced, self.state(), 1);
                    }
                },
            }
            proof {
                lemma_pushes_nothing(left, advanced, 1);
                lemma_pushes_chain(left, advanced, self.state(), 1, 1, 1);
                lemma_pushes_chain(entry, left, self.state(), 0, 1, 1);
            }
        }
    }

    fn unary(&mut self)
        requires
            old(self).wf(),
            old(self).state().current is Some,
            old(self).state().previous is Some,
        ensures
            old(self).leads_to(
                final(self),
                old(self).state().parse_precedence(
                    old(self).bytes(),
                    Precedence::Unary,
                ).unary_operator(old(self).state().previous_kind()),
            ),
            pushes(old(self).state(), final(self).state(), 0, 1),
        decreases old(self).state().remaining(old(self).bytes()), 2int,
    {
        let operator_type = self.previous_token_type();

        // Compile the operand
        self.parse_precedence(Precedence::Unary);
        let ghost operand = self.state();
        proof {
            lemma_pushes_operator(old(self).state(), operand, OpCode::Not, 0, 1);
            lemma_pushes_operator(old(self).state(), operand, OpCode::Negate, 0, 1);
        }

        // Emit the operator instruction
        match operator_type {
            TokenType::Bang => {
                self.write_op_code(OpCode::Not);
            },
            TokenType::Minus => {
                self.write_op_code(OpCode::Negate);
            },
            _ => {
                self.error("Invalid unary operator");
                proof {
                    lemma_pushes_nothing(operand, self.state(), 1);
                    lemma_pushes_chain(old(self).state(), operand, self.state(), 0, 1, 1);
                }
            },
        }
    }

    fn compile(self) -> (result: InterpretResult<Chunk>)
        requires
            self.wf(),
            self.state() == ParseState::initial(),
        ensures
            compiles_to(self.bytes(), self.parse_number, result),
            result matches Ok(chunk) ==> runnable(chunk),
    {
        let mut compiler = self;
        compiler.advance();
        let ghost primed = compiler.state();
        compiler.expression();
        let ghost parsed = compiler.state();
        compiler.consume(TokenType::Eof, "Expected end of expression");
        let ghost ended = compiler.state();
        proof {
            assert(primed.code =~= Seq::<u8>::empty());
            lemma_pushes_nothing(parsed, ended, 1);
            lemma_pushes_chain(primed, parsed, ended, 0, 1, 1);
            assert(ended.code.skip(0) =~= ended.code);
        }
        if compiler.parser.had_error {
            let report = match compiler.parser.report {
                Some(report) => report,
                None => String::from_str(""),
            };
            Err(InterpretError::CompileError(report))
        } else {
            compiler.end_compiler();
            proof {
                let code = compiler.state().code;
                assert(code.drop_last() =~= ended.code);
                assert(code.last() == OpCode::Return.byte());
            }
            Ok(compiler.chunk)
        }
    }
}

/// `result` is what the compilation of the source `bytes` gives: the chunk
/// emitted, with one constant per number literal, converted by
/// `parse_number`; or, where an error was found, the first diagnostic.
pub open spec fn compiles_to<F: Fn(&str) -> u64>(
    bytes: Seq<u8>,
    parse_number: F,
    result: InterpretResult<Chunk>,
) -> bool {
    let end = ParseState::compiled(bytes);
    match result {
        Ok(chunk) => {
            &&& !end.had_error
            &&& chunk.wf()
            &&& chunk.code@ == end.code
            &&& chunk.lines@ == end.lines
            &&& chunk.constants@.len() == end.literals.len()
            &&& forall|i: int|
                0 <= i < end.literals.len() ==> stores(
                    parse_number,
                    #[trigger] end.literals[i],
                    chunk.constants@[i],
                )
        },
        Err(error) => {
            &&& end.had_error
            &&& end.report matches Some(report) && error.is_compile_error(report)
        },
    }
}

/// Compiles the expression in `source` to a chunk. The value of each number
/// literal is the bit pattern that `parse_number` gives for its text.
pub fn compile<F: Fn(&str) -> u64>(source: &str, parse_number: F) -> (result: InterpretResult<Chunk>)
    requires
        source.spec_bytes().len() < usize::MAX,
        forall|lexeme: &str| #[trigger] parse_number.requires((lexeme,)),
    ensures
        compiles_to(source.spec_bytes(), parse_number, result),
        result matches Ok(chunk) ==> runnable(chunk),
{
    let scanner = Scanner::new(source);
    let compiler = Compiler::new(scanner, parse_number);
    compiler.compile()
}

} // verus!
