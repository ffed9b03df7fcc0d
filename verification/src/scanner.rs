//! Tokens, lexical and syntactic errors, and the scanner that turns source
//! text into tokens.
//!
//! What the scanner produces is defined by [`scan`], a function of the
//! characters of the source alone; [`Scanner::scan_tokens`] computes it.
//! A number token leaves the scanner with its text only: the host reads the
//! text as a number, and [`attach_numbers`] attaches the value.

use crate::text::{chars_of, decimal, decimal_string, spells, string_of};
use vstd::prelude::*;

verus! {

/// The lexical category of a token.
#[derive(Debug, PartialEq, Eq, Clone, Copy, Structural)]
pub enum TokenType {
    // Single-character tokens.
    LeftParen,
    RightParen,
    LeftBrace,
    RightBrace,
    Comma,
    Dot,
    Minus,
    Plus,
    Semicolon,
    Slash,
    Star,
    // One or two character tokens.
    Bang,
    BangEqual,
    Equal,
    EqualEqual,
    Greater,
    GreaterEqual,
    Less,
    LessEqual,
    // Literals.
    Identifier,
    String,
    Number,
    // Keywords.
    And,
    Class,
    Else,
    False,
    Fun,
    For,
    If,
    Nil,
    Or,
    Print,
    Return,
    Super,
    This,
    True,
    Var,
    While,
    Eof,
}

/// A value of the language. A number is an IEEE-754 binary64 value, held as
/// its bit pattern.
#[derive(Debug, PartialEq)]
pub enum LiteralValue {
    String(String),
    Number(u64),
    Boolean(bool),
    Nil,
}

/// The mathematical content of a [`LiteralValue`].
pub enum Value {
    String(Seq<char>),
    Number(u64),
    Boolean(bool),
    Nil,
}

impl View for LiteralValue {
    type V = Value;

    open spec fn view(&self) -> Value {
        match self {
            LiteralValue::String(s) => Value::String(s@),
            LiteralValue::Number(n) => Value::Number(*n),
            LiteralValue::Boolean(b) => Value::Boolean(*b),
            LiteralValue::Nil => Value::Nil,
        }
    }
}

impl Clone for LiteralValue {
    fn clone(&self) -> (r: Self)
        ensures
            r == *self,
    {
        match self {
            LiteralValue::String(s) => LiteralValue::String(s.clone()),
            LiteralValue::Number(n) => LiteralValue::Number(*n),
            LiteralValue::Boolean(b) => LiteralValue::Boolean(*b),
            LiteralValue::Nil => LiteralValue::Nil,
        }
    }
}

/// The content of an optional literal.
pub open spec fn literal_view(literal: Option<LiteralValue>) -> Option<Value> {
    match literal {
        Some(v) => Some(v@),
        None => None,
    }
}

/// A token: its category, the source text it was read from, the value it
/// denotes if it is a literal, and the line it ends on.
#[derive(Debug, PartialEq)]
pub struct Token {
    pub token_type: TokenType,
    pub lexeme: String,
    pub literal: Option<LiteralValue>,
    pub line: usize,
}

/// The mathematical content of a [`Token`].
pub struct TokenView {
    pub token_type: TokenType,
    pub lexeme: Seq<char>,
    pub literal: Option<Value>,
    pub line: nat,
}

impl View for Token {
    type V = TokenView;

    open spec fn view(&self) -> TokenView {
        TokenView {
            token_type: self.token_type,
            lexeme: self.lexeme@,
            literal: literal_view(self.literal),
            line: self.line as nat,
        }
    }
}

impl Clone for Token {
    fn clone(&self) -> (r: Self)
        ensures
            r == *self,
    {
        let literal = match &self.literal {
            Some(v) => Some(v.clone()),
            None => None,
        };
        Token { token_type: self.token_type, lexeme: self.lexeme.clone(), literal, line: self.line }
    }
}

/// The contents of a sequence of tokens.
pub open spec fn token_views(tokens: Seq<Token>) -> Seq<TokenView> {
    tokens.map_values(|t: Token| t@)
}

impl Token {
    /// A token of these parts.
    pub fn new(token_type: TokenType, lexeme: String, literal: Option<LiteralValue>, line: usize) -> (r:
        Self)
        ensures
            r == (Token { token_type, lexeme, literal, line }),
    {
        Token { token_type, lexeme, literal, line }
    }

    /// Whether the token is of the given category.
    pub fn is_type(&self, token_type: TokenType) -> (r: bool)
        ensures
            r == (self.token_type == token_type),
    {
        self.token_type == token_type
    }
}

impl TokenType {
    /// The name of the category, as it appears in messages.
    pub open spec fn spec_name(self) -> Seq<char> {
        match self {
            TokenType::LeftParen => "LeftParen"@,
            TokenType::RightParen => "RightParen"@,
            TokenType::LeftBrace => "LeftBrace"@,
            TokenType::RightBrace => "RightBrace"@,
            TokenType::Comma => "Comma"@,
            TokenType::Dot => "Dot"@,
            TokenType::Minus => "Minus"@,
            TokenType::Plus => "Plus"@,
            TokenType::Semicolon => "Semicolon"@,
            TokenType::Slash => "Slash"@,
            TokenType::Star => "Star"@,
            TokenType::Bang => "Bang"@,
            TokenType::BangEqual => "BangEqual"@,
            TokenType::Equal => "Equal"@,
            TokenType::EqualEqual => "EqualEqual"@,
            TokenType::Greater => "Greater"@,
            TokenType::GreaterEqual => "GreaterEqual"@,
            TokenType::Less => "Less"@,
            TokenType::LessEqual => "LessEqual"@,
            TokenType::Identifier => "Identifier"@,
            TokenType::String => "String"@,
            TokenType::Number => "Number"@,
            TokenType::And => "And"@,
            TokenType::Class => "Class"@,
            TokenType::Else => "Else"@,
            TokenType::False => "False"@,
            TokenType::Fun => "Fun"@,
            TokenType::For => "For"@,
            TokenType::If => "If"@,
            TokenType::Nil => "Nil"@,
            TokenType::Or => "Or"@,
            TokenType::Print => "Print"@,
            TokenType::Return => "Return"@,
            TokenType::Super => "Super"@,
            TokenType::This => "This"@,
            TokenType::True => "True"@,
            TokenType::Var => "Var"@,
            TokenType::While => "While"@,
            TokenType::Eof => "Eof"@,
        }
    }

    /// The name of the category, as it appears in messages.
    pub fn name(self) -> (r: &'static str)
        ensures
            r@ == self.spec_name(),
    {
        match self {
            TokenType::LeftParen => "LeftParen",
            TokenType::RightParen => "RightParen",
            TokenType::LeftBrace => "LeftBrace",
            TokenType::RightBrace => "RightBrace",
            TokenType::Comma => "Comma",
            TokenType::Dot => "Dot",
            TokenType::Minus => "Minus",
            TokenType::Plus => "Plus",
            TokenType::Semicolon => "Semicolon",
            TokenType::Slash => "Slash",
            TokenType::Star => "Star",
            TokenType::Bang => "Bang",
            TokenType::BangEqual => "BangEqual",
            TokenType::Equal => "Equal",
            TokenType::EqualEqual => "EqualEqual",
            TokenType::Greater => "Greater",
            TokenType::GreaterEqual => "GreaterEqual",
            TokenType::Less => "Less",
            TokenType::LessEqual => "LessEqual",
            TokenType::Identifier => "Identifier",
            TokenType::String => "String",
            TokenType::Number => "Number",
            TokenType::And => "And",
            TokenType::Class => "Class",
            TokenType::Else => "Else",
            TokenType::False => "False",
            TokenType::Fun => "Fun",
            TokenType::For => "For",
            TokenType::If => "If",
            TokenType::Nil => "Nil",
            TokenType::Or => "Or",
            TokenType::Print => "Print",
            TokenType::Return => "Return",
            TokenType::Super => "Super",
            TokenType::This => "This",
            TokenType::True => "True",
            TokenType::Var => "Var",
            TokenType::While => "While",
            TokenType::Eof => "Eof",
        }
    }
}

/// A lexical or syntactic error.
#[derive(Debug, PartialEq)]
pub enum ParseError {
    /// A character that starts no token, and the line it stands on.
    UnexpectedCharacter(char, usize),
    /// A token that cannot stand where it does, and why.
    UnexpectedToken(Token, String),
    /// The category that was expected, and the token found in its place.
    ExpectedToken(TokenType, Token),
    /// A string literal without its closing quote, and the line it starts on.
    UnterminatedString(usize),
    /// The token sequence ran out.
    EndOfFile,
}

/// The mathematical content of a [`ParseError`].
pub enum ParseErrorView {
    UnexpectedCharacter(char, nat),
    UnexpectedToken(TokenView, Seq<char>),
    ExpectedToken(TokenType, TokenView),
    UnterminatedString(nat),
    EndOfFile,
}

impl View for ParseError {
    type V = ParseErrorView;

    open spec fn view(&self) -> ParseErrorView {
        match self {
            ParseError::UnexpectedCharacter(c, line) => ParseErrorView::UnexpectedCharacter(
                *c,
                *line as nat,
            ),
            ParseError::UnexpectedToken(token, message) => ParseErrorView::UnexpectedToken(
                token@,
                message@,
            ),
            ParseError::ExpectedToken(expected, found) => ParseErrorView::ExpectedToken(
                *expected,
                found@,
            ),
            ParseError::UnterminatedString(line) => ParseErrorView::UnterminatedString(
                *line as nat,
            ),
            ParseError::EndOfFile => ParseErrorView::EndOfFile,
        }
    }
}

impl Clone for ParseError {
    fn clone(&self) -> (r: Self)
        ensures
            r == *self,
    {
        match self {
            ParseError::UnexpectedCharacter(c, line) => ParseError::UnexpectedCharacter(*c, *line),
            ParseError::UnexpectedToken(token, message) => ParseError::UnexpectedToken(
                token.clone(),
                message.clone(),
            ),
            ParseError::ExpectedToken(expected, found) => ParseError::ExpectedToken(
                *expected,
                found.clone(),
            ),
            ParseError::UnterminatedString(line) => ParseError::UnterminatedString(*line),
            ParseError::EndOfFile => ParseError::EndOfFile,
        }
    }
}

impl ParseErrorView {
    /// The message of the error: the line first, then what went wrong.
    pub open spec fn message(self) -> Seq<char> {
        match self {
            ParseErrorView::UnexpectedCharacter(c, line) => "Line "@ + decimal(line)
                + ": Unexpected character '"@ + seq![c] + "'"@,
            ParseErrorView::UnexpectedToken(token, message) => "Line "@ + decimal(token.line)
                + ": Unexpected token '"@ + token.lexeme + "': "@ + message,
            ParseErrorView::ExpectedToken(expected, found) => "Line "@ + decimal(found.line)
                + ": Expected token '"@ + expected.spec_name() + "', but found '"@ + found.lexeme
                + "'"@,
            ParseErrorView::UnterminatedString(line) => "Line "@ + decimal(line)
                + ": Unterminated string"@,
            ParseErrorView::EndOfFile => "Unexpected end of file"@,
        }
    }
}

impl ParseError {
    /// The message of the error.
    pub fn to_string(&self) -> (r: String)
        ensures
            r@ == self@.message(),
    {
        match self {
            ParseError::UnexpectedCharacter(c, line) => {
                let mut s = String::from_str("Line ");
                s.append(decimal_string(*line).as_str());
                s.append(": Unexpected character '");
                s.push(*c);
                s.append("'");
                assert(s@ =~= self@.message());
                s
            },
            ParseError::UnexpectedToken(token, message) => {
                let mut s = String::from_str("Line ");
                s.append(decimal_string(token.line).as_str());
                s.append(": Unexpected token '");
                s.append(token.lexeme.as_str());
                s.append("': ");
                s.append(message.as_str());
                assert(s@ =~= self@.message());
                s
            },
            ParseError::ExpectedToken(expected, found) => {
                let mut s = String::from_str("Line ");
                s.append(decimal_string(found.line).as_str());
                s.append(": Expected token '");
                s.append(expected.name());
                s.append("', but found '");
                s.append(found.lexeme.as_str());
                s.append("'");
                assert(s@ =~= self@.message());
                s
            },
            ParseError::UnterminatedString(line) => {
                let mut s = String::from_str("Line ");
                s.append(decimal_string(*line).as_str());
                s.append(": Unterminated string");
                assert(s@ =~= self@.message());
                s
            },
            ParseError::EndOfFile => String::from_str("Unexpected end of file"),
        }
    }
}

// ---------------------------------------------------------------------------
// What scanning means
// ---------------------------------------------------------------------------

/// An ASCII digit.
pub open spec fn spec_is_digit(c: char) -> bool {
    '0' <= c <= '9'
}

/// An ASCII letter or an underscore.
pub open spec fn spec_is_alpha(c: char) -> bool {
    'a' <= c <= 'z' || 'A' <= c <= 'Z' || c == '_'
}

/// An ASCII letter, an ASCII digit or an underscore.
pub open spec fn spec_is_alphanumeric(c: char) -> bool {
    spec_is_alpha(c) || spec_is_digit(c)
}

/// The kinds of maximal runs of characters that the scanner reads.
pub enum Run {
    /// Digits of a number.
    Digits,
    /// Letters, digits and underscores of an identifier or keyword.
    Word,
    /// The rest of a comment line: anything but a newline.
    Comment,
    /// The inside of a string literal: anything but a double quote.
    Text,
}

/// Whether `c` continues a run of the given kind.
pub open spec fn continues(run: Run, c: char) -> bool {
    match run {
        Run::Digits => spec_is_digit(c),
        Run::Word => spec_is_alphanumeric(c),
        Run::Comment => c != '\n',
        Run::Text => c != '"',
    }
}

/// Where the maximal run of the given kind that starts at `from` ends: the
/// first position at or after `from` whose character does not continue the
/// run, or the end of the text.
pub open spec fn run_end(s: Seq<char>, from: int, run: Run) -> int
    decreases s.len() - from,
{
    if 0 <= from < s.len() && continues(run, s[from]) {
        run_end(s, from + 1, run)
    } else {
        from
    }
}

/// The number of newlines in `s[0..upto]`.
pub open spec fn newlines(s: Seq<char>, upto: int) -> nat
    decreases upto,
{
    if upto <= 0 {
        0
    } else {
        newlines(s, upto - 1) + if s[upto - 1] == '\n' {
            1nat
        } else {
            0nat
        }
    }
}

/// The line, counted from 1, that position `pos` of `s` lies on.
pub open spec fn line_at(s: Seq<char>, pos: int) -> nat {
    1 + newlines(s, pos)
}

/// The category of a reserved word, or `None` for any other text.
pub open spec fn keyword(text: Seq<char>) -> Option<TokenType> {
    if text == "and"@ {
        Some(TokenType::And)
    } else if text == "class"@ {
        Some(TokenType::Class)
    } else if text == "else"@ {
        Some(TokenType::Else)
    } else if text == "false"@ {
        Some(TokenType::False)
    } else if text == "for"@ {
        Some(TokenType::For)
    } else if text == "fun"@ {
        Some(TokenType::Fun)
    } else if text == "if"@ {
        Some(TokenType::If)
    } else if text == "nil"@ {
        Some(TokenType::Nil)
    } else if text == "or"@ {
        Some(TokenType::Or)
    } else if text == "print"@ {
        Some(TokenType::Print)
    } else if text == "return"@ {
        Some(TokenType::Return)
    } else if text == "super"@ {
        Some(TokenType::Super)
    } else if text == "this"@ {
        Some(TokenType::This)
    } else if text == "true"@ {
        Some(TokenType::True)
    } else if text == "var"@ {
        Some(TokenType::Var)
    } else if text == "while"@ {
        Some(TokenType::While)
    } else {
        None
    }
}

/// What stands at one position of the source.
pub enum Lexed {
    /// A token, and the position after it.
    Token(TokenView, int),
    /// Whitespace or a comment, and the position after it.
    Skip(int),
    /// Nothing that can be read.
    Error(ParseErrorView),
}

/// The token of the given category that spans `s[pos..end]`. Its line is the
/// line it ends on.
pub open spec fn token_at(
    s: Seq<char>,
    pos: int,
    end: int,
    token_type: TokenType,
    literal: Option<Value>,
) -> Lexed {
    Lexed::Token(
        TokenView { token_type, lexeme: s.subrange(pos, end), literal, line: line_at(s, end) },
        end,
    )
}

/// Whether the character after position `pos` is `c`.
pub open spec fn followed_by(s: Seq<char>, pos: int, c: char) -> bool {
    pos + 1 < s.len() && s[pos + 1] == c
}

/// An operator that may be followed by `=` to make another.
pub open spec fn one_or_two(s: Seq<char>, pos: int, single: TokenType, double: TokenType) -> Lexed {
    if followed_by(s, pos, '=') {
        token_at(s, pos, pos + 2, double, None)
    } else {
        token_at(s, pos, pos + 1, single, None)
    }
}

/// Where the number that starts at `pos` ends: after its digits, and after a
/// point and further digits if a digit follows the point.
pub open spec fn number_end(s: Seq<char>, pos: int) -> int {
    let whole = run_end(s, pos, Run::Digits);
    if whole + 1 < s.len() && s[whole] == '.' && spec_is_digit(s[whole + 1]) {
        run_end(s, whole + 1, Run::Digits)
    } else {
        whole
    }
}

/// The category of the word `text`: that of the reserved word it spells, else
/// an identifier.
pub open spec fn word_type(text: Seq<char>) -> TokenType {
    match keyword(text) {
        Some(t) => t,
        None => TokenType::Identifier,
    }
}

/// What stands at position `pos` of `s`, which must lie inside `s`.
pub open spec fn lex(s: Seq<char>, pos: int) -> Lexed
    recommends
        0 <= pos < s.len(),
{
    let c = s[pos];
    if c == '(' {
        token_at(s, pos, pos + 1, TokenType::LeftParen, None)
    } else if c == ')' {
        token_at(s, pos, pos + 1, TokenType::RightParen, None)
    } else if c == '{' {
        token_at(s, pos, pos + 1, TokenType::LeftBrace, None)
    } else if c == '}' {
        token_at(s, pos, pos + 1, TokenType::RightBrace, None)
    } else if c == ',' {
        token_at(s, pos, pos + 1, TokenType::Comma, None)
    } else if c == '.' {
        token_at(s, pos, pos + 1, TokenType::Dot, None)
    } else if c == '-' {
        token_at(s, pos, pos + 1, TokenType::Minus, None)
    } else if c == '+' {
        token_at(s, pos, pos + 1, TokenType::Plus, None)
    } else if c == ';' {
        token_at(s, pos, pos + 1, TokenType::Semicolon, None)
    } else if c == '*' {
        token_at(s, pos, pos + 1, TokenType::Star, None)
    } else if c == '!' {
        one_or_two(s, pos, TokenType::Bang, TokenType::BangEqual)
    } else if c == '=' {
        one_or_two(s, pos, TokenType::Equal, TokenType::EqualEqual)
    } else if c == '<' {
        one_or_two(s, pos, TokenType::Less, TokenType::LessEqual)
    } else if c == '>' {
        one_or_two(s, pos, TokenType::Greater, TokenType::GreaterEqual)
    } else if c == '/' {
        if followed_by(s, pos, '/') {
            Lexed::Skip(run_end(s, pos + 2, Run::Comment))
        } else {
            token_at(s, pos, pos + 1, TokenType::Slash, None)
        }
    } else if c == ' ' || c == '\r' || c == '\t' || c == '\n' {
        Lexed::Skip(pos + 1)
    } else if c == '"' {
        let close = run_end(s, pos + 1, Run::Text);
        if close >= s.len() {
            Lexed::Error(ParseErrorView::UnterminatedString(line_at(s, pos)))
        } else {
            token_at(
                s,
                pos,
                close + 1,
                TokenType::String,
                Some(Value::String(s.subrange(pos + 1, close))),
            )
        }
    } else if spec_is_digit(c) {
        token_at(s, pos, number_end(s, pos), TokenType::Number, None)
    } else if spec_is_alpha(c) {
        let end = run_end(s, pos + 1, Run::Word);
        token_at(s, pos, end, word_type(s.subrange(pos, end)), None)
    } else {
        Lexed::Error(ParseErrorView::UnexpectedCharacter(c, line_at(s, pos)))
    }
}

/// The token that closes every token sequence.
pub open spec fn end_of_input(s: Seq<char>) -> TokenView {
    TokenView {
        token_type: TokenType::Eof,
        lexeme: Seq::empty(),
        literal: None,
        line: line_at(s, s.len() as int),
    }
}

/// `tokens` in front of what the rest of the scan gives.
pub open spec fn preceded_by(
    tokens: Seq<TokenView>,
    rest: Result<Seq<TokenView>, ParseErrorView>,
) -> Result<Seq<TokenView>, ParseErrorView> {
    match rest {
        Ok(more) => Ok(tokens + more),
        Err(e) => Err(e),
    }
}

/// The tokens of `s` from position `pos` on, closed by the end-of-input
/// token, or the first lexical error.
pub open spec fn scan_from(s: Seq<char>, pos: int) -> Result<Seq<TokenView>, ParseErrorView>
    decreases s.len() - pos,
{
    if !(0 <= pos < s.len()) {
        Ok(seq![end_of_input(s)])
    } else {
        proof {
            lemma_lex_advances(s, pos);
        }
        match lex(s, pos) {
            Lexed::Token(token, end) => preceded_by(seq![token], scan_from(s, end)),
            Lexed::Skip(end) => scan_from(s, end),
            Lexed::Error(e) => Err(e),
        }
    }
}

/// Where the scanner stands after the lexical error at `pos`: at the end of
/// the source if a string lacks its closing quote, else behind the character
/// that starts no token.
pub open spec fn error_end(s: Seq<char>, pos: int) -> int {
    if s[pos] == '"' {
        s.len() as int
    } else {
        pos + 1
    }
}

/// Where the scan from `pos` stops: at the end of the source, or where the
/// first lexical error leaves the scanner.
pub open spec fn scan_end(s: Seq<char>, pos: int) -> int
    decreases s.len() - pos,
{
    if !(0 <= pos < s.len()) {
        pos
    } else {
        proof {
            lemma_lex_advances(s, pos);
        }
        match lex(s, pos) {
            Lexed::Token(_, end) => scan_end(s, end),
            Lexed::Skip(end) => scan_end(s, end),
            Lexed::Error(_) => error_end(s, pos),
        }
    }
}

/// Where the last lexeme of the scan from `pos` starts: that of the last
/// token, blank or comment read, or of the first lexical error; `start` if
/// nothing is left to read.
pub open spec fn scan_start(s: Seq<char>, pos: int, start: int) -> int
    decreases s.len() - pos,
{
    if !(0 <= pos < s.len()) {
        start
    } else {
        proof {
            lemma_lex_advances(s, pos);
        }
        match lex(s, pos) {
            Lexed::Token(_, end) => scan_start(s, end, pos),
            Lexed::Skip(end) => scan_start(s, end, pos),
            Lexed::Error(_) => pos,
        }
    }
}

/// The literal of a number token whose text was read as `value`.
pub open spec fn number_literal(value: Option<u64>) -> Option<Value> {
    match value {
        Some(bits) => Some(Value::Number(bits)),
        None => None,
    }
}

/// A token with the value of its text attached, if it is a number token.
pub open spec fn with_number(token: TokenView, value: Option<u64>) -> TokenView {
    if token.token_type == TokenType::Number {
        TokenView { literal: number_literal(value), ..token }
    } else {
        token
    }
}

/// The tokens of a source text, or its first lexical error.
pub open spec fn scan(s: Seq<char>) -> Result<Seq<TokenView>, ParseErrorView> {
    scan_from(s, 0)
}

/// A run ends between its start and the end of the text, holds only
/// characters that continue it, and is maximal.
pub proof fn lemma_run_end(s: Seq<char>, from: int, run: Run)
    requires
        0 <= from <= s.len(),
    ensures
        from <= run_end(s, from, run) <= s.len(),
        forall|k: int| from <= k < run_end(s, from, run) ==> continues(run, #[trigger] s[k]),
        run_end(s, from, run) < s.len() ==> !continues(run, s[run_end(s, from, run)]),
    decreases s.len() - from,
{
    if from < s.len() && continues(run, s[from]) {
        lemma_run_end(s, from + 1, run);
    }
}

/// There are no more newlines than characters.
pub proof fn lemma_newlines_bound(s: Seq<char>, upto: int)
    requires
        0 <= upto,
    ensures
        newlines(s, upto) <= upto,
    decreases upto,
{
    if upto > 0 {
        lemma_newlines_bound(s, upto - 1);
    }
}

/// Across characters that are no newlines the line stays the same.
pub proof fn lemma_same_line(s: Seq<char>, from: int, to: int)
    requires
        0 <= from <= to <= s.len(),
        forall|k: int| from <= k < to ==> #[trigger] s[k] != '\n',
    ensures
        line_at(s, to) == line_at(s, from),
    decreases to - from,
{
    if from < to {
        lemma_same_line(s, from, to - 1);
    }
}

/// Whatever stands at a position of the source ends after that position and
/// inside the source.
pub proof fn lemma_lex_advances(s: Seq<char>, pos: int)
    requires
        0 <= pos < s.len(),
    ensures
        match lex(s, pos) {
            Lexed::Token(_, end) => pos < end <= s.len(),
            Lexed::Skip(end) => pos < end <= s.len(),
            Lexed::Error(_) => true,
        },
{
    let c = s[pos];
    if c == '/' && followed_by(s, pos, '/') {
        lemma_run_end(s, pos + 2, Run::Comment);
    } else if c == '"' {
        lemma_run_end(s, pos + 1, Run::Text);
    } else if spec_is_digit(c) {
        lemma_run_end(s, pos, Run::Digits);
        let whole = run_end(s, pos, Run::Digits);
        if whole + 1 < s.len() {
            lemma_run_end(s, whole + 1, Run::Digits);
        }
    } else if spec_is_alpha(c) {
        lemma_run_end(s, pos + 1, Run::Word);
    }
}

/// Numeric text: digits, or digits, a point and digits. `point` is the
/// number of digits in front of the point, or the length of the text if it
/// has no point.
pub open spec fn is_numeric_with(text: Seq<char>, point: int) -> bool {
    &&& 1 <= point <= text.len()
    &&& forall|k: int| 0 <= k < point ==> spec_is_digit(#[trigger] text[k])
    &&& point < text.len() ==> {
        &&& text[point] == '.'
        &&& point + 1 < text.len()
        &&& forall|k: int| point < k < text.len() ==> spec_is_digit(#[trigger] text[k])
    }
}

/// Numeric text: digits, or digits, a point and digits.
pub open spec fn is_numeric(text: Seq<char>) -> bool {
    exists|point: int| is_numeric_with(text, point)
}

/// The text of a number token is numeric text.
pub proof fn lemma_number_lexeme(s: Seq<char>, pos: int)
    requires
        0 <= pos < s.len(),
        lex(s, pos) is Token,
        lex(s, pos)->Token_0.token_type == TokenType::Number,
    ensures
        is_numeric(lex(s, pos)->Token_0.lexeme),
{
    let c = s[pos];
    let text = lex(s, pos)->Token_0.lexeme;
    if c == '"' {
        lemma_run_end(s, pos + 1, Run::Text);
    } else if spec_is_digit(c) {
        lemma_run_end(s, pos, Run::Digits);
        let whole = run_end(s, pos, Run::Digits);
        let end = number_end(s, pos);
        if whole + 1 < s.len() {
            lemma_run_end(s, whole + 1, Run::Digits);
        }
        assert(text == s.subrange(pos, end));
        let point = whole - pos;
        assert forall|k: int| 0 <= k < point implies spec_is_digit(#[trigger] text[k]) by {
            assert(text[k] == s[pos + k]);
            assert(continues(Run::Digits, s[pos + k]));
        }
        if point < text.len() {
            assert(text[point] == s[whole]);
            assert forall|k: int| point < k < text.len() implies spec_is_digit(
                #[trigger] text[k],
            ) by {
                assert(text[k] == s[pos + k]);
                assert(continues(Run::Digits, s[pos + k]));
            }
        }
        assert(is_numeric_with(text, point));
    } else if spec_is_alpha(c) {
        lemma_run_end(s, pos + 1, Run::Word);
    }
}

/// The places of the tokens of the scan from `pos`: for each token but the
/// end of input, where its text starts and where it ends.
pub open spec fn token_spans(s: Seq<char>, pos: int) -> Seq<(int, int)>
    decreases s.len() - pos,
{
    if !(0 <= pos < s.len()) {
        Seq::empty()
    } else {
        proof {
            lemma_lex_advances(s, pos);
        }
        match lex(s, pos) {
            Lexed::Token(_, end) => seq![(pos, end)] + token_spans(s, end),
            Lexed::Skip(end) => token_spans(s, end),
            Lexed::Error(_) => Seq::empty(),
        }
    }
}

/// The tokens of a scan lie in the source in their order and do not
/// overlap: each token but the end of input has a place behind `pos` and
/// inside the source, its text is the source text of that place, and the
/// next token starts at or behind its end.
pub proof fn lemma_token_layout(s: Seq<char>, pos: int, i: int)
    requires
        0 <= pos <= s.len(),
        scan_from(s, pos) is Ok,
        0 <= i < scan_from(s, pos)->Ok_0.len() - 1,
    ensures
        token_spans(s, pos).len() == scan_from(s, pos)->Ok_0.len() - 1,
        pos <= token_spans(s, pos)[i].0 < token_spans(s, pos)[i].1 <= s.len(),
        scan_from(s, pos)->Ok_0[i].lexeme == s.subrange(
            token_spans(s, pos)[i].0,
            token_spans(s, pos)[i].1,
        ),
        i + 1 < token_spans(s, pos).len() ==> token_spans(s, pos)[i].1 <= token_spans(
            s,
            pos,
        )[i + 1].0,
    decreases s.len() - pos,
{
    lemma_span_count(s, pos);
    if pos < s.len() {
        lemma_lex_advances(s, pos);
        match lex(s, pos) {
            Lexed::Token(token, end) => {
                let rest = scan_from(s, end)->Ok_0;
                let spans = token_spans(s, end);
                lemma_span_count(s, end);
                assert(scan_from(s, pos)->Ok_0 =~= seq![token] + rest);
                assert(token_spans(s, pos) =~= seq![(pos, end)] + spans);
                if i == 0 {
                    if spans.len() > 0 {
                        lemma_token_layout(s, end, 0);
                    }
                } else {
                    lemma_token_layout(s, end, i - 1);
                }
            },
            Lexed::Skip(end) => {
                lemma_token_layout(s, end, i);
            },
            Lexed::Error(_) => {},
        }
    }
}

/// A scan has one place for each token but the end of input.
proof fn lemma_span_count(s: Seq<char>, pos: int)
    requires
        0 <= pos <= s.len(),
        scan_from(s, pos) is Ok,
    ensures
        token_spans(s, pos).len() == scan_from(s, pos)->Ok_0.len() - 1,
    decreases s.len() - pos,
{
    if pos < s.len() {
        lemma_lex_advances(s, pos);
        match lex(s, pos) {
            Lexed::Token(token, end) => {
                lemma_span_count(s, end);
            },
            Lexed::Skip(end) => {
                lemma_span_count(s, end);
            },
            Lexed::Error(_) => {},
        }
    }
}

/// The single-character and two-character operators.
pub open spec fn is_operator(t: TokenType) -> bool {
    t == TokenType::LeftParen || t == TokenType::RightParen || t == TokenType::LeftBrace || t
        == TokenType::RightBrace || t == TokenType::Comma || t == TokenType::Dot || t
        == TokenType::Minus || t == TokenType::Plus || t == TokenType::Semicolon || t
        == TokenType::Slash || t == TokenType::Star || t == TokenType::Bang || t
        == TokenType::BangEqual || t == TokenType::Equal || t == TokenType::EqualEqual || t
        == TokenType::Greater || t == TokenType::GreaterEqual || t == TokenType::Less || t
        == TokenType::LessEqual
}

/// What scanning the text of one token alone gives: that token on line 1,
/// and the end of input.
pub open spec fn alone(token: TokenView) -> Result<Seq<TokenView>, ParseErrorView> {
    Ok(
        seq![
            TokenView { line: 1, ..token },
            TokenView { token_type: TokenType::Eof, lexeme: Seq::empty(), literal: None, line: 1 },
        ],
    )
}

/// A text without newlines whose first position holds a token that spans
/// the whole text scans to that token and the end of input.
proof fn lemma_scan_single(text: Seq<char>, token: TokenView)
    requires
        text.len() == 1 || text.len() == 2,
        forall|k: int| 0 <= k < text.len() ==> #[trigger] text[k] != '\n',
        lex(text, 0) == Lexed::Token(token, text.len() as int),
    ensures
        scan(text) == Ok::<Seq<TokenView>, ParseErrorView>(seq![token, end_of_input(text)]),
        end_of_input(text).line == 1,
{
    reveal_with_fuel(scan_from, 2);
    lemma_same_line(text, 0, text.len() as int);
    assert(newlines(text, 0) == 0);
    assert(seq![token] + seq![end_of_input(text)] =~= seq![token, end_of_input(text)]);
}

/// Scanning the text of an operator token alone gives a token of the same
/// category, with the same text: whatever source `s` the token at `pos` was
/// read from.
pub proof fn lemma_rescan_operator(s: Seq<char>, pos: int)
    requires
        0 <= pos < s.len(),
        lex(s, pos) is Token,
        is_operator(lex(s, pos)->Token_0.token_type),
    ensures
        scan(lex(s, pos)->Token_0.lexeme) == alone(lex(s, pos)->Token_0),
{
    let token = lex(s, pos)->Token_0;
    let end = lex(s, pos)->Token_1;
    let text = token.lexeme;
    let c = s[pos];
    lemma_lex_advances(s, pos);
    if c == '"' {
        lemma_run_end(s, pos + 1, Run::Text);
    } else if spec_is_digit(c) || spec_is_alpha(c) {
        assert(word_type(s.subrange(pos, end)) != TokenType::Slash);
    } else {
        assert(end == pos + 1 || end == pos + 2);
        assert(text == s.subrange(pos, end));
        assert(text[0] == c);
        if end == pos + 2 {
            assert(text[1] == s[pos + 1]);
        }
        assert(text.subrange(0, text.len() as int) =~= text);
        let rescanned = TokenView { line: 1, ..token };
        lemma_same_line(text, 0, text.len() as int);
        assert(newlines(text, 0) == 0);
        assert(lex(text, 0) == Lexed::Token(rescanned, text.len() as int));
        lemma_scan_single(text, rescanned);
        assert(end_of_input(text) == TokenView {
            token_type: TokenType::Eof,
            lexeme: Seq::empty(),
            literal: None,
            line: 1,
        });
    }
}

/// A scan ends with the end of input.
pub proof fn lemma_scan_ends(s: Seq<char>, pos: int)
    requires
        0 <= pos <= s.len(),
        scan_from(s, pos) is Ok,
    ensures
        scan_from(s, pos)->Ok_0.len() >= 1,
        scan_from(s, pos)->Ok_0.last() == end_of_input(s),
    decreases s.len() - pos,
{
    if pos < s.len() {
        lemma_lex_advances(s, pos);
        match lex(s, pos) {
            Lexed::Token(token, end) => {
                lemma_scan_ends(s, end);
            },
            Lexed::Skip(end) => {
                lemma_scan_ends(s, end);
            },
            Lexed::Error(_) => {},
        }
    }
}

/// Every token of a scan but the last was read at some position of the
/// source.
pub proof fn lemma_scanned_tokens(s: Seq<char>, pos: int, i: int)
    requires
        0 <= pos <= s.len(),
        scan_from(s, pos) is Ok,
        0 <= i < scan_from(s, pos)->Ok_0.len() - 1,
    ensures
        exists|p: int|
            pos <= p < s.len() && #[trigger] lex(s, p) is Token && lex(s, p)->Token_0
                == scan_from(s, pos)->Ok_0[i],
    decreases s.len() - pos,
{
    if pos < s.len() {
        lemma_lex_advances(s, pos);
        match lex(s, pos) {
            Lexed::Token(token, end) => {
                let rest = scan_from(s, end)->Ok_0;
                assert(scan_from(s, pos)->Ok_0 =~= seq![token] + rest);
                if i == 0 {
                    assert(lex(s, pos) is Token && lex(s, pos)->Token_0 == token);
                } else {
                    lemma_scanned_tokens(s, end, i - 1);
                    let p = choose|p: int|
                        end <= p < s.len() && #[trigger] lex(s, p) is Token && lex(s, p)->Token_0
                            == rest[i - 1];
                    assert(lex(s, p) is Token && lex(s, p)->Token_0 == scan_from(s, pos)->Ok_0[i]);
                }
            },
            Lexed::Skip(end) => {
                lemma_scanned_tokens(s, end, i);
                let p = choose|p: int|
                    end <= p < s.len() && #[trigger] lex(s, p) is Token && lex(s, p)->Token_0
                        == scan_from(s, end)->Ok_0[i];
                assert(lex(s, p) is Token && lex(s, p)->Token_0 == scan_from(s, pos)->Ok_0[i]);
            },
            Lexed::Error(_) => {},
        }
    }
}

/// The text of every number token of a scan is numeric text.
pub proof fn lemma_scanned_numbers(s: Seq<char>, i: int)
    requires
        scan(s) is Ok,
        0 <= i < scan(s)->Ok_0.len(),
        scan(s)->Ok_0[i].token_type == TokenType::Number,
    ensures
        is_numeric(scan(s)->Ok_0[i].lexeme),
{
    lemma_scan_ends(s, 0);
    let tokens = scan(s)->Ok_0;
    if i < tokens.len() - 1 {
        lemma_scanned_tokens(s, 0, i);
        let p = choose|p: int|
            0 <= p < s.len() && #[trigger] lex(s, p) is Token && lex(s, p)->Token_0 == tokens[i];
        lemma_number_lexeme(s, p);
    }
}

/// Scanning the text of an operator token of a scan alone gives a token of
/// the same category, with the same text.
pub proof fn lemma_rescan_scanned_operator(s: Seq<char>, i: int)
    requires
        scan(s) is Ok,
        0 <= i < scan(s)->Ok_0.len(),
        is_operator(scan(s)->Ok_0[i].token_type),
    ensures
        scan(scan(s)->Ok_0[i].lexeme) == alone(scan(s)->Ok_0[i]),
{
    lemma_scan_ends(s, 0);
    let tokens = scan(s)->Ok_0;
    if i < tokens.len() - 1 {
        lemma_scanned_tokens(s, 0, i);
        let p = choose|p: int|
            0 <= p < s.len() && #[trigger] lex(s, p) is Token && lex(s, p)->Token_0 == tokens[i];
        lemma_rescan_operator(s, p);
    }
}

/// A comment gives no token and leaves the line as it is: the scan goes on
/// at the newline that ends the comment, or at the end of the source.
pub proof fn lemma_comment_is_skipped(s: Seq<char>, pos: int)
    requires
        0 <= pos,
        pos + 1 < s.len(),
        s[pos] == '/',
        s[pos + 1] == '/',
    ensures
        scan_from(s, pos) == scan_from(s, run_end(s, pos + 2, Run::Comment)),
        line_at(s, run_end(s, pos + 2, Run::Comment)) == line_at(s, pos),
        pos + 2 <= run_end(s, pos + 2, Run::Comment) <= s.len(),
        run_end(s, pos + 2, Run::Comment) < s.len() ==> s[run_end(s, pos + 2, Run::Comment)]
            == '\n',
{
    lemma_run_end(s, pos + 2, Run::Comment);
    let end = run_end(s, pos + 2, Run::Comment);
    assert forall|k: int| pos <= k < end implies #[trigger] s[k] != '\n' by {
        if k >= pos + 2 {
            assert(continues(Run::Comment, s[k]));
        }
    }
    lemma_same_line(s, pos, end);
}

/// What stands at a position, seen from a text that starts `by` characters
/// earlier.
pub open spec fn shifted(l: Lexed, by: int) -> Lexed {
    match l {
        Lexed::Token(token, end) => Lexed::Token(token, end + by),
        Lexed::Skip(end) => Lexed::Skip(end + by),
        Lexed::Error(e) => Lexed::Error(e),
    }
}

/// A run in the second part of a text ends where it ends in that part alone.
proof fn lemma_run_end_shift(a: Seq<char>, b: Seq<char>, q: int, run: Run)
    requires
        0 <= q <= b.len(),
    ensures
        run_end(a + b, a.len() + q, run) == a.len() + run_end(b, q, run),
    decreases b.len() - q,
{
    if q < b.len() {
        assert((a + b)[a.len() + q] == b[q]);
        if continues(run, b[q]) {
            lemma_run_end_shift(a, b, q + 1, run);
        }
    }
}

/// Behind a first part without newlines, the lines are those of the second
/// part alone.
proof fn lemma_line_shift(a: Seq<char>, b: Seq<char>, q: int)
    requires
        forall|k: int| 0 <= k < a.len() ==> #[trigger] a[k] != '\n',
        0 <= q <= b.len(),
    ensures
        line_at(a + b, a.len() + q) == line_at(b, q),
    decreases q,
{
    if q == 0 {
        assert forall|k: int| 0 <= k < a.len() implies #[trigger] (a + b)[k] != '\n' by {
            assert((a + b)[k] == a[k]);
        }
        lemma_same_line(a + b, 0, a.len() as int);
    } else {
        lemma_line_shift(a, b, q - 1);
        assert((a + b)[a.len() + q - 1] == b[q - 1]);
    }
}

/// Behind a first part without newlines, what stands at a position of the
/// second part is what stands there in the second part alone.
proof fn lemma_lex_shift(a: Seq<char>, b: Seq<char>, p: int)
    requires
        forall|k: int| 0 <= k < a.len() ==> #[trigger] a[k] != '\n',
        0 <= p < b.len(),
    ensures
        lex(a + b, a.len() + p) == shifted(lex(b, p), a.len() as int),
{
    let s = a + b;
    let n = a.len() as int;
    let c = b[p];
    assert(s[n + p] == c);
    assert(s.len() == n + b.len());
    if p + 1 < b.len() {
        assert(s[n + p + 1] == b[p + 1]);
    }
    lemma_lex_advances(b, p);
    lemma_line_shift(a, b, p);
    lemma_line_shift(a, b, p + 1);
    assert(s.subrange(n + p, n + p + 1) =~= b.subrange(p, p + 1));
    if p + 2 <= b.len() {
        lemma_line_shift(a, b, p + 2);
        assert(s.subrange(n + p, n + p + 2) =~= b.subrange(p, p + 2));
    }
    if c == '/' && followed_by(b, p, '/') {
        lemma_run_end_shift(a, b, p + 2, Run::Comment);
    } else if c == '"' {
        lemma_run_end_shift(a, b, p + 1, Run::Text);
        lemma_run_end(b, p + 1, Run::Text);
        let close = run_end(b, p + 1, Run::Text);
        if close < b.len() {
            lemma_line_shift(a, b, close + 1);
            assert(s.subrange(n + p, n + close + 1) =~= b.subrange(p, close + 1));
            assert(s.subrange(n + p + 1, n + close) =~= b.subrange(p + 1, close));
        }
    } else if spec_is_digit(c) {
        lemma_run_end_shift(a, b, p, Run::Digits);
        lemma_run_end(b, p, Run::Digits);
        let whole = run_end(b, p, Run::Digits);
        if whole + 1 < b.len() {
            assert(s[n + whole] == b[whole]);
            assert(s[n + whole + 1] == b[whole + 1]);
            lemma_run_end_shift(a, b, whole + 1, Run::Digits);
            lemma_run_end(b, whole + 1, Run::Digits);
        } else if whole < b.len() {
            assert(s[n + whole] == b[whole]);
        }
        let end = number_end(b, p);
        assert(number_end(s, n + p) == n + end);
        lemma_line_shift(a, b, end);
        assert(s.subrange(n + p, n + end) =~= b.subrange(p, end));
    } else if spec_is_alpha(c) {
        lemma_run_end_shift(a, b, p + 1, Run::Word);
        lemma_run_end(b, p + 1, Run::Word);
        let end = run_end(b, p + 1, Run::Word);
        lemma_line_shift(a, b, end);
        assert(s.subrange(n + p, n + end) =~= b.subrange(p, end));
    }
}

/// Behind a first part without newlines, the scan of the second part is the
/// scan of the second part alone.
proof fn lemma_scan_shift(a: Seq<char>, b: Seq<char>, p: int)
    requires
        forall|k: int| 0 <= k < a.len() ==> #[trigger] a[k] != '\n',
        0 <= p <= b.len(),
    ensures
        scan_from(a + b, a.len() + p) == scan_from(b, p),
    decreases b.len() - p,
{
    let s = a + b;
    if p < b.len() {
        lemma_lex_shift(a, b, p);
        lemma_lex_advances(b, p);
        match lex(b, p) {
            Lexed::Token(token, end) => {
                lemma_scan_shift(a, b, end);
            },
            Lexed::Skip(end) => {
                lemma_scan_shift(a, b, end);
            },
            Lexed::Error(_) => {},
        }
    } else {
        lemma_line_shift(a, b, b.len() as int);
    }
}

/// A comment in front of a line end, or of the end of the source, changes
/// nothing: it gives no token and moves no token to another line.
pub proof fn lemma_comment_changes_nothing(comment: Seq<char>, rest: Seq<char>)
    requires
        forall|k: int| 0 <= k < comment.len() ==> #[trigger] comment[k] != '\n',
        rest.len() == 0 || rest[0] == '\n',
    ensures
        scan(seq!['/', '/'] + comment + rest) == scan(rest),
{
    let prefix = seq!['/', '/'] + comment;
    let s = prefix + rest;
    let n = prefix.len() as int;
    assert(s[0] == '/' && s[1] == '/');
    assert forall|k: int| 0 <= k < n implies #[trigger] prefix[k] != '\n' by {
        if k >= 2 {
            assert(prefix[k] == comment[k - 2]);
        }
    }
    lemma_comment_is_skipped(s, 0);
    lemma_run_end(s, 2, Run::Comment);
    let end = run_end(s, 2, Run::Comment);
    if end < n {
        assert(s[end] == prefix[end]);
    }
    if end > n {
        assert(s[n] == rest[0]);
        assert(continues(Run::Comment, s[n]));
    }
    assert(end == n);
    lemma_scan_shift(prefix, rest, 0);
}

// ---------------------------------------------------------------------------
// The scanner
// ---------------------------------------------------------------------------

/// An ASCII letter or an underscore.
#[verifier::when_used_as_spec(spec_is_alpha)]
pub fn is_alpha(c: char) -> (r: bool)
    ensures
        r == spec_is_alpha(c),
{
    (c >= 'a' && c <= 'z') || (c >= 'A' && c <= 'Z') || c == '_'
}

/// An ASCII digit.
#[verifier::when_used_as_spec(spec_is_digit)]
pub fn is_digit(c: char) -> (r: bool)
    ensures
        r == spec_is_digit(c),
{
    c >= '0' && c <= '9'
}

/// An ASCII letter, an ASCII digit or an underscore.
#[verifier::when_used_as_spec(spec_is_alphanumeric)]
pub fn is_alphanumeric(c: char) -> (r: bool)
    ensures
        r == spec_is_alphanumeric(c),
{
    is_alpha(c) || is_digit(c)
}

/// Attaches to each number token the value that its text was read as:
/// `values` holds, for each token, the value of its text as a number, or
/// `None` if the text is no number. Other tokens stay as they are.
pub fn attach_numbers(tokens: Vec<Token>, values: &Vec<Option<u64>>) -> (r: Vec<Token>)
    requires
        values.len() == tokens.len(),
    ensures
        r.len() == tokens.len(),
        forall|i: int|
            0 <= i < tokens.len() ==> (#[trigger] r[i])@ == with_number(tokens[i]@, values[i]),
{
    let mut out: Vec<Token> = Vec::new();
    let mut i: usize = 0;
    while i < tokens.len()
        invariant
            i <= tokens.len(),
            values.len() == tokens.len(),
            out.len() == i,
            forall|k: int| 0 <= k < i ==> (#[trigger] out[k])@ == with_number(tokens[k]@, values[k]),
        decreases tokens.len() - i,
    {
        let token = &tokens[i];
        if token.is_type(TokenType::Number) {
            let literal = match values[i] {
                Some(bits) => Some(LiteralValue::Number(bits)),
                None => None,
            };
            out.push(Token::new(token.token_type, token.lexeme.clone(), literal, token.line));
        } else {
            out.push(token.clone());
        }
        i += 1;
    }
    out
}

/// A scanner over one source text. It reads the text once, from left to
/// right, and counts lines as it goes.
pub struct Scanner {
    source: Vec<char>,
    start: usize,
    current: usize,
    line: usize,
}

impl Scanner {
    /// The characters of the source.
    pub closed spec fn source(&self) -> Seq<char> {
        self.source@
    }

    /// The position of the next character to read.
    pub closed spec fn position(&self) -> int {
        self.current as int
    }

    /// The position at which the lexeme that was read last starts.
    pub closed spec fn start(&self) -> int {
        self.start as int
    }

    /// The line of the next character to read, counted from 1.
    pub closed spec fn line(&self) -> nat {
        self.line as nat
    }

    /// The scanner stands inside its source, the source leaves room to count
    /// its lines, and the line counter agrees with the position.
    pub open spec fn wf(&self) -> bool {
        &&& 0 <= self.position() <= self.source().len()
        &&& self.source().len() < usize::MAX
        &&& self.line() == line_at(self.source(), self.position())
    }

    /// The current lexeme lies inside the source.
    spec fn within(&self) -> bool {
        &&& self.start <= self.current <= self.source.len()
        &&& self.source.len() < usize::MAX
    }

    /// A scanner at the start of `source`.
    pub fn new(source: String) -> (r: Self)
        requires
            source@.len() < usize::MAX,
        ensures
            r.wf(),
            r.source() == source@,
            r.start() == 0,
            r.position() == 0,
            r.line() == 1,
    {
        Self { source: chars_of(source.as_str()), start: 0, current: 0, line: 1 }
    }

    /// Scans the rest of the source: every token from the current position
    /// on, then the end-of-input token; or the first lexical error. The
    /// scanner is left at the end of the source, or where the error left it.
    pub fn scan_tokens(&mut self) -> (r: Result<Vec<Token>, ParseError>)
        requires
            old(self).wf(),
        ensures
            final(self).wf(),
            final(self).source() == old(self).source(),
            final(self).position() == scan_end(old(self).source(), old(self).position()),
            final(self).start() == scan_start(
                old(self).source(),
                old(self).position(),
                old(self).start(),
            ),
            match (scan_from(old(self).source(), old(self).position()), r) {
                (Ok(tokens), Ok(found)) => token_views(found@) == tokens && final(self).position()
                    == final(self).source().len() && found.len() > 0 && found@.last().token_type
                    == TokenType::Eof,
                (Err(e), Err(error)) => error@ == e,
                _ => false,
            },
    {
        let mut tokens: Vec<Token> = Vec::new();
        let ghost s = self.source@;
        let ghost first = self.current as int;
        let ghost origin = self.start as int;
        assert(token_views(tokens@) =~= Seq::empty());
        assert(scan_from(s, first) == preceded_by(token_views(tokens@), scan_from(s, first))) by {
            match scan_from(s, first) {
                Ok(more) => {
                    assert(Seq::<TokenView>::empty() + more =~= more);
                },
                Err(_) => {},
            }
        }
        while !self.is_at_end()
            invariant
                self.wf(),
                self.source@ == s,
                s == old(self).source(),
                first == old(self).position(),
                origin == old(self).start(),
                scan_end(s, first) == scan_end(s, self.current as int),
                scan_start(s, first, origin) == scan_start(s, self.current as int, self.start as int),
                scan_from(s, first) == preceded_by(
                    token_views(tokens@),
                    scan_from(s, self.current as int),
                ),
            decreases self.source.len() - self.current,
        {
            self.start = self.current;
            let ghost pos = self.current as int;
            let ghost before = token_views(tokens@);
            proof {
                lemma_lex_advances(s, pos);
            }
            match self.scan_token() {
                Ok(Some(token)) => {
                    tokens.push(token);
                    proof {
                        assert(token_views(tokens@) =~= before + seq![token@]);
                        match scan_from(s, self.current as int) {
                            Ok(more) => {
                                assert(before + (seq![token@] + more) =~= (before + seq![token@])
                                    + more);
                            },
                            Err(_) => {},
                        }
                    }
                },
                Ok(None) => {},
                Err(error) => {
                    return Err(error);
                },
            }
        }
        let last = Token::new(TokenType::Eof, String::new(), None, self.line);
        proof {
            assert(last@ == end_of_input(s));
        }
        let ghost before = token_views(tokens@);
        tokens.push(last);
        assert(token_views(tokens@) =~= before + seq![end_of_input(s)]);
        Ok(tokens)
    }

    /// Whether the whole source has been read.
    fn is_at_end(&self) -> (r: bool)
        ensures
            r == (self.current >= self.source.len()),
    {
        self.current >= self.source.len()
    }

    /// Reads what stands at the current position.
    fn scan_token(&mut self) -> (r: Result<Option<Token>, ParseError>)
        requires
            old(self).wf(),
            old(self).current < old(self).source.len(),
            old(self).start == old(self).current,
        ensures
            final(self).wf(),
            final(self).source@ == old(self).source@,
            final(self).start == old(self).start,
            old(self).current < final(self).current <= final(self).source@.len(),
            match (lex(old(self).source@, old(self).current as int), r) {
                (Lexed::Token(token, end), Ok(Some(found))) => found@ == token && final(self).current == end,
                (Lexed::Skip(end), Ok(None)) => final(self).current == end,
                (Lexed::Error(e), Err(error)) => error@ == e && final(self).current == error_end(
                    old(self).source@,
                    old(self).current as int,
                ),
                _ => false,
            },
    {
        let ghost s = self.source@;
        let ghost pos = self.current as int;
        let c = self.advance();
        proof {
            lemma_newlines_bound(s, pos);
            lemma_lex_advances(s, pos);
        }
        match c {
            '(' => Ok(Some(self.create_token(TokenType::LeftParen))),
            ')' => Ok(Some(self.create_token(TokenType::RightParen))),
            '{' => Ok(Some(self.create_token(TokenType::LeftBrace))),
            '}' => Ok(Some(self.create_token(TokenType::RightBrace))),
            ',' => Ok(Some(self.create_token(TokenType::Comma))),
            '.' => Ok(Some(self.create_token(TokenType::Dot))),
            '-' => Ok(Some(self.create_token(TokenType::Minus))),
            '+' => Ok(Some(self.create_token(TokenType::Plus))),
            ';' => Ok(Some(self.create_token(TokenType::Semicolon))),
            '*' => Ok(Some(self.create_token(TokenType::Star))),
            '!' => {
                if self.match_next('=') {
                    Ok(Some(self.create_token(TokenType::BangEqual)))
                } else {
                    Ok(Some(self.create_token(TokenType::Bang)))
                }
            },
            '=' => {
                if self.match_next('=') {
                    Ok(Some(self.create_token(TokenType::EqualEqual)))
                } else {
                    Ok(Some(self.create_token(TokenType::Equal)))
                }
            },
            '<' => {
                if self.match_next('=') {
                    Ok(Some(self.create_token(TokenType::LessEqual)))
                } else {
                    Ok(Some(self.create_token(TokenType::Less)))
                }
            },
            '>' => {
                if self.match_next('=') {
                    Ok(Some(self.create_token(TokenType::GreaterEqual)))
                } else {
                    Ok(Some(self.create_token(TokenType::Greater)))
                }
            },
            '/' => {
                if self.match_next('/') {
                    while self.peek() != '\n' && !self.is_at_end()
                        invariant
                            self.within(),
                            self.source@ == s,
                            self.start == pos,
                            pos + 2 <= self.current,
                            self.line == line_at(s, self.current as int),
                            run_end(s, self.current as int, Run::Comment) == run_end(
                                s,
                                pos + 2,
                                Run::Comment,
                            ),
                        decreases self.source.len() - self.current,
                    {
                        self.advance();
                    }
                    Ok(None)
                } else {
                    Ok(Some(self.create_token(TokenType::Slash)))
                }
            },
            ' ' | '\r' | '\t' => Ok(None),
            '\n' => {
                self.line += 1;
                Ok(None)
            },
            '"' => self.string(),
            _ => {
                if is_digit(c) {
                    self.number()
                } else if is_alpha(c) {
                    self.identifier()
                } else {
                    Err(ParseError::UnexpectedCharacter(c, self.line))
                }
            },
        }
    }

    /// Reads the rest of an identifier or reserved word whose first
    /// character has been read.
    fn identifier(&mut self) -> (r: Result<Option<Token>, ParseError>)
        requires
            old(self).within(),
            old(self).current == old(self).start + 1,
            spec_is_alpha(old(self).source@[old(self).start as int]),
            old(self).line == line_at(old(self).source@, old(self).start as int),
        ensures
            final(self).wf(),
            final(self).source@ == old(self).source@,
            final(self).start == old(self).start,
            match (lex(old(self).source@, old(self).start as int), r) {
                (Lexed::Token(token, end), Ok(Some(found))) => found@ == token && final(self).current == end,
                _ => false,
            },
    {
        let ghost s = self.source@;
        let ghost pos = self.start as int;
        while is_alphanumeric(self.peek())
            invariant
                self.within(),
                self.source@ == s,
                self.start == pos,
                pos + 1 <= self.current,
                self.line == line_at(s, pos),
                forall|k: int| pos <= k < self.current ==> spec_is_alphanumeric(#[trigger] s[k]),
                run_end(s, self.current as int, Run::Word) == run_end(s, pos + 1, Run::Word),
            decreases self.source.len() - self.current,
        {
            self.advance();
        }
        proof {
            lemma_same_line(s, pos, self.current as int);
        }
        let token_type = match self.reserved() {
            Some(t) => t,
            None => TokenType::Identifier,
        };
        Ok(Some(self.create_token(token_type)))
    }

    /// The category of the reserved word that the current lexeme spells, if
    /// it spells one.
    fn reserved(&self) -> (r: Option<TokenType>)
        requires
            self.within(),
        ensures
            r == keyword(self.source@.subrange(self.start as int, self.current as int)),
    {
        let v = &self.source;
        let a = self.start;
        let b = self.current;
        if spells(v, a, b, "and") {
            Some(TokenType::And)
        } else if spells(v, a, b, "class") {
            Some(TokenType::Class)
        } else if spells(v, a, b, "else") {
            Some(TokenType::Else)
        } else if spells(v, a, b, "false") {
            Some(TokenType::False)
        } else if spells(v, a, b, "for") {
            Some(TokenType::For)
        } else if spells(v, a, b, "fun") {
            Some(TokenType::Fun)
        } else if spells(v, a, b, "if") {
            Some(TokenType::If)
        } else if spells(v, a, b, "nil") {
            Some(TokenType::Nil)
        } else if spells(v, a, b, "or") {
            Some(TokenType::Or)
        } else if spells(v, a, b, "print") {
            Some(TokenType::Print)
        } else if spells(v, a, b, "return") {
            Some(TokenType::Return)
        } else if spells(v, a, b, "super") {
            Some(TokenType::Super)
        } else if spells(v, a, b, "this") {
            Some(TokenType::This)
        } else if spells(v, a, b, "true") {
            Some(TokenType::True)
        } else if spells(v, a, b, "var") {
            Some(TokenType::Var)
        } else if spells(v, a, b, "while") {
            Some(TokenType::While)
        } else {
            None
        }
    }

    /// Reads the rest of a number whose first digit has been read.
    fn number(&mut self) -> (r: Result<Option<Token>, ParseError>)
        requires
            old(self).within(),
            old(self).current == old(self).start + 1,
            spec_is_digit(old(self).source@[old(self).start as int]),
            old(self).line == line_at(old(self).source@, old(self).start as int),
        ensures
            final(self).wf(),
            final(self).source@ == old(self).source@,
            final(self).start == old(self).start,
            match (lex(old(self).source@, old(self).start as int), r) {
                (Lexed::Token(token, end), Ok(Some(found))) => found@ == token && final(self).current == end,
                _ => false,
            },
    {
        let ghost s = self.source@;
        let ghost pos = self.start as int;
        while is_digit(self.peek())
            invariant
                self.within(),
                self.source@ == s,
                self.start == pos,
                pos + 1 <= self.current,
                self.line == line_at(s, pos),
                forall|k: int| pos <= k < self.current ==> spec_is_digit(#[trigger] s[k]),
                run_end(s, self.current as int, Run::Digits) == run_end(s, pos, Run::Digits),
            decreases self.source.len() - self.current,
        {
            self.advance();
        }
        let ghost whole = self.current as int;
        if self.peek() == '.' && is_digit(self.peek_next()) {
            // Consume the ".".
            self.advance();
            while is_digit(self.peek())
                invariant
                    self.within(),
                    self.source@ == s,
                    self.start == pos,
                    whole + 1 <= self.current,
                    self.line == line_at(s, pos),
                    forall|k: int|
                        pos <= k < self.current ==> (#[trigger] s[k]) != '\n',
                    run_end(s, self.current as int, Run::Digits) == run_end(
                        s,
                        whole + 1,
                        Run::Digits,
                    ),
                decreases self.source.len() - self.current,
            {
                self.advance();
            }
        }
        proof {
            lemma_same_line(s, pos, self.current as int);
        }
        Ok(Some(self.create_token(TokenType::Number)))
    }

    /// Reads the rest of a string literal whose opening quote has been read.
    fn string(&mut self) -> (r: Result<Option<Token>, ParseError>)
        requires
            old(self).within(),
            old(self).current == old(self).start + 1,
            old(self).source@[old(self).start as int] == '"',
            old(self).line == line_at(old(self).source@, old(self).current as int),
        ensures
            final(self).wf(),
            final(self).source@ == old(self).source@,
            final(self).start == old(self).start,
            match (lex(old(self).source@, old(self).start as int), r) {
                (Lexed::Token(token, end), Ok(Some(found))) => found@ == token && final(self).current == end,
                (Lexed::Error(e), Err(error)) => error@ == e && final(self).current
                    == final(self).source@.len(),
                _ => false,
            },
    {
        let ghost s = self.source@;
        let ghost pos = self.start as int;
        let first_line: usize = self.line;
        while self.peek() != '"' && !self.is_at_end()
            invariant
                self.within(),
                self.source@ == s,
                self.start == pos,
                pos + 1 <= self.current,
                self.line == line_at(s, self.current as int),
                run_end(s, self.current as int, Run::Text) == run_end(s, pos + 1, Run::Text),
            decreases self.source.len() - self.current,
        {
            proof {
                lemma_newlines_bound(s, self.current as int + 1);
            }
            if self.peek() == '\n' {
                self.line += 1;
            }
            self.advance();
        }
        if self.is_at_end() {
            return Err(ParseError::UnterminatedString(first_line));
        }
        // The closing quote.
        self.advance();
        // The value is the text between the quotes.
        let value = string_of(&self.source, self.start + 1, self.current - 1);
        Ok(Some(self.create_token_with_literal(TokenType::String, Some(LiteralValue::String(value)))))
    }

    /// The character at the current position, or NUL at the end.
    fn peek(&self) -> (c: char)
        requires
            self.current <= self.source.len(),
        ensures
            self.current < self.source.len() ==> c == self.source@[self.current as int],
            self.current == self.source.len() ==> c == '\0',
    {
        if self.is_at_end() {
            '\0'
        } else {
            self.source[self.current]
        }
    }

    /// The character after the current position, or NUL if there is none.
    fn peek_next(&self) -> (c: char)
        requires
            self.current <= self.source.len(),
            self.source.len() < usize::MAX,
        ensures
            self.current + 1 < self.source.len() ==> c == self.source@[self.current + 1],
            self.current + 1 >= self.source.len() ==> c == '\0',
    {
        if self.current + 1 >= self.source.len() {
            '\0'
        } else {
            self.source[self.current + 1]
        }
    }

    /// Reads the next character if it is `expected`.
    fn match_next(&mut self, expected: char) -> (r: bool)
        requires
            old(self).within(),
            old(self).current == old(self).start + 1,
            expected != '\n',
        ensures
            r == followed_by(old(self).source@, old(self).start as int, expected),
            final(self).current == if r {
                old(self).current + 1
            } else {
                old(self).current as int
            },
            final(self).within(),
            final(self).source@ == old(self).source@,
            final(self).start == old(self).start,
            final(self).line == old(self).line,
    {
        if self.is_at_end() {
            return false;
        }
        if self.source[self.current] != expected {
            return false;
        }
        self.current += 1;
        true
    }

    /// Reads one character.
    fn advance(&mut self) -> (c: char)
        requires
            old(self).current < old(self).source.len(),
        ensures
            c == old(self).source@[old(self).current as int],
            final(self).current == old(self).current + 1,
            final(self).source@ == old(self).source@,
            final(self).start == old(self).start,
            final(self).line == old(self).line,
    {
        let c = self.source[self.current];
        self.current += 1;
        c
    }

    /// The token of the given category that spans the current lexeme.
    fn create_token(&self, token_type: TokenType) -> (r: Token)
        requires
            self.within(),
        ensures
            r@ == (TokenView {
                token_type,
                lexeme: self.source@.subrange(self.start as int, self.current as int),
                literal: None,
                line: self.line as nat,
            }),
    {
        self.create_token_with_literal(token_type, None)
    }

    /// The token of the given category that spans the current lexeme and
    /// carries `literal`.
    fn create_token_with_literal(&self, token_type: TokenType, literal: Option<LiteralValue>) -> (r:
        Token)
        requires
            self.within(),
        ensures
            r@ == (TokenView {
                token_type,
                lexeme: self.source@.subrange(self.start as int, self.current as int),
                literal: literal_view(literal),
                line: self.line as nat,
            }),
    {
        let lexeme = string_of(&self.source, self.start, self.current);
        Token::new(token_type, lexeme, literal, self.line)
    }
}

} // verus!
