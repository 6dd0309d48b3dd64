//! The tokenizer: from source text to tokens.
//!
//! What the tokens of a text are is defined by [`scan`]; [`Lexer`] is
//! proved to compute exactly that.
use crate::error::{plain_error, BccError, ErrorKind, ErrorView, Span};
use crate::text::{chars_of, owned, push_char};
use vstd::prelude::*;
use vstd::string::*;
use vstd::utf8::{encode_scalar, encode_utf8};

verus! {

#[derive(Debug, Clone, Copy, PartialEq, Eq, Structural)]
pub enum TokenType {
    // Single-character tokens
    LeftParen,
    RightParen,
    LeftBrace,
    RightBrace,
    LeftBracket,
    RightBracket,
    Comma,
    Colon,
    Dot,
    Minus,
    Plus,
    Semicolon,
    Slash,
    Star,
    // One or two character tokens
    Bang,
    BangEqual,
    Equal,
    EqualEqual,
    Greater,
    GreaterEqual,
    Less,
    LessEqual,
    // Literals
    Identifier,
    String,
    Integer,
    Double,
    // Keywords
    And,
    Else,
    False,
    For,
    Fun,
    If,
    In,
    Nil,
    Not,
    Or,
    Return,
    True,
    While,
    // Special
    Eof,
}

/// A token: its kind, its literal text and where it stands in the source.
#[derive(Debug, Clone)]
pub struct Token {
    pub token_type: TokenType,
    pub lexeme: String,
    pub span: Span,
}

/// The mathematical content of a [`Token`].
pub struct TokenView {
    pub token_type: TokenType,
    pub lexeme: Seq<char>,
    pub span: Span,
}

impl View for Token {
    type V = TokenView;

    open spec fn view(&self) -> TokenView {
        TokenView { token_type: self.token_type, lexeme: self.lexeme@, span: self.span }
    }
}

impl Token {
    pub fn new(token_type: TokenType, lexeme: String, span: Span) -> (token: Token)
        ensures
            token.token_type == token_type,
            token.lexeme == lexeme,
            token.span == span,
    {
        Token { token_type, lexeme, span }
    }
}

/// The contents of a token sequence.
pub open spec fn token_views(tokens: Seq<Token>) -> Seq<TokenView> {
    tokens.map_values(|t: Token| t@)
}

/// Every span is in order: it starts no later than it ends.
pub open spec fn ordered_spans(tokens: Seq<TokenView>) -> bool {
    forall|i: int| 0 <= i < tokens.len() ==> (#[trigger] tokens[i]).span.start <= tokens[i].span.end
}

/// What a parser may rely on: the sequence ends with the end-of-input token
/// and no span reaches the largest offset.
pub open spec fn well_formed_tokens(tokens: Seq<TokenView>) -> bool {
    &&& tokens.len() > 0
    &&& tokens.last().token_type == TokenType::Eof
    &&& forall|i: int| 0 <= i < tokens.len() ==> (#[trigger] tokens[i]).span.end < usize::MAX
}

// ---------------------------------------------------------------------------
// Offsets
// ---------------------------------------------------------------------------
/// Number of bytes that a character occupies in UTF-8.
pub open spec fn utf8_len(c: char) -> nat {
    let v = c as u32;
    if v < 0x80 {
        1
    } else if v < 0x800 {
        2
    } else if v < 0x10000 {
        3
    } else {
        4
    }
}

/// Byte offset of the character with index `i`: the UTF-8 size of the
/// first `i` characters of `s`.
pub open spec fn byte_offset(s: Seq<char>, i: int) -> nat
    decreases i,
{
    if i <= 0 {
        0
    } else {
        byte_offset(s, i - 1) + utf8_len(s[i - 1])
    }
}

/// The UTF-8 size of the whole text.
pub open spec fn byte_len(s: Seq<char>) -> nat {
    byte_offset(s, s.len() as int)
}

/// The span between two character indices.
pub open spec fn span_between(s: Seq<char>, from: int, to: int) -> Span {
    Span { start: byte_offset(s, from) as usize, end: byte_offset(s, to) as usize }
}

/// Byte offsets grow with the number of characters before them.
pub proof fn lemma_byte_offset_monotonic(s: Seq<char>, i: int, j: int)
    requires
        0 <= i <= j,
    ensures
        byte_offset(s, i) <= byte_offset(s, j),
        byte_offset(s, i) + (j - i) <= byte_offset(s, j),
    decreases j - i,
{
    if i < j {
        lemma_byte_offset_monotonic(s, i, j - 1);
    }
}

proof fn lemma_utf8_len(c: char)
    ensures
        utf8_len(c) == encode_scalar(c as u32).len(),
{
    vstd::utf8::char_is_scalar(c);
}

proof fn lemma_encode_push(s: Seq<char>, c: char)
    ensures
        encode_utf8(s.push(c)) == encode_utf8(s) + encode_scalar(c as u32),
    decreases s.len(),
{
    if s.len() == 0 {
        assert(s.push(c).drop_first() =~= s);
        assert(encode_utf8(s) =~= Seq::<u8>::empty());
        assert(encode_utf8(s.push(c)) =~= encode_scalar(c as u32) + encode_utf8(s));
        assert(encode_scalar(c as u32) + encode_utf8(s) =~= encode_utf8(s) + encode_scalar(
            c as u32,
        ));
    } else {
        assert(s.push(c).drop_first() =~= s.drop_first().push(c));
        lemma_encode_push(s.drop_first(), c);
        assert(encode_utf8(s.push(c)) =~= encode_scalar(s[0] as u32) + (encode_utf8(
            s.drop_first(),
        ) + encode_scalar(c as u32)));
        assert(encode_utf8(s) + encode_scalar(c as u32) =~= encode_scalar(s[0] as u32) + (
        encode_utf8(s.drop_first()) + encode_scalar(c as u32)));
    }
}

/// Offsets are byte offsets: the offset of the character with index `i`
/// is the number of bytes of the characters before it in UTF-8.
pub proof fn lemma_offsets_count_bytes(s: Seq<char>, i: int)
    requires
        0 <= i <= s.len(),
    ensures
        byte_offset(s, i) == encode_utf8(s.subrange(0, i)).len(),
    decreases i,
{
    if i > 0 {
        lemma_offsets_count_bytes(s, i - 1);
        assert(s.subrange(0, i) =~= s.subrange(0, i - 1).push(s[i - 1]));
        lemma_encode_push(s.subrange(0, i - 1), s[i - 1]);
        lemma_utf8_len(s[i - 1]);
    } else {
        assert(s.subrange(0, 0) =~= Seq::<char>::empty());
    }
}

/// Whether every offset into the text fits the machine, with room for
/// the position after the text.
pub fn fits(source: &str) -> (b: bool)
    ensures
        b == (byte_len(source@) + 1 < usize::MAX),
{
    proof {
        lemma_offsets_count_bytes(source@, source@.len() as int);
        assert(source@.subrange(0, source@.len() as int) =~= source@);
    }
    let bytes = source.as_bytes();
    bytes.len() < usize::MAX - 1
}

// ---------------------------------------------------------------------------
// Character classes
// ---------------------------------------------------------------------------
/// Whether Unicode gives the character the `Alphabetic` property.
pub uninterp spec fn unicode_alphabetic(c: char) -> bool;

/// Whether Unicode counts the character as alphabetic or numeric.
pub uninterp spec fn unicode_alphanumeric(c: char) -> bool;

/// A character of ASCII.
pub open spec fn is_ascii(c: char) -> bool {
    c <= '\x7f'
}

/// A letter of ASCII.
pub open spec fn is_ascii_letter(c: char) -> bool {
    ('a' <= c && c <= 'z') || ('A' <= c && c <= 'Z')
}

/// Trusted: `char::is_alphabetic` decides the Unicode `Alphabetic` property,
/// a fixed table of the standard library. Of the characters of ASCII, the
/// letters have the property and no others.
#[verifier::external_body]
fn is_alphabetic(c: char) -> (b: bool)
    ensures
        b == unicode_alphabetic(c),
        is_ascii(c) ==> b == is_ascii_letter(c),
{
    c.is_alphabetic()
}

/// Trusted: `char::is_alphanumeric` decides whether the character is
/// alphabetic or numeric in Unicode, a fixed table of the standard library.
/// Of the characters of ASCII, the letters and the decimal digits are, and
/// no others.
#[verifier::external_body]
fn is_alphanumeric(c: char) -> (b: bool)
    ensures
        b == unicode_alphanumeric(c),
        is_ascii(c) ==> b == (is_ascii_letter(c) || is_digit(c)),
{
    c.is_alphanumeric()
}

/// An alphabetic character: a letter, among the characters of ASCII;
/// beyond them, what Unicode counts as alphabetic.
pub open spec fn is_letter(c: char) -> bool {
    if is_ascii(c) {
        is_ascii_letter(c)
    } else {
        unicode_alphabetic(c)
    }
}

/// An alphabetic or numeric character: a letter or a decimal digit, among
/// the characters of ASCII; beyond them, what Unicode counts as either.
pub open spec fn is_letter_or_digit(c: char) -> bool {
    if is_ascii(c) {
        is_ascii_letter(c) || is_digit(c)
    } else {
        unicode_alphanumeric(c)
    }
}

/// An ASCII decimal digit.
pub open spec fn is_digit(c: char) -> bool {
    '0' <= c && c <= '9'
}

/// A character that separates tokens and is skipped.
pub open spec fn is_whitespace(c: char) -> bool {
    c == ' ' || c == '\r' || c == '\t' || c == '\n'
}

/// A character that can begin an identifier.
pub open spec fn is_identifier_start(c: char) -> bool {
    is_letter(c) || c == '_'
}

/// A character that can continue an identifier.
pub open spec fn is_identifier_part(c: char) -> bool {
    is_letter_or_digit(c) || c == '_'
}

/// The runs of characters that the scanner consumes as a whole.
#[derive(Clone, Copy, PartialEq, Eq, Structural)]
pub enum Run {
    /// The rest of a line comment: anything but a newline.
    Comment,
    /// The inside of a string literal: anything but a double quote.
    Quoted,
    /// Decimal digits.
    Digits,
    /// Letters, digits and underscores.
    Word,
}

/// Whether a character belongs to a run.
pub open spec fn in_run(run: Run, c: char) -> bool {
    match run {
        Run::Comment => c != '\n',
        Run::Quoted => c != '"',
        Run::Digits => is_digit(c),
        Run::Word => is_identifier_part(c),
    }
}

/// The index at which the run that starts at `i` ends: the first index at
/// or after `i` whose character is not in the run, or the end of the text.
pub open spec fn run_end(s: Seq<char>, i: int, run: Run) -> int
    decreases s.len() - i,
{
    if 0 <= i < s.len() && in_run(run, s[i]) {
        run_end(s, i + 1, run)
    } else {
        i
    }
}

/// A run ends at or after the place where it starts, and inside the text.
pub proof fn lemma_run_end_bounds(s: Seq<char>, i: int, run: Run)
    requires
        0 <= i <= s.len(),
    ensures
        i <= run_end(s, i, run) <= s.len(),
        forall|k: int| i <= k < run_end(s, i, run) ==> in_run(run, #[trigger] s[k]),
        run_end(s, i, run) < s.len() ==> !in_run(run, s[run_end(s, i, run)]),
    decreases s.len() - i,
{
    if i < s.len() && in_run(run, s[i]) {
        lemma_run_end_bounds(s, i + 1, run);
    }
}

// ---------------------------------------------------------------------------
// What the scanner produces
// ---------------------------------------------------------------------------
/// The kind of a token that is one character, whatever follows it.
pub open spec fn single_char_kind(c: char) -> Option<TokenType> {
    if c == '(' {
        Some(TokenType::LeftParen)
    } else if c == ')' {
        Some(TokenType::RightParen)
    } else if c == '{' {
        Some(TokenType::LeftBrace)
    } else if c == '}' {
        Some(TokenType::RightBrace)
    } else if c == '[' {
        Some(TokenType::LeftBracket)
    } else if c == ']' {
        Some(TokenType::RightBracket)
    } else if c == ',' {
        Some(TokenType::Comma)
    } else if c == ':' {
        Some(TokenType::Colon)
    } else if c == '.' {
        Some(TokenType::Dot)
    } else if c == '-' {
        Some(TokenType::Minus)
    } else if c == '+' {
        Some(TokenType::Plus)
    } else if c == ';' {
        Some(TokenType::Semicolon)
    } else if c == '*' {
        Some(TokenType::Star)
    } else {
        None
    }
}

/// The kinds that an operator character stands for: merged with a
/// following `=`, and alone.
pub struct OperatorKinds {
    pub merged: TokenType,
    pub alone: TokenType,
}

/// The characters that may merge with a following `=`.
pub open spec fn operator_kinds(c: char) -> Option<OperatorKinds> {
    if c == '!' {
        Some(OperatorKinds { merged: TokenType::BangEqual, alone: TokenType::Bang })
    } else if c == '=' {
        Some(OperatorKinds { merged: TokenType::EqualEqual, alone: TokenType::Equal })
    } else if c == '<' {
        Some(OperatorKinds { merged: TokenType::LessEqual, alone: TokenType::Less })
    } else if c == '>' {
        Some(OperatorKinds { merged: TokenType::GreaterEqual, alone: TokenType::Greater })
    } else {
        None
    }
}

/// The kind of a word: a keyword on an exact match, else an identifier.
pub open spec fn keyword_kind(word: Seq<char>) -> TokenType {
    if word == "and"@ {
        TokenType::And
    } else if word == "else"@ {
        TokenType::Else
    } else if word == "false"@ {
        TokenType::False
    } else if word == "for"@ {
        TokenType::For
    } else if word == "fun"@ {
        TokenType::Fun
    } else if word == "if"@ {
        TokenType::If
    } else if word == "in"@ {
        TokenType::In
    } else if word == "nil"@ {
        TokenType::Nil
    } else if word == "not"@ {
        TokenType::Not
    } else if word == "or"@ {
        TokenType::Or
    } else if word == "return"@ {
        TokenType::Return
    } else if word == "true"@ {
        TokenType::True
    } else if word == "while"@ {
        TokenType::While
    } else {
        TokenType::Identifier
    }
}

/// The value of a decimal digit.
pub open spec fn digit_value(c: char) -> nat {
    (c as u32 - '0' as u32) as nat
}

/// The number that a run of decimal digits denotes.
pub open spec fn decimal_value(digits: Seq<char>) -> nat
    decreases digits.len(),
{
    if digits.len() == 0 {
        0
    } else {
        decimal_value(digits.drop_last()) * 10 + digit_value(digits.last())
    }
}

/// The token of the given kind whose text is `s[from..to]`.
pub open spec fn token_between(s: Seq<char>, kind: TokenType, from: int, to: int) -> TokenView {
    TokenView { token_type: kind, lexeme: s.subrange(from, to), span: span_between(s, from, to) }
}

/// The outcome of scanning at one position.
pub enum Lexed {
    /// Whitespace or a comment: nothing is produced.
    Skip,
    Emit(TokenView),
    Fail(ErrorView),
}

/// The outcome of scanning at one position and the index after it.
pub struct Step {
    pub end: int,
    pub out: Lexed,
}

/// The step that reads a string, from the character after its opening quote.
pub open spec fn lex_string(s: Seq<char>, i: int) -> Step {
    let close = run_end(s, i + 1, Run::Quoted);
    if close >= s.len() {
        Step {
            end: close,
            out: Lexed::Fail(
                plain_error(
                    ErrorKind::LexError,
                    span_between(s, i, close),
                    "Unterminated string"@,
                ),
            ),
        }
    } else {
        Step {
            end: close + 1,
            out: Lexed::Emit(
                TokenView {
                    token_type: TokenType::String,
                    lexeme: s.subrange(i + 1, close),
                    span: span_between(s, i, close + 1),
                },
            ),
        }
    }
}

/// The step that reads a number whose first digit is at `i`.
pub open spec fn lex_number(s: Seq<char>, i: int) -> Step {
    let whole = run_end(s, i + 1, Run::Digits);
    if whole + 1 < s.len() && s[whole] == '.' && is_digit(s[whole + 1]) {
        let end = run_end(s, whole + 1, Run::Digits);
        Step { end, out: Lexed::Emit(token_between(s, TokenType::Double, i, end)) }
    } else if decimal_value(s.subrange(i, whole)) > i64::MAX {
        Step {
            end: whole,
            out: Lexed::Fail(
                plain_error(
                    ErrorKind::LexError,
                    span_between(s, i, whole),
                    "Invalid integer: "@ + s.subrange(i, whole),
                ),
            ),
        }
    } else {
        Step { end: whole, out: Lexed::Emit(token_between(s, TokenType::Integer, i, whole)) }
    }
}

/// The step that reads an identifier or a keyword that begins at `i`.
pub open spec fn lex_word(s: Seq<char>, i: int) -> Step {
    let end = run_end(s, i + 1, Run::Word);
    Step { end, out: Lexed::Emit(token_between(s, keyword_kind(s.subrange(i, end)), i, end)) }
}

/// The error for a character that begins no token.
pub open spec fn unexpected_character(s: Seq<char>, i: int) -> ErrorView {
    plain_error(
        ErrorKind::LexError,
        Span {
            start: (byte_offset(s, i + 1) - 1) as usize,
            end: byte_offset(s, i + 1) as usize,
        },
        "Unexpected character: '"@.push(s[i]) + "'"@,
    )
}

/// What the scanner does at index `i` of the text `s`.
pub open spec fn lex_step(s: Seq<char>, i: int) -> Step
    recommends
        0 <= i < s.len(),
{
    let c = s[i];
    if single_char_kind(c) is Some {
        Step { end: i + 1, out: Lexed::Emit(token_between(s, single_char_kind(c)->0, i, i + 1)) }
    } else if operator_kinds(c) is Some {
        if i + 1 < s.len() && s[i + 1] == '=' {
            Step {
                end: i + 2,
                out: Lexed::Emit(token_between(s, operator_kinds(c)->0.merged, i, i + 2)),
            }
        } else {
            Step {
                end: i + 1,
                out: Lexed::Emit(token_between(s, operator_kinds(c)->0.alone, i, i + 1)),
            }
        }
    } else if c == '/' {
        if i + 1 < s.len() && s[i + 1] == '/' {
            Step { end: run_end(s, i + 2, Run::Comment), out: Lexed::Skip }
        } else {
            Step { end: i + 1, out: Lexed::Emit(token_between(s, TokenType::Slash, i, i + 1)) }
        }
    } else if is_whitespace(c) {
        Step { end: i + 1, out: Lexed::Skip }
    } else if c == '"' {
        lex_string(s, i)
    } else if is_digit(c) {
        lex_number(s, i)
    } else if is_identifier_start(c) {
        lex_word(s, i)
    } else {
        Step { end: i + 1, out: Lexed::Fail(unexpected_character(s, i)) }
    }
}

/// The end-of-input token: an empty lexeme at the position after the text.
pub open spec fn eof_token(s: Seq<char>) -> TokenView {
    TokenView {
        token_type: TokenType::Eof,
        lexeme: Seq::empty(),
        span: Span { start: byte_len(s) as usize, end: (byte_len(s) + 1) as usize },
    }
}

/// Scanning from index `i` on, with `found` already produced.
pub open spec fn scan_from(s: Seq<char>, i: int, found: Seq<TokenView>) -> Result<
    Seq<TokenView>,
    ErrorView,
>
    decreases s.len() - i,
{
    if i < 0 || i >= s.len() {
        Ok(found.push(eof_token(s)))
    } else {
        let step = lex_step(s, i);
        if step.end <= i || step.end > s.len() {
            Ok(found)
        } else {
            match step.out {
                Lexed::Fail(e) => Err(e),
                Lexed::Skip => scan_from(s, step.end, found),
                Lexed::Emit(t) => scan_from(s, step.end, found.push(t)),
            }
        }
    }
}

/// The tokens of a source text, or the first lexical error in it.
pub open spec fn scan(s: Seq<char>) -> Result<Seq<TokenView>, ErrorView> {
    scan_from(s, 0, Seq::empty())
}

/// Every step moves forward and stays inside the text.
pub proof fn lemma_step_advances(s: Seq<char>, i: int)
    requires
        0 <= i < s.len(),
    ensures
        i < lex_step(s, i).end <= s.len(),
{
    lemma_run_end_bounds(s, i + 1, Run::Quoted);
    lemma_run_end_bounds(s, i + 1, Run::Digits);
    lemma_run_end_bounds(s, i + 1, Run::Word);
    if i + 2 <= s.len() {
        lemma_run_end_bounds(s, i + 2, Run::Comment);
    }
    let whole = run_end(s, i + 1, Run::Digits);
    if whole + 1 < s.len() {
        lemma_run_end_bounds(s, whole + 1, Run::Digits);
    }
}

// ---------------------------------------------------------------------------
// The scanner
// ---------------------------------------------------------------------------
fn len_utf8(c: char) -> (n: usize)
    ensures
        n == utf8_len(c),
{
    let v = c as u32;
    if v < 0x80 {
        1
    } else if v < 0x800 {
        2
    } else if v < 0x10000 {
        3
    } else {
        4
    }
}

fn is_ascii_digit(c: char) -> (b: bool)
    ensures
        b == is_digit(c),
{
    '0' <= c && c <= '9'
}

fn belongs(run: Run, c: char) -> (b: bool)
    ensures
        b == in_run(run, c),
{
    match run {
        Run::Comment => c != '\n',
        Run::Quoted => c != '"',
        Run::Digits => is_ascii_digit(c),
        Run::Word => is_alphanumeric(c) || c == '_',
    }
}

/// Whether the characters `chars[from..to]` spell `word`.
fn spells(chars: &Vec<char>, from: usize, to: usize, word: &str) -> (b: bool)
    requires
        from <= to <= chars.len(),
    ensures
        b == (chars@.subrange(from as int, to as int) == word@),
{
    let n = word.unicode_len();
    if to - from != n {
        return false;
    }
    let mut k: usize = 0;
    while k < n
        invariant
            from <= to <= chars.len(),
            to - from == n,
            n == word@.len(),
            k <= n,
            forall|j: int| 0 <= j < k ==> chars@[from + j] == word@[j],
        decreases n - k,
    {
        if chars[from + k] != word.get_char(k) {
            assert(chars@.subrange(from as int, to as int)[k as int] != word@[k as int]);
            return false;
        }
        k += 1;
    }
    assert(chars@.subrange(from as int, to as int) =~= word@);
    true
}

fn keyword_of(chars: &Vec<char>, from: usize, to: usize) -> (kind: TokenType)
    requires
        from <= to <= chars.len(),
    ensures
        kind == keyword_kind(chars@.subrange(from as int, to as int)),
{
    if spells(chars, from, to, "and") {
        TokenType::And
    } else if spells(chars, from, to, "else") {
        TokenType::Else
    } else if spells(chars, from, to, "false") {
        TokenType::False
    } else if spells(chars, from, to, "for") {
        TokenType::For
    } else if spells(chars, from, to, "fun") {
        TokenType::Fun
    } else if spells(chars, from, to, "if") {
        TokenType::If
    } else if spells(chars, from, to, "in") {
        TokenType::In
    } else if spells(chars, from, to, "nil") {
        TokenType::Nil
    } else if spells(chars, from, to, "not") {
        TokenType::Not
    } else if spells(chars, from, to, "or") {
        TokenType::Or
    } else if spells(chars, from, to, "return") {
        TokenType::Return
    } else if spells(chars, from, to, "true") {
        TokenType::True
    } else if spells(chars, from, to, "while") {
        TokenType::While
    } else {
        TokenType::Identifier
    }
}

/// The number that the digits `chars[from..to]` denote, if it is at most
/// `limit`.
pub(crate) fn digits_value(chars: &Vec<char>, from: usize, to: usize, limit: u64) -> (value: Option<
    u64,
>)
    requires
        from <= to <= chars.len(),
        forall|k: int| from <= k < to ==> is_digit(#[trigger] chars@[k]),
        9 <= limit <= 0x8000_0000_0000_0000,
    ensures
        value == if decimal_value(chars@.subrange(from as int, to as int)) <= limit {
            Some(decimal_value(chars@.subrange(from as int, to as int)) as u64)
        } else {
            None
        },
{
    let mut value: u64 = 0;
    let mut k: usize = from;
    assert(chars@.subrange(from as int, from as int) =~= Seq::<char>::empty());
    while k < to
        invariant
            from <= k <= to <= chars.len(),
            forall|j: int| from <= j < to ==> is_digit(#[trigger] chars@[j]),
            value == decimal_value(chars@.subrange(from as int, k as int)),
            value <= limit,
            9 <= limit <= 0x8000_0000_0000_0000,
        decreases to - k,
    {
        let c = chars[k];
        let d: u64 = (c as u32 - '0' as u32) as u64;
        proof {
            let next = chars@.subrange(from as int, k + 1);
            assert(next.drop_last() =~= chars@.subrange(from as int, k as int));
            assert(next.last() == c);
            assert(decimal_value(next) == value * 10 + d);
        }
        if value > (limit - d) / 10 {
            proof {
                lemma_decimal_value_grows(chars@, from as int, k + 1, to as int);
            }
            return None;
        }
        value = value * 10 + d;
        k += 1;
    }
    Some(value)
}

/// Longer runs of digits denote numbers at least as large.
proof fn lemma_decimal_value_grows(s: Seq<char>, from: int, mid: int, to: int)
    requires
        0 <= from <= mid <= to <= s.len(),
    ensures
        decimal_value(s.subrange(from, mid)) <= decimal_value(s.subrange(from, to)),
    decreases to - mid,
{
    if mid < to {
        lemma_decimal_value_grows(s, from, mid, to - 1);
        assert(s.subrange(from, to).drop_last() =~= s.subrange(from, to - 1));
    }
}

/// Scans a source text into tokens.
pub struct Lexer {
    source: String,
    chars: Vec<char>,
    tokens: Vec<Token>,
    /// Byte offset and character index at which the current token starts.
    start: usize,
    start_index: usize,
    /// Byte offset and character index of the cursor.
    current: usize,
    index: usize,
}

impl Lexer {
    /// The text that this lexer scans.
    pub closed spec fn source_text(&self) -> Seq<char> {
        self.source@
    }

    /// The lexer holds its text consistently, and every offset into the
    /// text fits the machine.
    pub closed spec fn wf(&self) -> bool {
        &&& self.chars@ == self.source@
        &&& byte_len(self.source@) + 1 < usize::MAX
    }

    spec fn cursor_ok(&self) -> bool {
        &&& self.wf()
        &&& self.start_index <= self.index <= self.chars.len()
        &&& self.start == byte_offset(self.source@, self.start_index as int)
        &&& self.current == byte_offset(self.source@, self.index as int)
    }

    /// Every token found so far has a span that is in order and ends
    /// before the largest offset.
    spec fn spans_fit(&self) -> bool {
        forall|k: int|
            0 <= k < self.tokens.len() ==> (#[trigger] self.tokens@[k]).span.start
                <= self.tokens@[k].span.end < usize::MAX
    }

    spec fn same_text(&self, other: &Lexer) -> bool {
        &&& self.source == other.source
        &&& self.chars == other.chars
    }

    spec fn moved_from(&self, before: &Lexer) -> bool {
        &&& self.cursor_ok()
        &&& self.same_text(before)
        &&& self.tokens == before.tokens
        &&& self.start == before.start
        &&& self.start_index == before.start_index
    }

    pub fn new(source: String) -> (lexer: Lexer)
        requires
            byte_len(source@) + 1 < usize::MAX,
        ensures
            lexer.wf(),
            lexer.source_text() == source@,
    {
        let chars = chars_of(source.as_str());
        Lexer { source, chars, tokens: Vec::new(), start: 0, start_index: 0, current: 0, index: 0 }
    }

    /// Scans the whole text: its tokens, closed by the end-of-input token,
    /// or the first lexical error.
    pub fn scan_tokens(&mut self) -> (result: Result<Vec<Token>, BccError>)
        requires
            old(self).wf(),
        ensures
            final(self).wf(),
            final(self).source_text() == old(self).source_text(),
            match result {
                Ok(tokens) => scan(old(self).source_text()) == Ok::<Seq<TokenView>, ErrorView>(
                    token_views(tokens@),
                ),
                Err(e) => scan(old(self).source_text()) == Err::<Seq<TokenView>, ErrorView>(e@),
            },
            result matches Ok(tokens) ==> tokens.len() > 0 && tokens@.last().token_type
                == TokenType::Eof && well_formed_tokens(token_views(tokens@)) && ordered_spans(
                token_views(tokens@),
            ),
            result matches Err(e) ==> e.kind == ErrorKind::LexError && e.span.start <= e.span.end,
    {
        self.tokens = Vec::new();
        self.start = 0;
        self.start_index = 0;
        self.current = 0;
        self.index = 0;
        assert(token_views(self.tokens@) =~= Seq::<TokenView>::empty());
        while !self.is_at_end()
            invariant
                self.cursor_ok(),
                self.same_text(old(self)),
                scan(self.source@) == scan_from(
                    self.source@,
                    self.index as int,
                    token_views(self.tokens@),
                ),
                self.spans_fit(),
            decreases self.chars.len() - self.index,
        {
            self.start = self.current;
            self.start_index = self.index;
            proof {
                lemma_step_advances(self.source@, self.index as int);
            }
            match self.scan_token() {
                Ok(()) => {},
                Err(e) => {
                    return Err(e);
                },
            }
        }
        proof {
            lemma_byte_offset_monotonic(self.source@, 0, self.index as int);
        }
        let eof = Token::new(TokenType::Eof, String::new(), Span::single(self.current));
        assert(eof@ == eof_token(self.source@));
        let ghost before = self.tokens@;
        self.tokens.push(eof);
        assert(token_views(self.tokens@) =~= token_views(before).push(eof_token(self.source@)));
        let mut tokens: Vec<Token> = Vec::new();
        core::mem::swap(&mut tokens, &mut self.tokens);
        Ok(tokens)
    }

    fn is_at_end(&self) -> (b: bool)
        ensures
            b == (self.index >= self.chars.len()),
    {
        self.index >= self.chars.len()
    }

    /// Scans one token, comment or blank at the cursor.
    fn scan_token(&mut self) -> (result: Result<(), BccError>)
        requires
            old(self).cursor_ok(),
            old(self).start_index == old(self).index,
            old(self).index < old(self).chars.len(),
            old(self).spans_fit(),
        ensures
            final(self).cursor_ok(),
            final(self).same_text(old(self)),
            final(self).index == lex_step(old(self).source@, old(self).index as int).end
                || result is Err,
            match lex_step(old(self).source@, old(self).index as int).out {
                Lexed::Skip => result is Ok && final(self).tokens@ == old(self).tokens@,
                Lexed::Emit(t) => result is Ok && token_views(final(self).tokens@) == token_views(
                    old(self).tokens@,
                ).push(t),
                Lexed::Fail(e) => result matches Err(err) && err@ == e,
            },
            result matches Err(err) ==> err.kind == ErrorKind::LexError && err.span.start
                <= err.span.end,
            final(self).spans_fit(),
    {
        let ghost s = self.source@;
        let ghost i = self.index as int;
        let c = self.advance();
        if c == '(' {
            self.add_token(TokenType::LeftParen);
        } else if c == ')' {
            self.add_token(TokenType::RightParen);
        } else if c == '{' {
            self.add_token(TokenType::LeftBrace);
        } else if c == '}' {
            self.add_token(TokenType::RightBrace);
        } else if c == '[' {
            self.add_token(TokenType::LeftBracket);
        } else if c == ']' {
            self.add_token(TokenType::RightBracket);
        } else if c == ',' {
            self.add_token(TokenType::Comma);
        } else if c == ':' {
            self.add_token(TokenType::Colon);
        } else if c == '.' {
            self.add_token(TokenType::Dot);
        } else if c == '-' {
            self.add_token(TokenType::Minus);
        } else if c == '+' {
            self.add_token(TokenType::Plus);
        } else if c == ';' {
            self.add_token(TokenType::Semicolon);
        } else if c == '*' {
            self.add_token(TokenType::Star);
        } else if c == '!' {
            let kind = if self.match_char('=') {
                TokenType::BangEqual
            } else {
                TokenType::Bang
            };
            self.add_token(kind);
        } else if c == '=' {
            let kind = if self.match_char('=') {
                TokenType::EqualEqual
            } else {
                TokenType::Equal
            };
            self.add_token(kind);
        } else if c == '<' {
            let kind = if self.match_char('=') {
                TokenType::LessEqual
            } else {
                TokenType::Less
            };
            self.add_token(kind);
        } else if c == '>' {
            let kind = if self.match_char('=') {
                TokenType::GreaterEqual
            } else {
                TokenType::Greater
            };
            self.add_token(kind);
        } else if c == '/' {
            if self.match_char('/') {
                self.skip_run(Run::Comment);
            } else {
                self.add_token(TokenType::Slash);
            }
        } else if c == ' ' || c == '\r' || c == '\t' || c == '\n' {
        } else if c == '"' {
            return self.string();
        } else if is_ascii_digit(c) {
            return self.number();
        } else if is_alphabetic(c) || c == '_' {
            self.identifier();
        } else {
            proof {
                lemma_byte_offset_monotonic(s, 0, i + 1);
            }
            let mut message = owned("Unexpected character: '");
            push_char(&mut message, c);
            message.append("'");
            return Err(BccError::lex_error(Span::single(self.current - 1), message));
        }
        Ok(())
    }

    /// Consumes the character at the cursor and returns it; at the end of
    /// the text, returns NUL and stays.
    fn advance(&mut self) -> (c: char)
        requires
            old(self).cursor_ok(),
        ensures
            final(self).moved_from(old(self)),
            old(self).index < old(self).chars.len() ==> c == old(self).chars@[old(
                self,
            ).index as int] && final(self).index == old(self).index + 1,
            old(self).index >= old(self).chars.len() ==> c == '\0' && final(self).index == old(
                self,
            ).index,
    {
        if self.index >= self.chars.len() {
            return '\0';
        }
        let c = self.chars[self.index];
        proof {
            lemma_byte_offset_monotonic(
                self.source@,
                self.index as int + 1,
                self.chars.len() as int,
            );
        }
        self.current = self.current + len_utf8(c);
        self.index = self.index + 1;
        c
    }

    /// Consumes the character at the cursor if it is the expected one.
    fn match_char(&mut self, expected: char) -> (matched: bool)
        requires
            old(self).cursor_ok(),
        ensures
            final(self).moved_from(old(self)),
            matched == (old(self).index < old(self).chars.len() && old(self).chars@[old(
                self,
            ).index as int] == expected),
            final(self).index == old(self).index + if matched {
                1int
            } else {
                0int
            },
    {
        if self.is_at_end() || self.peek() != expected {
            false
        } else {
            self.advance();
            true
        }
    }

    /// The character at the cursor, or NUL at the end of the text.
    fn peek(&self) -> (c: char)
        ensures
            c == if self.index < self.chars.len() {
                self.chars@[self.index as int]
            } else {
                '\0'
            },
    {
        if self.index >= self.chars.len() {
            return '\0';
        }
        self.chars[self.index]
    }

    /// The character after the cursor, or NUL if there is none.
    fn peek_next(&self) -> (c: char)
        requires
            self.index <= self.chars.len(),
        ensures
            c == if self.index + 1 < self.chars.len() {
                self.chars@[self.index + 1]
            } else {
                '\0'
            },
    {
        if self.chars.len() - self.index <= 1 {
            return '\0';
        }
        self.chars[self.index + 1]
    }

    /// Consumes the run of characters at the cursor.
    fn skip_run(&mut self, run: Run)
        requires
            old(self).cursor_ok(),
        ensures
            final(self).moved_from(old(self)),
            final(self).index == run_end(old(self).source@, old(self).index as int, run),
    {
        while !self.is_at_end() && belongs(run, self.peek())
            invariant
                self.moved_from(old(self)),
                run_end(self.source@, self.index as int, run) == run_end(
                    old(self).source@,
                    old(self).index as int,
                    run,
                ),
            decreases self.chars.len() - self.index,
        {
            self.advance();
        }
    }

    fn string(&mut self) -> (result: Result<(), BccError>)
        requires
            old(self).cursor_ok(),
            old(self).index == old(self).start_index + 1,
            old(self).spans_fit(),
        ensures
            final(self).cursor_ok(),
            final(self).same_text(old(self)),
            final(self).index == lex_string(old(self).source@, old(self).start_index as int).end,
            match lex_string(old(self).source@, old(self).start_index as int).out {
                Lexed::Skip => false,
                Lexed::Emit(t) => result is Ok && token_views(final(self).tokens@) == token_views(
                    old(self).tokens@,
                ).push(t),
                Lexed::Fail(e) => result matches Err(err) && err@ == e,
            },
            result matches Err(err) ==> err.kind == ErrorKind::LexError && err.span.start
                <= err.span.end,
            final(self).spans_fit(),
    {
        self.skip_run(Run::Quoted);
        proof {
            lemma_run_end_bounds(self.source@, self.start_index as int + 1, Run::Quoted);
            lemma_byte_offset_monotonic(self.source@, self.start_index as int, self.index as int);
        }
        if self.is_at_end() {
            return Err(
                BccError::lex_error(
                    Span::new(self.start, self.current),
                    owned("Unterminated string"),
                ),
            );
        }
        // The closing quote.
        self.advance();
        let content = owned(
            self.source.as_str().substring_char(self.start_index + 1, self.index - 1),
        );
        self.add_token_with_content(TokenType::String, content);
        Ok(())
    }

    fn number(&mut self) -> (result: Result<(), BccError>)
        requires
            old(self).cursor_ok(),
            old(self).index == old(self).start_index + 1,
            is_digit(old(self).chars@[old(self).start_index as int]),
            old(self).spans_fit(),
        ensures
            final(self).cursor_ok(),
            final(self).same_text(old(self)),
            final(self).index == lex_number(old(self).source@, old(self).start_index as int).end,
            match lex_number(old(self).source@, old(self).start_index as int).out {
                Lexed::Skip => false,
                Lexed::Emit(t) => result is Ok && token_views(final(self).tokens@) == token_views(
                    old(self).tokens@,
                ).push(t),
                Lexed::Fail(e) => result matches Err(err) && err@ == e,
            },
            result matches Err(err) ==> err.kind == ErrorKind::LexError && err.span.start
                <= err.span.end,
            final(self).spans_fit(),
    {
        self.skip_run(Run::Digits);
        proof {
            lemma_run_end_bounds(self.source@, self.start_index as int + 1, Run::Digits);
            lemma_byte_offset_monotonic(self.source@, self.start_index as int, self.index as int);
        }
        if self.peek() == '.' && is_ascii_digit(self.peek_next()) {
            // The point, then the fraction.
            self.advance();
            self.skip_run(Run::Digits);
            self.add_token(TokenType::Double);
            Ok(())
        } else if digits_value(
            &self.chars,
            self.start_index,
            self.index,
            0x7fff_ffff_ffff_ffff,
        ).is_none() {
            let text = self.source.as_str().substring_char(self.start_index, self.index);
            let mut message = owned("Invalid integer: ");
            message.append(text);
            Err(BccError::lex_error(Span::new(self.start, self.current), message))
        } else {
            self.add_token(TokenType::Integer);
            Ok(())
        }
    }

    fn identifier(&mut self)
        requires
            old(self).cursor_ok(),
            old(self).index == old(self).start_index + 1,
            old(self).spans_fit(),
        ensures
            final(self).cursor_ok(),
            final(self).same_text(old(self)),
            final(self).index == lex_word(old(self).source@, old(self).start_index as int).end,
            lex_word(old(self).source@, old(self).start_index as int).out matches Lexed::Emit(t)
                && token_views(final(self).tokens@) == token_views(old(self).tokens@).push(t),
            final(self).spans_fit(),
    {
        self.skip_run(Run::Word);
        proof {
            lemma_run_end_bounds(self.source@, self.start_index as int + 1, Run::Word);
        }
        let kind = keyword_of(&self.chars, self.start_index, self.index);
        self.add_token(kind);
    }

    /// Adds the token whose text is the source between start and cursor.
    fn add_token(&mut self, kind: TokenType)
        requires
            old(self).cursor_ok(),
            old(self).spans_fit(),
        ensures
            final(self).cursor_ok(),
            final(self).same_text(old(self)),
            final(self).index == old(self).index,
            final(self).start_index == old(self).start_index,
            token_views(final(self).tokens@) == token_views(old(self).tokens@).push(
                token_between(
                    old(self).source@,
                    kind,
                    old(self).start_index as int,
                    old(self).index as int,
                ),
            ),
            final(self).spans_fit(),
    {
        let text = owned(self.source.as_str().substring_char(self.start_index, self.index));
        self.add_token_with_content(kind, text);
    }

    fn add_token_with_content(&mut self, kind: TokenType, lexeme: String)
        requires
            old(self).cursor_ok(),
            old(self).spans_fit(),
        ensures
            final(self).cursor_ok(),
            final(self).same_text(old(self)),
            final(self).index == old(self).index,
            final(self).start_index == old(self).start_index,
            token_views(final(self).tokens@) == token_views(old(self).tokens@).push(
                TokenView {
                    token_type: kind,
                    lexeme: lexeme@,
                    span: span_between(
                        old(self).source@,
                        old(self).start_index as int,
                        old(self).index as int,
                    ),
                },
            ),
            final(self).spans_fit(),
    {
        proof {
            lemma_byte_offset_monotonic(self.source@, self.index as int, self.chars.len() as int);
            lemma_byte_offset_monotonic(self.source@, self.start_index as int, self.index as int);
        }
        let ghost before = self.tokens@;
        let token = Token::new(kind, lexeme, Span::new(self.start, self.current));
        self.tokens.push(token);
        assert(token_views(self.tokens@) =~= token_views(before).push(token@));
    }
}

} // verus!
