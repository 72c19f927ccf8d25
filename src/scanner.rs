use vstd::prelude::*;

use vstd::string::StrSliceExecFns;

use crate::token_types::{opt_literal_view, Literal, LiteralView, Token, TokenType, TokenView};

verus! {

// ---------------------------------------------------------------------------
// Character classes
// ---------------------------------------------------------------------------

pub open spec fn is_digit(c: char) -> bool {
    '0' <= c && c <= '9'
}

/// Whether `c` has the Unicode Alphabetic property.
pub uninterp spec fn alphabetic(c: char) -> bool;

/// Whether `c` is Unicode alphabetic or numeric.
pub uninterp spec fn alphanumeric(c: char) -> bool;

/// Relies on `char::is_alphabetic`: true exactly for Unicode Alphabetic characters.
#[verifier::external_body]
fn is_alphabetic(c: char) -> (r: bool)
    ensures
        r == alphabetic(c),
{
    c.is_alphabetic()
}

/// Relies on `char::is_alphanumeric`: true exactly for Unicode Alphabetic or Numeric characters.
#[verifier::external_body]
fn is_alphanumeric(c: char) -> (r: bool)
    ensures
        r == alphanumeric(c),
{
    c.is_alphanumeric()
}

/// Relies on `String::push`: appends one character at the end.
#[verifier::external_body]
fn push_char(s: &mut String, c: char)
    ensures
        final(s)@ == old(s)@.push(c),
{
    s.push(c)
}

pub open spec fn is_ident_start(c: char) -> bool {
    alphabetic(c) || c == '_'
}

pub open spec fn is_ident_continue(c: char) -> bool {
    alphanumeric(c) || c == '_'
}

pub open spec fn is_blank(c: char) -> bool {
    c == ' ' || c == '\r' || c == '\t' || c == '\n'
}

// ---------------------------------------------------------------------------
// Token kinds decided by text
// ---------------------------------------------------------------------------

/// Kind of a token that is always one character long.
pub open spec fn single_char_kind(c: char) -> Option<TokenType> {
    if c == '(' {
        Some(TokenType::LeftParen)
    } else if c == ')' {
        Some(TokenType::RightParen)
    } else if c == '{' {
        Some(TokenType::LeftBrace)
    } else if c == '}' {
        Some(TokenType::RightBrace)
    } else if c == ',' {
        Some(TokenType::Comma)
    } else if c == '.' {
        Some(TokenType::Dot)
    } else if c == '-' {
        Some(TokenType::Minus)
    } else if c == '+' {
        Some(TokenType::Plus)
    } else if c == ';' {
        Some(TokenType::Semicolon)
    } else if c == '*' {
        Some(TokenType::Star)
    } else {
        None
    }
}

/// The characters that form an operator alone or together with a following `=`.
pub open spec fn is_equal_prefix(c: char) -> bool {
    c == '!' || c == '=' || c == '<' || c == '>'
}

/// Kind of the operator `c` alone (`with_equal` false) or `c` followed by `=`.
pub open spec fn equal_prefix_kind(c: char, with_equal: bool) -> TokenType {
    if c == '!' {
        if with_equal { TokenType::BangEqual } else { TokenType::Bang }
    } else if c == '=' {
        if with_equal { TokenType::EqualEqual } else { TokenType::Equal }
    } else if c == '<' {
        if with_equal { TokenType::LessEqual } else { TokenType::Less }
    } else {
        if with_equal { TokenType::GreaterEqual } else { TokenType::Greater }
    }
}

/// The keyword spelled exactly by `s`, if any.
pub open spec fn keyword_kind(s: Seq<char>) -> Option<TokenType> {
    if s == "and"@ {
        Some(TokenType::And)
    } else if s == "class"@ {
        Some(TokenType::Class)
    } else if s == "else"@ {
        Some(TokenType::Else)
    } else if s == "false"@ {
        Some(TokenType::False)
    } else if s == "for"@ {
        Some(TokenType::For)
    } else if s == "fun"@ {
        Some(TokenType::Fun)
    } else if s == "if"@ {
        Some(TokenType::If)
    } else if s == "nil"@ {
        Some(TokenType::Nil)
    } else if s == "or"@ {
        Some(TokenType::Or)
    } else if s == "print"@ {
        Some(TokenType::Print)
    } else if s == "return"@ {
        Some(TokenType::Return)
    } else if s == "super"@ {
        Some(TokenType::Super)
    } else if s == "this"@ {
        Some(TokenType::This)
    } else if s == "true"@ {
        Some(TokenType::True)
    } else if s == "var"@ {
        Some(TokenType::Var)
    } else if s == "while"@ {
        Some(TokenType::While)
    } else {
        None
    }
}

// ---------------------------------------------------------------------------
// Where multi-character lexemes end
// ---------------------------------------------------------------------------

/// First index at or after `i` that holds a newline, or the end of input.
pub open spec fn comment_end(src: Seq<char>, i: int) -> int
    decreases src.len() - i,
{
    if i >= src.len() || src[i] == '\n' {
        i
    } else {
        comment_end(src, i + 1)
    }
}

/// End of the run of digits that starts at `i`.
pub open spec fn digits_end(src: Seq<char>, i: int) -> int
    decreases src.len() - i,
{
    if 0 <= i < src.len() && is_digit(src[i]) {
        digits_end(src, i + 1)
    } else {
        i
    }
}

/// End of the number literal whose first digit is at `start`: a run of
/// digits, then a point and a second run only where a digit follows the point.
pub open spec fn number_end(src: Seq<char>, start: int) -> int {
    let e = digits_end(src, start + 1);
    if e < src.len() && e + 1 < src.len() && src[e] == '.' && is_digit(src[e + 1]) {
        digits_end(src, e + 2)
    } else {
        e
    }
}

/// End of the run of identifier characters that starts at `i`.
pub open spec fn ident_end(src: Seq<char>, i: int) -> int
    decreases src.len() - i,
{
    if 0 <= i < src.len() && is_ident_continue(src[i]) {
        ident_end(src, i + 1)
    } else {
        i
    }
}

/// First index at or after `i` that holds a double quote, or the end of input.
pub open spec fn string_close(src: Seq<char>, i: int) -> int
    decreases src.len() - i,
{
    if i >= src.len() || src[i] == '"' {
        i
    } else {
        string_close(src, i + 1)
    }
}

// ---------------------------------------------------------------------------
// Positions
// ---------------------------------------------------------------------------

/// 1-based line of index `pos`: one more than the newlines before it.
pub open spec fn line_at(src: Seq<char>, pos: int) -> nat
    decreases pos,
{
    if pos <= 0 {
        1
    } else if src[pos - 1] == '\n' {
        line_at(src, pos - 1) + 1
    } else {
        line_at(src, pos - 1)
    }
}

/// Index of the first character of the line that holds index `pos`.
pub open spec fn line_start_at(src: Seq<char>, pos: int) -> int
    decreases pos,
{
    if pos <= 0 {
        0
    } else if src[pos - 1] == '\n' {
        pos
    } else {
        line_start_at(src, pos - 1)
    }
}

/// 1-based column of index `pos`.
pub open spec fn col_at(src: Seq<char>, pos: int) -> nat {
    (pos - line_start_at(src, pos) + 1) as nat
}

// ---------------------------------------------------------------------------
// The lexer as a function of the source
// ---------------------------------------------------------------------------

/// A condition found while scanning, with the line where it was found.
#[derive(Debug, Clone, Copy, PartialEq, Eq, Structural)]
pub enum ScanError {
    /// The input ended inside a string literal.
    UnterminatedString { line: usize },
    /// A character that begins no token.
    UnexpectedCharacter { line: usize, character: char },
}

/// What one scanning step does at a position: where the next step starts,
/// and the token or the error it produces, if any.
pub struct Step {
    pub next: int,
    pub token: Option<TokenView>,
    pub error: Option<ScanError>,
}

/// The token of kind `kind` read from `src[start..end]`.
pub open spec fn token_at(
    src: Seq<char>,
    kind: TokenType,
    start: int,
    end: int,
    literal: Option<LiteralView>,
) -> TokenView {
    TokenView {
        kind,
        lexeme: Some(src.subrange(start, end)),
        literal,
        line: line_at(src, start),
        col: col_at(src, start),
    }
}

pub open spec fn emit(
    src: Seq<char>,
    kind: TokenType,
    start: int,
    end: int,
    literal: Option<LiteralView>,
) -> Step {
    Step { next: end, token: Some(token_at(src, kind, start, end, literal)), error: None }
}

pub open spec fn skip_to(next: int) -> Step {
    Step { next, token: None, error: None }
}

/// The scanning step at `pos`, which holds the character `src[pos]`.
pub open spec fn step(src: Seq<char>, pos: int) -> Step {
    let c = src[pos];
    let followed_by = |d: char| pos + 1 < src.len() && src[pos + 1] == d;
    if single_char_kind(c) is Some {
        emit(src, single_char_kind(c)->0, pos, pos + 1, None)
    } else if is_equal_prefix(c) {
        if followed_by('=') {
            emit(src, equal_prefix_kind(c, true), pos, pos + 2, None)
        } else {
            emit(src, equal_prefix_kind(c, false), pos, pos + 1, None)
        }
    } else if c == '/' {
        if followed_by('/') {
            skip_to(comment_end(src, pos + 2))
        } else {
            emit(src, TokenType::Slash, pos, pos + 1, None)
        }
    } else if is_blank(c) {
        skip_to(pos + 1)
    } else if c == '"' {
        let close = string_close(src, pos + 1);
        if close < src.len() {
            let text = src.subrange(pos + 1, close);
            emit(
                src,
                TokenType::String,
                pos,
                close + 1,
                Some(LiteralView { string: Some(text), number: None }),
            )
        } else {
            Step {
                next: close,
                token: None,
                error: Some(ScanError::UnterminatedString { line: line_at(src, close) as usize }),
            }
        }
    } else if is_digit(c) {
        let end = number_end(src, pos);
        let digits = src.subrange(pos, end);
        emit(
            src,
            TokenType::Number,
            pos,
            end,
            Some(LiteralView { string: None, number: Some(digits) }),
        )
    } else if is_ident_start(c) {
        let end = ident_end(src, pos + 1);
        match keyword_kind(src.subrange(pos, end)) {
            Some(k) => emit(src, k, pos, end, None),
            None => emit(src, TokenType::Identifier, pos, end, None),
        }
    } else {
        Step {
            next: pos + 1,
            token: None,
            error: Some(
                ScanError::UnexpectedCharacter { line: line_at(src, pos) as usize, character: c },
            ),
        }
    }
}

/// The end-of-input token, placed at the end of `src`.
pub open spec fn eof_token(src: Seq<char>) -> TokenView {
    TokenView {
        kind: TokenType::Eof,
        lexeme: None,
        literal: None,
        line: line_at(src, src.len() as int),
        col: col_at(src, src.len() as int),
    }
}

/// The tokens produced from index `pos` to the end, the end-of-input token last.
pub open spec fn tokens_from(src: Seq<char>, pos: int) -> Seq<TokenView>
    decreases src.len() - pos,
    via tokens_from_decreases
{
    if pos < 0 || pos >= src.len() {
        seq![eof_token(src)]
    } else {
        let s = step(src, pos);
        match s.token {
            Some(t) => seq![t] + tokens_from(src, s.next),
            None => tokens_from(src, s.next),
        }
    }
}

#[via_fn]
proof fn tokens_from_decreases(src: Seq<char>, pos: int) {
    if 0 <= pos < src.len() {
        lemma_step_advances(src, pos);
    }
}

/// The errors reported from index `pos` to the end, in order.
pub open spec fn errors_from(src: Seq<char>, pos: int) -> Seq<ScanError>
    decreases src.len() - pos,
    via errors_from_decreases
{
    if pos < 0 || pos >= src.len() {
        seq![]
    } else {
        let s = step(src, pos);
        match s.error {
            Some(e) => seq![e] + errors_from(src, s.next),
            None => errors_from(src, s.next),
        }
    }
}

#[via_fn]
proof fn errors_from_decreases(src: Seq<char>, pos: int) {
    if 0 <= pos < src.len() {
        lemma_step_advances(src, pos);
    }
}

/// The token sequence of a whole source text.
pub open spec fn scan(src: Seq<char>) -> Seq<TokenView> {
    tokens_from(src, 0)
}

/// The errors reported while scanning a whole source text.
pub open spec fn scan_errors(src: Seq<char>) -> Seq<ScanError> {
    errors_from(src, 0)
}

// ---------------------------------------------------------------------------
// Facts about the ends
// ---------------------------------------------------------------------------

proof fn lemma_comment_end(src: Seq<char>, i: int)
    requires
        i <= src.len(),
    ensures
        i <= comment_end(src, i) <= src.len(),
    decreases src.len() - i,
{
    if i < src.len() && src[i] != '\n' {
        lemma_comment_end(src, i + 1);
    }
}

proof fn lemma_digits_end(src: Seq<char>, i: int)
    requires
        0 <= i <= src.len(),
    ensures
        i <= digits_end(src, i) <= src.len(),
    decreases src.len() - i,
{
    if i < src.len() && is_digit(src[i]) {
        lemma_digits_end(src, i + 1);
    }
}

proof fn lemma_ident_end(src: Seq<char>, i: int)
    requires
        0 <= i <= src.len(),
    ensures
        i <= ident_end(src, i) <= src.len(),
    decreases src.len() - i,
{
    if i < src.len() && is_ident_continue(src[i]) {
        lemma_ident_end(src, i + 1);
    }
}

proof fn lemma_string_close(src: Seq<char>, i: int)
    requires
        i <= src.len(),
    ensures
        i <= string_close(src, i) <= src.len(),
    decreases src.len() - i,
{
    if i < src.len() && src[i] != '"' {
        lemma_string_close(src, i + 1);
    }
}

/// Every step consumes at least one character and stays within the input.
pub proof fn lemma_step_advances(src: Seq<char>, pos: int)
    requires
        0 <= pos < src.len(),
    ensures
        pos < step(src, pos).next <= src.len(),
{
    let c = src[pos];
    if c == '/' && pos + 1 < src.len() && src[pos + 1] == '/' {
        lemma_comment_end(src, pos + 2);
    }
    if c == '"' {
        lemma_string_close(src, pos + 1);
    }
    if is_digit(c) {
        lemma_digits_end(src, pos + 1);
        let e = digits_end(src, pos + 1);
        if e + 1 < src.len() {
            lemma_digits_end(src, e + 2);
        }
    }
    if is_ident_start(c) {
        lemma_ident_end(src, pos + 1);
    }
}

proof fn lemma_line_bounds(src: Seq<char>, pos: int)
    requires
        0 <= pos,
    ensures
        1 <= line_at(src, pos) <= pos + 1,
        0 <= line_start_at(src, pos) <= pos,
    decreases pos,
{
    if pos > 0 {
        lemma_line_bounds(src, pos - 1);
    }
}

// ---------------------------------------------------------------------------
// Laws of the lexer
// ---------------------------------------------------------------------------

/// Whether `src[pos..]` holds nothing but blanks and line comments.
pub open spec fn only_blanks_and_comments(src: Seq<char>, pos: int) -> bool
    decreases src.len() - pos,
    via only_blanks_and_comments_decreases
{
    if pos < 0 || pos >= src.len() {
        true
    } else if is_blank(src[pos]) {
        only_blanks_and_comments(src, pos + 1)
    } else if src[pos] == '/' && pos + 1 < src.len() && src[pos + 1] == '/' {
        only_blanks_and_comments(src, comment_end(src, pos + 2))
    } else {
        false
    }
}

#[via_fn]
proof fn only_blanks_and_comments_decreases(src: Seq<char>, pos: int) {
    if 0 <= pos < src.len() && pos + 1 < src.len() {
        lemma_comment_end(src, pos + 2);
    }
}

proof fn lemma_blank_tail(src: Seq<char>, pos: int)
    requires
        0 <= pos <= src.len(),
        only_blanks_and_comments(src, pos),
    ensures
        tokens_from(src, pos) == seq![eof_token(src)],
        errors_from(src, pos) == Seq::<ScanError>::empty(),
    decreases src.len() - pos,
{
    if pos < src.len() {
        lemma_step_advances(src, pos);
        let c = src[pos];
        assert(single_char_kind(c) is None);
        if src[pos] == '/' && pos + 1 < src.len() && src[pos + 1] == '/' {
            lemma_comment_end(src, pos + 2);
        }
        lemma_blank_tail(src, step(src, pos).next);
    }
}

/// Input made only of blanks and line comments scans to the end-of-input
/// token alone, with no error.
pub proof fn lemma_blank_input_scans_to_end(src: Seq<char>)
    requires
        only_blanks_and_comments(src, 0),
    ensures
        scan(src) == seq![eof_token(src)],
        scan(src)[0].kind == TokenType::Eof,
        scan_errors(src) == Seq::<ScanError>::empty(),
{
    lemma_blank_tail(src, 0);
}

/// A one-character punctuation input scans to that token, then the end of input.
pub proof fn lemma_single_punctuation(c: char)
    requires
        single_char_kind(c) is Some,
    ensures
        scan(seq![c]) == seq![
            TokenView {
                kind: single_char_kind(c)->0,
                lexeme: Some(seq![c]),
                literal: None,
                line: 1,
                col: 1,
            },
            TokenView { kind: TokenType::Eof, lexeme: None, literal: None, line: 1, col: 2 },
        ],
{
    let src = seq![c];
    assert(src.subrange(0, 1) =~= src);
    assert(src[0] == c && c != '\n');
    assert(line_start_at(src, 0) == 0);
    assert(line_start_at(src, 1) == 0);
    assert(tokens_from(src, 1) == seq![eof_token(src)]);
}

/// `c` followed by `=` scans to one two-character operator, and `c` alone
/// to the one-character operator, for each of `!`, `=`, `<`, `>`.
pub proof fn lemma_equal_operators(c: char)
    requires
        is_equal_prefix(c),
    ensures
        scan(seq![c, '=']) == seq![
            TokenView {
                kind: equal_prefix_kind(c, true),
                lexeme: Some(seq![c, '=']),
                literal: None,
                line: 1,
                col: 1,
            },
            TokenView { kind: TokenType::Eof, lexeme: None, literal: None, line: 1, col: 3 },
        ],
        scan(seq![c]) == seq![
            TokenView {
                kind: equal_prefix_kind(c, false),
                lexeme: Some(seq![c]),
                literal: None,
                line: 1,
                col: 1,
            },
            TokenView { kind: TokenType::Eof, lexeme: None, literal: None, line: 1, col: 2 },
        ],
{
    let two = seq![c, '='];
    assert(two.subrange(0, 2) =~= two);
    assert(two[0] == c && two[1] == '=');
    assert(line_start_at(two, 0) == 0);
    assert(line_start_at(two, 1) == 0);
    assert(line_start_at(two, 2) == 0);
    assert(line_at(two, 0) == 1);
    assert(line_at(two, 1) == 1);
    assert(line_at(two, 2) == 1);
    assert(step(two, 0).next == 2);
    assert(tokens_from(two, 2) == seq![eof_token(two)]);
    assert(tokens_from(two, 0) == seq![step(two, 0).token->0] + tokens_from(two, 2));
    let one = seq![c];
    assert(one.subrange(0, 1) =~= one);
    assert(one[0] == c);
    assert(line_start_at(one, 0) == 0);
    assert(line_start_at(one, 1) == 0);
    assert(tokens_from(one, 1) == seq![eof_token(one)]);
}

// ---------------------------------------------------------------------------
// Finding the ends
// ---------------------------------------------------------------------------

fn find_comment_end(src: &Vec<char>, i: usize) -> (r: usize)
    requires
        i <= src.len(),
    ensures
        r == comment_end(src@, i as int),
{
    let mut j: usize = i;
    while j < src.len() && src[j] != '\n'
        invariant
            i <= j <= src.len(),
            comment_end(src@, j as int) == comment_end(src@, i as int),
        decreases src.len() - j,
    {
        j = j + 1;
    }
    j
}

fn find_string_close(src: &Vec<char>, i: usize) -> (r: usize)
    requires
        i <= src.len(),
    ensures
        r == string_close(src@, i as int),
{
    let mut j: usize = i;
    while j < src.len() && src[j] != '"'
        invariant
            i <= j <= src.len(),
            string_close(src@, j as int) == string_close(src@, i as int),
        decreases src.len() - j,
    {
        j = j + 1;
    }
    j
}

fn find_digits_end(src: &Vec<char>, i: usize) -> (r: usize)
    requires
        i <= src.len(),
    ensures
        r == digits_end(src@, i as int),
{
    let mut j: usize = i;
    while j < src.len() && '0' <= src[j] && src[j] <= '9'
        invariant
            i <= j <= src.len(),
            digits_end(src@, j as int) == digits_end(src@, i as int),
        decreases src.len() - j,
    {
        j = j + 1;
    }
    j
}

fn find_number_end(src: &Vec<char>, start: usize) -> (r: usize)
    requires
        start < src.len(),
    ensures
        r == number_end(src@, start as int),
{
    let e = find_digits_end(src, start + 1);
    proof {
        lemma_digits_end(src@, start + 1);
    }
    if e < src.len() && e + 1 < src.len() && src[e] == '.' && '0' <= src[e + 1] && src[e + 1] <= '9' {
        find_digits_end(src, e + 2)
    } else {
        e
    }
}

fn find_ident_end(src: &Vec<char>, i: usize) -> (r: usize)
    requires
        i <= src.len(),
    ensures
        r == ident_end(src@, i as int),
{
    let mut j: usize = i;
    while j < src.len() && (is_alphanumeric(src[j]) || src[j] == '_')
        invariant
            i <= j <= src.len(),
            ident_end(src@, j as int) == ident_end(src@, i as int),
        decreases src.len() - j,
    {
        j = j + 1;
    }
    j
}

/// The characters `src[start..end]` as a string.
fn substring(src: &Vec<char>, start: usize, end: usize) -> (r: String)
    requires
        start <= end <= src.len(),
    ensures
        r@ == src@.subrange(start as int, end as int),
{
    let mut s = String::new();
    let mut k: usize = start;
    while k < end
        invariant
            start <= k <= end <= src.len(),
            s@ == src@.subrange(start as int, k as int),
        decreases end - k,
    {
        push_char(&mut s, src[k]);
        proof {
            assert(src@.subrange(start as int, k + 1) =~= src@.subrange(start as int, k as int).push(
                src@[k as int],
            ));
        }
        k = k + 1;
    }
    s
}

/// Whether `src[start..end]` spells exactly `word`.
fn text_is(src: &Vec<char>, start: usize, end: usize, word: &str) -> (r: bool)
    requires
        start <= end <= src.len(),
    ensures
        r == (src@.subrange(start as int, end as int) == word@),
{
    let n = word.unicode_len();
    if end - start != n {
        return false;
    }
    let mut k: usize = 0;
    while k < n
        invariant
            n == word@.len(),
            end - start == n,
            start <= end <= src.len(),
            k <= n,
            forall|m: int| 0 <= m < k ==> src@[start + m] == word@[m],
        decreases n - k,
    {
        if src[start + k] != word.get_char(k) {
            proof {
                assert(src@.subrange(start as int, end as int)[k as int] != word@[k as int]);
            }
            return false;
        }
        k = k + 1;
    }
    assert(src@.subrange(start as int, end as int) =~= word@);
    true
}

fn match_keyword(src: &Vec<char>, start: usize, end: usize) -> (r: Option<TokenType>)
    requires
        start <= end <= src.len(),
    ensures
        r == keyword_kind(src@.subrange(start as int, end as int)),
{
    if text_is(src, start, end, "and") {
        Some(TokenType::And)
    } else if text_is(src, start, end, "class") {
        Some(TokenType::Class)
    } else if text_is(src, start, end, "else") {
        Some(TokenType::Else)
    } else if text_is(src, start, end, "false") {
        Some(TokenType::False)
    } else if text_is(src, start, end, "for") {
        Some(TokenType::For)
    } else if text_is(src, start, end, "fun") {
        Some(TokenType::Fun)
    } else if text_is(src, start, end, "if") {
        Some(TokenType::If)
    } else if text_is(src, start, end, "nil") {
        Some(TokenType::Nil)
    } else if text_is(src, start, end, "or") {
        Some(TokenType::Or)
    } else if text_is(src, start, end, "print") {
        Some(TokenType::Print)
    } else if text_is(src, start, end, "return") {
        Some(TokenType::Return)
    } else if text_is(src, start, end, "super") {
        Some(TokenType::Super)
    } else if text_is(src, start, end, "this") {
        Some(TokenType::This)
    } else if text_is(src, start, end, "true") {
        Some(TokenType::True)
    } else if text_is(src, start, end, "var") {
        Some(TokenType::Var)
    } else if text_is(src, start, end, "while") {
        Some(TokenType::While)
    } else {
        None
    }
}

fn single_char_token(c: char) -> (r: Option<TokenType>)
    ensures
        r == single_char_kind(c),
{
    if c == '(' {
        Some(TokenType::LeftParen)
    } else if c == ')' {
        Some(TokenType::RightParen)
    } else if c == '{' {
        Some(TokenType::LeftBrace)
    } else if c == '}' {
        Some(TokenType::RightBrace)
    } else if c == ',' {
        Some(TokenType::Comma)
    } else if c == '.' {
        Some(TokenType::Dot)
    } else if c == '-' {
        Some(TokenType::Minus)
    } else if c == '+' {
        Some(TokenType::Plus)
    } else if c == ';' {
        Some(TokenType::Semicolon)
    } else if c == '*' {
        Some(TokenType::Star)
    } else {
        None
    }
}

fn equal_prefix_token(c: char, with_equal: bool) -> (r: TokenType)
    ensures
        r == equal_prefix_kind(c, with_equal),
{
    if c == '!' {
        if with_equal { TokenType::BangEqual } else { TokenType::Bang }
    } else if c == '=' {
        if with_equal { TokenType::EqualEqual } else { TokenType::Equal }
    } else if c == '<' {
        if with_equal { TokenType::LessEqual } else { TokenType::Less }
    } else {
        if with_equal { TokenType::GreaterEqual } else { TokenType::Greater }
    }
}

// ---------------------------------------------------------------------------
// The scanner
// ---------------------------------------------------------------------------

pub open spec fn token_views(ts: Seq<Token>) -> Seq<TokenView> {
    ts.map_values(|t: Token| t@)
}

/// Scans a source text into tokens in one forward pass. `current` is the
/// index of the next character to read; `line` and `line_start` describe
/// the line that holds it.
pub struct Scanner {
    pub source: Vec<char>,
    pub tokens: Vec<Token>,
    pub errors: Vec<ScanError>,
    pub current: usize,
    pub line: usize,
    pub line_start: usize,
}

impl Scanner {
    pub open spec fn wf(&self) -> bool {
        &&& self.source.len() < usize::MAX
        &&& self.current <= self.source.len()
        &&& self.line == line_at(self.source@, self.current as int)
        &&& self.line_start == line_start_at(self.source@, self.current as int)
    }

    pub fn new(source: Vec<char>) -> (s: Self)
        requires
            source.len() < usize::MAX,
        ensures
            s.wf(),
            s.source == source,
            s.current == 0,
            s.tokens@ == Seq::<Token>::empty(),
            s.errors@ == Seq::<ScanError>::empty(),
    {
        Scanner {
            source,
            tokens: Vec::new(),
            errors: Vec::new(),
            current: 0,
            line: 1,
            line_start: 0,
        }
    }

    /// Scans the rest of the source. The tokens it produces, the
    /// end-of-input token last, are appended to `tokens`, and the
    /// conditions it meets to `errors`.
    pub fn scan_tokens(&mut self) -> (r: &Vec<Token>)
        requires
            old(self).wf(),
        ensures
            final(self).wf(),
            final(self).source == old(self).source,
            final(self).current == final(self).source.len(),
            token_views(final(self).tokens@) == token_views(old(self).tokens@) + tokens_from(
                old(self).source@,
                old(self).current as int,
            ),
            final(self).errors@ == old(self).errors@ + errors_from(
                old(self).source@,
                old(self).current as int,
            ),
            r@ == final(self).tokens@,
    {
        let ghost src = self.source@;
        let ghost start = self.current as int;
        let ghost toks0 = token_views(self.tokens@);
        let ghost errs0 = self.errors@;
        while self.current < self.source.len()
            invariant
                self.wf(),
                self.source == old(self).source,
                self.source@ == src,
                token_views(self.tokens@) + tokens_from(src, self.current as int) == toks0
                    + tokens_from(src, start),
                self.errors@ + errors_from(src, self.current as int) == errs0 + errors_from(
                    src,
                    start,
                ),
            decreases self.source.len() - self.current,
        {
            let ghost pos = self.current as int;
            let ghost before = token_views(self.tokens@);
            let ghost errs_before = self.errors@;
            proof {
                lemma_step_advances(src, pos);
            }
            self.scan_token();
            proof {
                let s = step(src, pos);
                match s.token {
                    Some(t) => {
                        assert(tokens_from(src, pos) == seq![t] + tokens_from(src, s.next));
                        assert(token_views(self.tokens@) == before.push(t));
                        assert(before.push(t) + tokens_from(src, s.next) =~= before + (seq![t]
                            + tokens_from(src, s.next)));
                    },
                    None => {
                        assert(tokens_from(src, pos) == tokens_from(src, s.next));
                    },
                }
                match s.error {
                    Some(e) => {
                        assert(errors_from(src, pos) == seq![e] + errors_from(src, s.next));
                        assert(errs_before.push(e) + errors_from(src, s.next) =~= errs_before + (
                        seq![e] + errors_from(src, s.next)));
                    },
                    None => {
                        assert(errors_from(src, pos) == errors_from(src, s.next));
                    },
                }
            }
        }
        proof {
            lemma_line_bounds(src, self.current as int);
        }
        let col = self.current - self.line_start + 1;
        let ghost before = token_views(self.tokens@);
        self.tokens.push(Token::new(TokenType::Eof, None, None, self.line, col));
        proof {
            assert(token_views(self.tokens@) =~= before.push(eof_token(src)));
            assert(errors_from(src, self.current as int) =~= Seq::<ScanError>::empty());
            assert(self.errors@ + Seq::<ScanError>::empty() =~= self.errors@);
            assert(before + seq![eof_token(src)] =~= before.push(eof_token(src)));
        }
        &self.tokens
    }

    /// Moves `current` forward to `end`, keeping the line counters in step.
    fn advance_to(&mut self, end: usize)
        requires
            old(self).wf(),
            old(self).current <= end <= old(self).source.len(),
        ensures
            final(self).wf(),
            final(self).current == end,
            final(self).source == old(self).source,
            final(self).tokens == old(self).tokens,
            final(self).errors == old(self).errors,
    {
        while self.current < end
            invariant
                self.wf(),
                self.current <= end <= self.source.len(),
                self.source == old(self).source,
                self.tokens == old(self).tokens,
                self.errors == old(self).errors,
            decreases end - self.current,
        {
            proof {
                lemma_line_bounds(self.source@, self.current + 1);
            }
            if self.source[self.current] == '\n' {
                self.line = self.line + 1;
                self.line_start = self.current + 1;
            }
            self.current = self.current + 1;
        }
    }

    /// Appends the token of kind `kind` that spans `source[start..current]`.
    fn add_token(
        &mut self,
        kind: TokenType,
        start: usize,
        line: usize,
        col: usize,
        literal: Option<Literal>,
    )
        requires
            old(self).wf(),
            start <= old(self).current,
            line == line_at(old(self).source@, start as int),
            col == col_at(old(self).source@, start as int),
        ensures
            final(self).wf(),
            final(self).current == old(self).current,
            final(self).source == old(self).source,
            final(self).errors == old(self).errors,
            token_views(final(self).tokens@) == token_views(old(self).tokens@).push(
                token_at(
                    old(self).source@,
                    kind,
                    start as int,
                    old(self).current as int,
                    opt_literal_view(literal),
                ),
            ),
    {
        let lexeme = substring(&self.source, start, self.current);
        let ghost before = self.tokens@;
        self.tokens.push(Token::new(kind, Some(lexeme), literal, line, col));
        proof {
            assert(token_views(self.tokens@) =~= token_views(before).push(self.tokens@.last()@));
        }
    }

    /// One scanning step at `current`.
    fn scan_token(&mut self)
        requires
            old(self).wf(),
            old(self).current < old(self).source.len(),
        ensures
            final(self).wf(),
            final(self).source == old(self).source,
            final(self).current == step(old(self).source@, old(self).current as int).next,
            match step(old(self).source@, old(self).current as int).token {
                Some(t) => token_views(final(self).tokens@) == token_views(old(self).tokens@).push(
                    t,
                ),
                None => final(self).tokens == old(self).tokens,
            },
            match step(old(self).source@, old(self).current as int).error {
                Some(e) => final(self).errors@ == old(self).errors@.push(e),
                None => final(self).errors == old(self).errors,
            },
    {
        let ghost src = self.source@;
        let start = self.current;
        let n = self.source.len();
        proof {
            lemma_line_bounds(src, start as int);
            lemma_step_advances(src, start as int);
        }
        let line = self.line;
        let col = start - self.line_start + 1;
        let c = self.source[start];
        if let Some(kind) = single_char_token(c) {
            self.advance_to(start + 1);
            self.add_token(kind, start, line, col, None);
        } else if c == '!' || c == '=' || c == '<' || c == '>' {
            let with_equal = start + 1 < n && self.source[start + 1] == '=';
            let kind = equal_prefix_token(c, with_equal);
            if with_equal {
                self.advance_to(start + 2);
            } else {
                self.advance_to(start + 1);
            }
            self.add_token(kind, start, line, col, None);
        } else if c == '/' {
            if start + 1 < n && self.source[start + 1] == '/' {
                let end = find_comment_end(&self.source, start + 2);
                self.advance_to(end);
            } else {
                self.advance_to(start + 1);
                self.add_token(TokenType::Slash, start, line, col, None);
            }
        } else if c == ' ' || c == '\r' || c == '\t' || c == '\n' {
            self.advance_to(start + 1);
        } else if c == '"' {
            let close = find_string_close(&self.source, start + 1);
            proof {
                lemma_string_close(src, start + 1);
            }
            if close < n {
                let text = substring(&self.source, start + 1, close);
                let literal = Literal::new(Some(text), None);
                self.advance_to(close + 1);
                self.add_token(TokenType::String, start, line, col, Some(literal));
            } else {
                self.advance_to(close);
                self.errors.push(ScanError::UnterminatedString { line: self.line });
            }
        } else if '0' <= c && c <= '9' {
            let end = find_number_end(&self.source, start);
            let digits = substring(&self.source, start, end);
            let literal = Literal::new(None, Some(digits));
            self.advance_to(end);
            self.add_token(TokenType::Number, start, line, col, Some(literal));
        } else if is_alphabetic(c) || c == '_' {
            let end = find_ident_end(&self.source, start + 1);
            let kind = match match_keyword(&self.source, start, end) {
                Some(k) => k,
                None => TokenType::Identifier,
            };
            self.advance_to(end);
            self.add_token(kind, start, line, col, None);
        } else {
            self.errors.push(ScanError::UnexpectedCharacter { line, character: c });
            self.advance_to(start + 1);
        }
    }
}

} // verus!
