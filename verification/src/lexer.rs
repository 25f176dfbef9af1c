//! The scanner, which splits a filter expression into tokens.

use vstd::prelude::*;

use crate::location::Loc;
use crate::operator::{BinaryOperator, LogicalOperator, UnaryOperator};
use crate::token::{hash_run, Token, TokenKind, TokenView};
use crate::unicode::{
    char_is_alphabetic, char_is_alphanumeric, char_is_numeric, is_alphabetic, char_utf8_len, chars_of, is_alphanumeric, is_numeric,
    lemma_utf8_len_of_take_le, lemma_utf8_len_of_take_step, string_of_range, utf8_len,
    utf8_len_of,
};

verus! {

/// An error found while scanning a filter expression.
#[derive(Debug, Clone, Copy, PartialEq, Eq, Structural)]
pub enum LexError {
    /// A single `&` which is not part of `&&`.
    OrphanedAmpersand(Loc),
    /// A single `|` which is not part of `||`.
    OrphanedPipe(Loc),
    /// A single `=` which is not part of `==`.
    OrphanedEquals(Loc),
    /// A string starting at the location which has no closing quote.
    UnterminatedString(Loc),
    /// A raw string starting at the location which has no closing quote.
    UnterminatedRawString(Loc),
}

/// Where the scanner stands: the index of the next character, the current
/// 1-based line, and the byte offset at which that line starts.
pub struct ScanState {
    pub pos: int,
    pub line: int,
    pub line_start: int,
}

/// The outcome of one scanning step and the state after it.
pub type ScanStep = (Option<Result<TokenView, LexError>>, ScanState);

/// The byte offset of the character at index `i` in the UTF-8 encoding of `src`.
pub open spec fn byte_offset(src: Seq<char>, i: int) -> int {
    utf8_len_of(src.take(i)) as int
}

/// The location of the character at byte offset `byte`, on the current line.
pub open spec fn loc_of(st: ScanState, byte: int) -> Loc {
    Loc { line: st.line as usize, column: (1 + byte - st.line_start) as usize }
}

/// A token without text of its own.
pub open spec fn plain(kind: TokenKind, loc: Loc) -> TokenView {
    TokenView { kind, loc, text: Seq::empty() }
}

/// Characters which may continue an identifier.
pub open spec fn is_ident_char(c: char) -> bool {
    char_is_alphanumeric(c) || c == '_' || c == '.' || c == '-'
}

/// The index of the first character at or after `i` which is not numeric
/// (a line break never is).
pub open spec fn numeric_end(src: Seq<char>, i: int) -> int
    decreases src.len() - i,
{
    if 0 <= i < src.len() && char_is_numeric(src[i]) && src[i] != '\n' {
        numeric_end(src, i + 1)
    } else {
        i
    }
}

/// The index of the first character at or after `i` which cannot continue an
/// identifier (a line break never can).
pub open spec fn ident_end(src: Seq<char>, i: int) -> int
    decreases src.len() - i,
{
    if 0 <= i < src.len() && is_ident_char(src[i]) && src[i] != '\n' {
        ident_end(src, i + 1)
    } else {
        i
    }
}

/// The end of a number starting at `i`: a run of numeric characters,
/// followed by a `.` and a second run when a numeric character follows the `.`.
pub open spec fn number_end(src: Seq<char>, i: int) -> int {
    let e = numeric_end(src, i + 1);
    if e + 1 < src.len() && src[e] == '.' && char_is_numeric(src[e + 1]) {
        numeric_end(src, e + 1)
    } else {
        e
    }
}

/// The kind of token an identifier stands for: a reserved word, or a property.
pub open spec fn keyword_kind(text: Seq<char>) -> TokenKind {
    if text == "false"@ {
        TokenKind::False
    } else if text == "null"@ {
        TokenKind::Null
    } else if text == "true"@ {
        TokenKind::True
    } else if text == "contains"@ {
        TokenKind::Contains
    } else if text == "contains_cs"@ {
        TokenKind::ContainsCs
    } else if text == "in"@ {
        TokenKind::In
    } else if text == "in_cs"@ {
        TokenKind::InCs
    } else if text == "startswith"@ {
        TokenKind::StartsWith
    } else if text == "startswith_cs"@ {
        TokenKind::StartsWithCs
    } else if text == "endswith"@ {
        TokenKind::EndsWith
    } else if text == "endswith_cs"@ {
        TokenKind::EndsWithCs
    } else if text == "like"@ {
        TokenKind::Like
    } else if text == "like_cs"@ {
        TokenKind::LikeCs
    } else if text == "matches"@ {
        TokenKind::Matches
    } else {
        TokenKind::Property
    }
}

/// Scans the body of a string literal from index `i` (just after the opening
/// quote for plain strings, after `r`, the `#`s and `"` for raw ones) to its
/// closing quote, which for a raw string opened with `hashes` `#`s must be
/// followed by that many `#`s (plain strings pass 0). In plain strings a
/// backslash directly before a quote keeps the quote in the string; raw
/// strings have no escapes. Line breaks inside the string advance the line.
pub open spec fn scan_string(
    src: Seq<char>,
    i: int,
    line: int,
    line_start: int,
    start_loc: Loc,
    content_start: int,
    raw: bool,
    hashes: nat,
) -> ScanStep
    decreases src.len() - i,
{
    if i < 0 || i >= src.len() {
        (
            Some(
                Err(
                    if raw {
                        LexError::UnterminatedRawString(start_loc)
                    } else {
                        LexError::UnterminatedString(start_loc)
                    },
                ),
            ),
            ScanState { pos: src.len() as int, line, line_start },
        )
    } else if src[i] == '\n' {
        scan_string(src, i + 1, line + 1, byte_offset(src, i) + 1, start_loc, content_start, raw, hashes)
    } else if src[i] == '"' && hash_run(src, i + 1) >= hashes {
        (
            Some(
                Ok(
                    TokenView {
                        kind: if raw {
                            TokenKind::RawString
                        } else {
                            TokenKind::String
                        },
                        loc: start_loc,
                        text: src.subrange(content_start, i),
                    },
                ),
            ),
            ScanState { pos: i + 1 + hashes, line, line_start },
        )
    } else if !raw && src[i] == '\\' && i + 1 < src.len() && src[i + 1] == '"' {
        scan_string(src, i + 2, line, line_start, start_loc, content_start, raw, hashes)
    } else {
        scan_string(src, i + 1, line, line_start, start_loc, content_start, raw, hashes)
    }
}

/// The index of the first character at or after `i` which is not alphabetic
/// (a line break never is).
pub open spec fn alpha_end(src: Seq<char>, i: int) -> int
    decreases src.len() - i,
{
    if 0 <= i < src.len() && char_is_alphabetic(src[i]) && src[i] != '\n' {
        alpha_end(src, i + 1)
    } else {
        i
    }
}

/// Whether the character at `i` starts a duration unit: it is alphabetic.
pub open spec fn unit_at(src: Seq<char>, i: int) -> bool {
    0 <= i < src.len() && char_is_alphabetic(src[i]) && src[i] != '\n'
}

/// Whether the character at `i` starts a number: it is numeric.
pub open spec fn digit_at(src: Seq<char>, i: int) -> bool {
    0 <= i < src.len() && char_is_numeric(src[i]) && src[i] != '\n'
}

/// The end of the rest of a duration literal whose unit starts at `j`: the
/// run of unit letters, then, while a number follows, that number and its
/// own unit letters.
pub open spec fn duration_end(src: Seq<char>, j: int) -> int
    decreases src.len() - j,
{
    let u = alpha_end(src, j);
    if 0 <= j < u && digit_at(src, u) {
        let n = number_end(src, u);
        proof {
            lemma_alpha_run(src, j);
            lemma_number_run(src, u);
        }
        if unit_at(src, n) {
            duration_end(src, n)
        } else {
            n
        }
    } else {
        u
    }
}

/// Every character of a run of unit letters is not a line break.
pub proof fn lemma_alpha_run(src: Seq<char>, i: int)
    requires
        0 <= i <= src.len(),
    ensures
        i <= alpha_end(src, i) <= src.len(),
        unit_at(src, i) ==> i < alpha_end(src, i),
        forall|k: int| i <= k < alpha_end(src, i) ==> #[trigger] src[k] != '\n',
    decreases src.len() - i,
{
    if i < src.len() && char_is_alphabetic(src[i]) && src[i] != '\n' {
        lemma_alpha_run(src, i + 1);
    }
}

/// A number starting on a numeric character ends after it, within the
/// input, and holds no line break.
pub proof fn lemma_number_run(src: Seq<char>, i: int)
    requires
        digit_at(src, i),
    ensures
        i < number_end(src, i) <= src.len(),
        forall|k: int| i <= k < number_end(src, i) ==> #[trigger] src[k] != '\n',
{
    lemma_numeric_run(src, i + 1);
    let e = numeric_end(src, i + 1);
    if e + 1 < src.len() && src[e] == '.' && char_is_numeric(src[e + 1]) {
        lemma_numeric_run(src, e + 1);
    }
}

/// The rest of a duration literal ends after its first unit letter, within
/// the input, and holds no line break.
pub proof fn lemma_duration_run(src: Seq<char>, j: int)
    requires
        unit_at(src, j),
    ensures
        j < duration_end(src, j) <= src.len(),
        forall|k: int| j <= k < duration_end(src, j) ==> #[trigger] src[k] != '\n',
    decreases src.len() - j,
{
    lemma_alpha_run(src, j);
    let u = alpha_end(src, j);
    if 0 <= j < u && digit_at(src, u) {
        lemma_number_run(src, u);
        let n = number_end(src, u);
        if unit_at(src, n) {
            lemma_duration_run(src, n);
        }
    }
}

/// Whether the character after index `i` is `d`.
pub open spec fn followed_by(src: Seq<char>, i: int, d: char) -> bool {
    i + 1 < src.len() && src[i + 1] == d
}

/// One scanning step: skips spaces, tabs and line breaks, then reads one
/// token (or finds one error), returning `None` at the end of the input.
pub open spec fn scan_next(src: Seq<char>, st: ScanState) -> ScanStep
    decreases src.len() - st.pos,
{
    if st.pos < 0 || st.pos >= src.len() {
        (None, st)
    } else {
        let i = st.pos;
        let c = src[i];
        let b = byte_offset(src, i);
        let loc = loc_of(st, b);
        let adv1 = ScanState { pos: i + 1, line: st.line, line_start: st.line_start };
        let adv2 = ScanState { pos: i + 2, line: st.line, line_start: st.line_start };
        if c == ' ' || c == '\t' {
            scan_next(src, adv1)
        } else if c == '\n' {
            scan_next(src, ScanState { pos: i + 1, line: st.line + 1, line_start: b + 1 })
        } else if c == '(' {
            (Some(Ok(plain(TokenKind::LeftParen, loc))), adv1)
        } else if c == ')' {
            (Some(Ok(plain(TokenKind::RightParen, loc))), adv1)
        } else if c == '[' {
            (Some(Ok(plain(TokenKind::LeftBracket, loc))), adv1)
        } else if c == ']' {
            (Some(Ok(plain(TokenKind::RightBracket, loc))), adv1)
        } else if c == ',' {
            (Some(Ok(plain(TokenKind::Comma, loc))), adv1)
        } else if c == '+' {
            (Some(Ok(plain(TokenKind::Plus, loc))), adv1)
        } else if c == '-' {
            (Some(Ok(plain(TokenKind::Minus, loc))), adv1)
        } else if c == '&' {
            if followed_by(src, i, '&') {
                (Some(Ok(plain(TokenKind::And, loc))), adv2)
            } else {
                (Some(Err(LexError::OrphanedAmpersand(loc))), adv1)
            }
        } else if c == '|' {
            if followed_by(src, i, '|') {
                (Some(Ok(plain(TokenKind::Or, loc))), adv2)
            } else {
                (Some(Err(LexError::OrphanedPipe(loc))), adv1)
            }
        } else if c == '=' {
            if followed_by(src, i, '=') {
                (Some(Ok(plain(TokenKind::Equals, loc))), adv2)
            } else {
                (Some(Err(LexError::OrphanedEquals(loc))), adv1)
            }
        } else if c == '!' {
            if followed_by(src, i, '=') {
                (Some(Ok(plain(TokenKind::NotEquals, loc))), adv2)
            } else {
                (Some(Ok(plain(TokenKind::Not, loc))), adv1)
            }
        } else if c == '>' {
            if followed_by(src, i, '=') {
                (Some(Ok(plain(TokenKind::GreaterEqual, loc))), adv2)
            } else {
                (Some(Ok(plain(TokenKind::GreaterThan, loc))), adv1)
            }
        } else if c == '<' {
            if followed_by(src, i, '=') {
                (Some(Ok(plain(TokenKind::SmallerEqual, loc))), adv2)
            } else {
                (Some(Ok(plain(TokenKind::SmallerThan, loc))), adv1)
            }
        } else if c == '"' {
            scan_string(src, i + 1, st.line, st.line_start, loc, i + 1, false, 0)
        } else if c == 'r' && followed_by(src, i + hash_run(src, i + 1), '"') {
            let h = hash_run(src, i + 1);
            scan_string(src, i + 2 + h, st.line, st.line_start, loc, i + 2 + h, true, h)
        } else if char_is_numeric(c) {
            let e = number_end(src, i);
            if unit_at(src, e) {
                let d = duration_end(src, e);
                (
                    Some(Ok(TokenView { kind: TokenKind::Duration, loc, text: src.subrange(i, d) })),
                    ScanState { pos: d, line: st.line, line_start: st.line_start },
                )
            } else {
                (
                    Some(Ok(TokenView { kind: TokenKind::Number, loc, text: src.subrange(i, e) })),
                    ScanState { pos: e, line: st.line, line_start: st.line_start },
                )
            }
        } else {
            let e = ident_end(src, i + 1);
            let text = src.subrange(i, e);
            let kind = keyword_kind(text);
            (
                Some(
                    Ok(
                        TokenView {
                            kind,
                            loc,
                            text: if kind == TokenKind::Property {
                                text
                            } else {
                                Seq::empty()
                            },
                        },
                    ),
                ),
                ScanState { pos: e, line: st.line, line_start: st.line_start },
            )
        }
    }
}

/// All tokens of `src` from state `st` on, up to the end of the input or the
/// first error (which is returned alongside the tokens before it).
pub open spec fn scan_all(src: Seq<char>, st: ScanState) -> (Seq<TokenView>, Option<LexError>)
    decreases src.len() - st.pos,
{
    let (r, next) = scan_next(src, st);
    match r {
        None => (Seq::empty(), None),
        Some(Err(e)) => (Seq::empty(), Some(e)),
        Some(Ok(t)) => if st.pos < next.pos <= src.len() {
            let (rest, e) = scan_all(src, next);
            (seq![t] + rest, e)
        } else {
            (seq![t], None)
        },
    }
}

/// The state at the start of a filter expression.
pub open spec fn initial_state() -> ScanState {
    ScanState { pos: 0, line: 1, line_start: 0 }
}

/// The view of one scanner result.
pub open spec fn result_view(r: Option<Result<Token, LexError>>) -> Option<Result<TokenView, LexError>> {
    match r {
        None => None,
        Some(Ok(t)) => Some(Ok(t@)),
        Some(Err(e)) => Some(Err(e)),
    }
}

/// The scanner's position in its input.
#[derive(Clone, Copy)]
struct Cursor {
    pos: usize,
    byte: usize,
    line: usize,
    line_start: usize,
}

impl Cursor {
    spec fn state(self) -> ScanState {
        ScanState { pos: self.pos as int, line: self.line as int, line_start: self.line_start as int }
    }
}

/// The cursor stands within `src`, at the byte offset of its position, on a
/// line starting no later than that, and every offset fits in a `usize`.
spec fn cursor_ok(src: Seq<char>, c: Cursor) -> bool {
    &&& c.pos <= src.len()
    &&& c.byte == byte_offset(src, c.pos as int)
    &&& c.line_start <= c.byte
    &&& 1 <= c.line <= c.byte + 1
    &&& utf8_len_of(src) < usize::MAX
}

/// A scanner which reads a filter expression one token at a time.
pub struct Scanner {
    chars: Vec<char>,
    cursor: Cursor,
}

/// Moves the cursor past one character which is not a line break.
fn advance(chars: &Vec<char>, c: Cursor) -> (d: Cursor)
    requires
        cursor_ok(chars@, c),
        c.pos < chars.len(),
        chars@[c.pos as int] != '\n',
    ensures
        cursor_ok(chars@, d),
        d.state() == (ScanState { pos: c.pos + 1, line: c.line as int, line_start: c.line_start as int }),
{
    proof {
        lemma_utf8_len_of_take_step(chars@, c.pos as int);
        lemma_utf8_len_of_take_le(chars@, c.pos + 1);
    }
    Cursor { pos: c.pos + 1, byte: c.byte + char_utf8_len(chars[c.pos]), line: c.line, line_start: c.line_start }
}

/// Moves the cursor past a line break.
fn advance_line(chars: &Vec<char>, c: Cursor) -> (d: Cursor)
    requires
        cursor_ok(chars@, c),
        c.pos < chars.len(),
        chars@[c.pos as int] == '\n',
    ensures
        cursor_ok(chars@, d),
        d.state() == (ScanState { pos: c.pos + 1, line: c.line + 1, line_start: c.byte + 1 }),
{
    proof {
        lemma_utf8_len_of_take_step(chars@, c.pos as int);
        lemma_utf8_len_of_take_le(chars@, c.pos + 1);
    }
    Cursor { pos: c.pos + 1, byte: c.byte + 1, line: c.line + 1, line_start: c.byte + 1 }
}

/// The location of the character under the cursor.
fn location_at(chars: &Vec<char>, c: Cursor) -> (l: Loc)
    requires
        cursor_ok(chars@, c),
    ensures
        l == loc_of(c.state(), c.byte as int),
{
    proof {
        lemma_utf8_len_of_take_le(chars@, c.pos as int);
    }
    Loc::new(c.line, 1 + (c.byte - c.line_start))
}

/// Whether the character after the cursor is `d`.
fn next_is(chars: &Vec<char>, c: Cursor, d: char) -> (r: bool)
    requires
        cursor_ok(chars@, c),
    ensures
        r == followed_by(chars@, c.pos as int, d),
{
    chars.len() > 0 && c.pos < chars.len() - 1 && chars[c.pos + 1] == d
}

/// The number of consecutive `#` characters from index `p` (see [`hash_run`]).
fn hash_count(chars: &Vec<char>, p: usize) -> (h: usize)
    requires
        p <= chars.len(),
    ensures
        h == hash_run(chars@, p as int),
        p + h <= chars.len(),
{
    let mut h: usize = 0;
    while p + h < chars.len() && chars[p + h] == '#'
        invariant
            p + h <= chars.len(),
            hash_run(chars@, p as int) == h + hash_run(chars@, (p + h) as int),
        decreases chars.len() - (p + h),
    {
        h += 1;
    }
    h
}

/// Whether at least `n` `#` characters follow from index `p`.
fn hashes_follow(chars: &Vec<char>, p: usize, n: usize) -> (r: bool)
    requires
        p <= chars.len(),
    ensures
        r == (hash_run(chars@, p as int) >= n),
{
    let mut k: usize = 0;
    while k < n && p + k < chars.len() && chars[p + k] == '#'
        invariant
            k <= n,
            p + k <= chars.len(),
            hash_run(chars@, p as int) == k + hash_run(chars@, (p + k) as int),
        decreases n - k,
    {
        k += 1;
    }
    k == n
}

/// The characters of a run of `#` are not line breaks.
proof fn lemma_hash_run(s: Seq<char>, i: int, k: int)
    requires
        0 <= i <= s.len(),
        0 <= k <= hash_run(s, i),
    ensures
        i + k <= s.len(),
        forall|j: int| i <= j < i + k ==> #[trigger] s[j] == '#',
    decreases k,
{
    if k > 0 {
        lemma_hash_run(s, i + 1, k - 1);
    }
}

/// Moves the cursor past `n` characters none of which is a line break.
fn advance_by(chars: &Vec<char>, c: Cursor, n: usize) -> (d: Cursor)
    requires
        cursor_ok(chars@, c),
        c.pos + n <= chars.len(),
        forall|j: int| c.pos <= j < c.pos + n ==> #[trigger] chars@[j] != '\n',
    ensures
        cursor_ok(chars@, d),
        d.state() == (ScanState { pos: c.pos + n, line: c.line as int, line_start: c.line_start as int }),
{
    let mut d = c;
    let mut k: usize = 0;
    while k < n
        invariant
            k <= n,
            c.pos + n <= chars.len(),
            forall|j: int| c.pos <= j < c.pos + n ==> #[trigger] chars@[j] != '\n',
            cursor_ok(chars@, d),
            d.state() == (ScanState { pos: c.pos + k, line: c.line as int, line_start: c.line_start as int }),
        decreases n - k,
    {
        assert(chars@[c.pos + k] != '\n');
        d = advance(chars, d);
        k += 1;
    }
    d
}

/// Scans the body of a string literal (see [`scan_string`]).
fn read_string(chars: &Vec<char>, c: Cursor, start_loc: Loc, content_start: usize, raw: bool, hashes: usize) -> (r: (Result<Token, LexError>, Cursor))
    requires
        cursor_ok(chars@, c),
        content_start <= c.pos,
    ensures
        cursor_ok(chars@, r.1),
        c.pos <= r.1.pos,
        (Some(match r.0 { Ok(t) => Ok(t@), Err(e) => Err(e) }), r.1.state()) == scan_string(
            chars@,
            c.pos as int,
            c.line as int,
            c.line_start as int,
            start_loc,
            content_start as int,
            raw,
            hashes as nat,
        ),
    decreases chars.len() - c.pos,
{
    let mut cur = c;
    loop
        invariant
            cursor_ok(chars@, cur),
            content_start <= cur.pos,
            c.pos <= cur.pos,
            scan_string(chars@, c.pos as int, c.line as int, c.line_start as int, start_loc, content_start as int, raw, hashes as nat)
                == scan_string(chars@, cur.pos as int, cur.line as int, cur.line_start as int, start_loc, content_start as int, raw, hashes as nat),
        decreases chars.len() - cur.pos,
    {
        if cur.pos >= chars.len() {
            let e = if raw {
                LexError::UnterminatedRawString(start_loc)
            } else {
                LexError::UnterminatedString(start_loc)
            };
            return (Err(e), cur);
        }
        let ch = chars[cur.pos];
        if ch == '\n' {
            cur = advance_line(chars, cur);
        } else if ch == '"' && hashes_follow(chars, cur.pos + 1, hashes) {
            let text = string_of_range(chars, content_start, cur.pos);
            let t = if raw {
                Token::RawString(start_loc, text)
            } else {
                Token::String(start_loc, text)
            };
            proof {
                lemma_hash_run(chars@, cur.pos + 1, hashes as int);
            }
            let next = advance_by(chars, cur, hashes + 1);
            return (Ok(t), next);
        } else if !raw && ch == '\\' && next_is(chars, cur, '"') {
            let mid = advance(chars, cur);
            cur = advance(chars, mid);
        } else {
            cur = advance(chars, cur);
        }
    }
}

/// Advances the cursor past the numeric characters under it.
fn skip_numeric(chars: &Vec<char>, c: Cursor) -> (d: Cursor)
    requires
        cursor_ok(chars@, c),
    ensures
        cursor_ok(chars@, d),
        c.pos <= d.pos,
        d.state() == (ScanState { pos: numeric_end(chars@, c.pos as int), line: c.line as int, line_start: c.line_start as int }),
{
    let mut cur = c;
    while cur.pos < chars.len() && is_numeric(chars[cur.pos])
        invariant
            cursor_ok(chars@, cur),
            c.pos <= cur.pos,
            cur.line == c.line,
            cur.line_start == c.line_start,
            numeric_end(chars@, c.pos as int) == numeric_end(chars@, cur.pos as int),
        decreases chars.len() - cur.pos,
    {
        cur = advance(chars, cur);
    }
    cur
}

/// Advances the cursor past the number starting under it (see [`number_end`]).
fn skip_number(chars: &Vec<char>, c: Cursor) -> (d: Cursor)
    requires
        cursor_ok(chars@, c),
        digit_at(chars@, c.pos as int),
    ensures
        cursor_ok(chars@, d),
        d.state() == (ScanState { pos: number_end(chars@, c.pos as int), line: c.line as int, line_start: c.line_start as int }),
{
    let adv1 = advance(chars, c);
    let mut end = skip_numeric(chars, adv1);
    if end.pos < chars.len() && chars[end.pos] == '.' && end.pos + 1 < chars.len() && is_numeric(chars[end.pos + 1]) {
        let dot = advance(chars, end);
        end = skip_numeric(chars, dot);
    }
    end
}

/// Advances the cursor past the unit letters under it (see [`alpha_end`]).
fn skip_alpha(chars: &Vec<char>, c: Cursor) -> (d: Cursor)
    requires
        cursor_ok(chars@, c),
    ensures
        cursor_ok(chars@, d),
        d.state() == (ScanState { pos: alpha_end(chars@, c.pos as int), line: c.line as int, line_start: c.line_start as int }),
{
    let mut cur = c;
    while cur.pos < chars.len() && is_alphabetic(chars[cur.pos])
        invariant
            cursor_ok(chars@, cur),
            c.pos <= cur.pos,
            cur.line == c.line,
            cur.line_start == c.line_start,
            alpha_end(chars@, c.pos as int) == alpha_end(chars@, cur.pos as int),
        decreases chars.len() - cur.pos,
    {
        cur = advance(chars, cur);
    }
    cur
}

/// Advances the cursor past the rest of a duration literal whose unit
/// starts under it (see [`duration_end`]).
fn skip_duration(chars: &Vec<char>, c: Cursor) -> (d: Cursor)
    requires
        cursor_ok(chars@, c),
        unit_at(chars@, c.pos as int),
    ensures
        cursor_ok(chars@, d),
        d.state() == (ScanState { pos: duration_end(chars@, c.pos as int), line: c.line as int, line_start: c.line_start as int }),
{
    let mut cur = c;
    loop
        invariant
            cursor_ok(chars@, cur),
            unit_at(chars@, cur.pos as int),
            cur.line == c.line,
            cur.line_start == c.line_start,
            duration_end(chars@, c.pos as int) == duration_end(chars@, cur.pos as int),
        decreases chars.len() - cur.pos,
    {
        let u = skip_alpha(chars, cur);
        proof {
            lemma_alpha_run(chars@, cur.pos as int);
        }
        if u.pos < chars.len() && is_numeric(chars[u.pos]) {
            let n = skip_number(chars, u);
            proof {
                lemma_number_run(chars@, u.pos as int);
            }
            if n.pos < chars.len() && is_alphabetic(chars[n.pos]) {
                cur = n;
            } else {
                return n;
            }
        } else {
            return u;
        }
    }
}

/// Whether `c` may continue an identifier.
fn ident_char(c: char) -> (r: bool)
    ensures
        r == is_ident_char(c),
        c == '\n' ==> !r,
{
    is_alphanumeric(c) || c == '_' || c == '.' || c == '-'
}

/// Advances the cursor past the identifier characters under it.
fn skip_ident(chars: &Vec<char>, c: Cursor) -> (d: Cursor)
    requires
        cursor_ok(chars@, c),
    ensures
        cursor_ok(chars@, d),
        c.pos <= d.pos,
        d.state() == (ScanState { pos: ident_end(chars@, c.pos as int), line: c.line as int, line_start: c.line_start as int }),
{
    let mut cur = c;
    while cur.pos < chars.len() && ident_char(chars[cur.pos])
        invariant
            cursor_ok(chars@, cur),
            c.pos <= cur.pos,
            cur.line == c.line,
            cur.line_start == c.line_start,
            ident_end(chars@, c.pos as int) == ident_end(chars@, cur.pos as int),
        decreases chars.len() - cur.pos,
    {
        cur = advance(chars, cur);
    }
    cur
}

/// Whether the characters `chars[from..to)` spell `word`.
fn spells(chars: &Vec<char>, from: usize, to: usize, word: &str) -> (r: bool)
    requires
        from <= to <= chars.len(),
    ensures
        r == (chars@.subrange(from as int, to as int) == word@),
{
    let w = chars_of(word);
    if w.len() != to - from {
        return false;
    }
    let mut i: usize = 0;
    while i < w.len()
        invariant
            0 <= i <= w.len(),
            w@ == word@,
            w.len() == to - from,
            from <= to <= chars.len(),
            forall|k: int| 0 <= k < i ==> w@[k] == chars@[from + k],
        decreases w.len() - i,
    {
        if w[i] != chars[from + i] {
            proof {
                assert(chars@.subrange(from as int, to as int)[i as int] == chars@[from + i]);
                assert(chars@.subrange(from as int, to as int)[i as int] != w@[i as int]);
                assert(chars@.subrange(from as int, to as int) != w@);
            }
            return false;
        }
        i += 1;
    }
    proof {
        assert(chars@.subrange(from as int, to as int) =~= w@);
    }
    true
}

/// The token for the identifier `chars[from..to)`: a reserved word, or a property.
fn identifier_token(chars: &Vec<char>, from: usize, to: usize, loc: Loc) -> (t: Token)
    requires
        from <= to <= chars.len(),
    ensures
        ({
            let text = chars@.subrange(from as int, to as int);
            let kind = keyword_kind(text);
            t@ == TokenView { kind, loc, text: if kind == TokenKind::Property { text } else { Seq::empty() } }
        }),
{
    if spells(chars, from, to, "false") {
        Token::False(loc)
    } else if spells(chars, from, to, "null") {
        Token::Null(loc)
    } else if spells(chars, from, to, "true") {
        Token::True(loc)
    } else if spells(chars, from, to, "contains") {
        Token::Contains(loc)
    } else if spells(chars, from, to, "contains_cs") {
        Token::ContainsCs(loc)
    } else if spells(chars, from, to, "in") {
        Token::In(loc)
    } else if spells(chars, from, to, "in_cs") {
        Token::InCs(loc)
    } else if spells(chars, from, to, "startswith") {
        Token::StartsWith(loc)
    } else if spells(chars, from, to, "startswith_cs") {
        Token::StartsWithCs(loc)
    } else if spells(chars, from, to, "endswith") {
        Token::EndsWith(loc)
    } else if spells(chars, from, to, "endswith_cs") {
        Token::EndsWithCs(loc)
    } else if spells(chars, from, to, "like") {
        Token::Like(loc)
    } else if spells(chars, from, to, "like_cs") {
        Token::LikeCs(loc)
    } else if spells(chars, from, to, "matches") {
        Token::Matches(loc)
    } else {
        Token::Property(loc, string_of_range(chars, from, to))
    }
}

/// The view of a token-or-error result.
pub open spec fn token_result_view(r: Result<Token, LexError>) -> Result<TokenView, LexError> {
    match r {
        Ok(t) => Ok(t@),
        Err(e) => Err(e),
    }
}

/// Whether the cursor, on an `r`, opens a raw string: `#`s and then `"` follow.
fn raw_opening(chars: &Vec<char>, c: Cursor) -> (r: bool)
    requires
        cursor_ok(chars@, c),
        c.pos < chars.len(),
    ensures
        r == followed_by(chars@, c.pos + hash_run(chars@, c.pos + 1), '"'),
{
    let h = hash_count(chars, c.pos + 1);
    c.pos + h + 1 < chars.len() && chars[c.pos + h + 1] == '"'
}

/// Reads the token starting at the cursor, whose character `c` is not a
/// space, tab, or line break.
fn scan_token(chars: &Vec<char>, cur: Cursor, c: char, loc: Loc) -> (r: (Result<Token, LexError>, Cursor))
    requires
        cursor_ok(chars@, cur),
        cur.pos < chars.len(),
        c == chars@[cur.pos as int],
        c != ' ' && c != '\t' && c != '\n',
        loc == loc_of(cur.state(), cur.byte as int),
    ensures
        cursor_ok(chars@, r.1),
        cur.pos < r.1.pos,
        (Some(token_result_view(r.0)), r.1.state()) == scan_next(chars@, cur.state()),
{
    let adv1 = advance(chars, cur);
    if c == '(' {
        (Ok(Token::LeftParen(loc)), adv1)
    } else if c == ')' {
        (Ok(Token::RightParen(loc)), adv1)
    } else if c == '[' {
        (Ok(Token::LeftBracket(loc)), adv1)
    } else if c == ']' {
        (Ok(Token::RightBracket(loc)), adv1)
    } else if c == ',' {
        (Ok(Token::Comma(loc)), adv1)
    } else if c == '+' {
        (Ok(Token::Plus(loc)), adv1)
    } else if c == '-' {
        (Ok(Token::Minus(loc)), adv1)
    } else if c == '&' {
        if next_is(chars, cur, '&') {
            (Ok(Token::And(loc)), advance(chars, adv1))
        } else {
            (Err(LexError::OrphanedAmpersand(loc)), adv1)
        }
    } else if c == '|' {
        if next_is(chars, cur, '|') {
            (Ok(Token::Or(loc)), advance(chars, adv1))
        } else {
            (Err(LexError::OrphanedPipe(loc)), adv1)
        }
    } else if c == '=' {
        if next_is(chars, cur, '=') {
            (Ok(Token::Equals(loc)), advance(chars, adv1))
        } else {
            (Err(LexError::OrphanedEquals(loc)), adv1)
        }
    } else if c == '!' {
        if next_is(chars, cur, '=') {
            (Ok(Token::NotEquals(loc)), advance(chars, adv1))
        } else {
            (Ok(Token::Not(loc)), adv1)
        }
    } else if c == '>' {
        if next_is(chars, cur, '=') {
            (Ok(Token::GreaterEqual(loc)), advance(chars, adv1))
        } else {
            (Ok(Token::GreaterThan(loc)), adv1)
        }
    } else if c == '<' {
        if next_is(chars, cur, '=') {
            (Ok(Token::SmallerEqual(loc)), advance(chars, adv1))
        } else {
            (Ok(Token::SmallerThan(loc)), adv1)
        }
    } else if c == '"' {
        read_string(chars, adv1, loc, adv1.pos, false, 0)
    } else if c == 'r' && raw_opening(chars, cur) {
        let h = hash_count(chars, cur.pos + 1);
        proof {
            lemma_hash_run(chars@, cur.pos + 1, h as int);
        }
        let open = advance_by(chars, cur, h + 2);
        read_string(chars, open, loc, open.pos, true, h)
    } else if is_numeric(c) {
        proof {
            lemma_number_run(chars@, cur.pos as int);
        }
        let end = skip_number(chars, cur);
        if end.pos < chars.len() && is_alphabetic(chars[end.pos]) {
            proof {
                lemma_duration_run(chars@, end.pos as int);
            }
            let dur = skip_duration(chars, end);
            let text = string_of_range(chars, cur.pos, dur.pos);
            (Ok(Token::Duration(loc, text)), dur)
        } else {
            let text = string_of_range(chars, cur.pos, end.pos);
            (Ok(Token::Number(loc, text)), end)
        }
    } else {
        let end = skip_ident(chars, adv1);
        (Ok(identifier_token(chars, cur.pos, end.pos, loc)), end)
    }
}

impl Scanner {
    /// The scanner's state is consistent with its input.
    #[verifier::type_invariant]
    spec fn well_formed(self) -> bool {
        cursor_ok(self.chars@, self.cursor)
    }

    /// The characters being scanned.
    pub closed spec fn source(self) -> Seq<char> {
        self.chars@
    }

    /// Where the scanner stands.
    pub closed spec fn state(self) -> ScanState {
        self.cursor.state()
    }

    /// Creates a scanner positioned at the start of `source`. The UTF-8
    /// length of `source` (that is, its `len()`) fits in a `usize`.
    pub fn new(source: &str) -> (s: Self)
        requires
            utf8_len_of(source@) < usize::MAX,
        ensures
            s.source() == source@,
            s.state() == initial_state(),
            s.state().pos <= s.source().len(),
    {
        let chars = chars_of(source);
        proof {
            assert(chars@.take(0) =~= Seq::<char>::empty());
        }
        Scanner { chars, cursor: Cursor { pos: 0, byte: 0, line: 1, line_start: 0 } }
    }

    /// Reads the next token, skipping whitespace; returns `None` at the end
    /// of the input and `Some(Err(..))` where the input holds no valid token.
    pub fn next(&mut self) -> (r: Option<Result<Token, LexError>>)
        ensures
            final(self).source() == old(self).source(),
            final(self).state().pos <= final(self).source().len(),
            r is Some ==> old(self).state().pos < final(self).state().pos,
            (result_view(r), final(self).state()) == scan_next(old(self).source(), old(self).state()),
    {
        proof {
            use_type_invariant(&*self);
        }
        let chars = &self.chars;
        let mut cur = self.cursor;
        let ghost src = chars@;
        let ghost start = cur.state();
        loop
            invariant
                src == chars@,
                chars@ == self.chars@,
                src == old(self).chars@,
                start == old(self).cursor.state(),
                start.pos <= cur.pos,
                cursor_ok(chars@, cur),
                scan_next(src, start) == scan_next(src, cur.state()),
            decreases chars.len() - cur.pos,
        {
            if cur.pos >= chars.len() {
                self.cursor = cur;
                return None;
            }
            let c = chars[cur.pos];
            if c == ' ' || c == '\t' {
                cur = advance(chars, cur);
            } else if c == '\n' {
                cur = advance_line(chars, cur);
            } else {
                let loc = location_at(chars, cur);
                let (r, next) = scan_token(chars, cur, c, loc);
                self.cursor = next;
                return Some(r);
            }
        }
    }
}

/// Scans all of `source`: its tokens up to the end of the input or the first
/// error, and that error if there is one. The UTF-8 length of `source` fits
/// in a `usize`.
pub fn tokenize(source: &str) -> (r: (Vec<Token>, Option<LexError>))
    requires
        utf8_len_of(source@) < usize::MAX,
    ensures
        (r.0@.map_values(|t: Token| t@), r.1) == scan_all(source@, initial_state()),
{
    let mut scanner = Scanner::new(source);
    let ghost src = source@;
    let mut tokens: Vec<Token> = Vec::new();
    loop
        invariant
            src == source@,
            scanner.source() == src,
            scanner.state().pos <= src.len(),
            scan_all(src, initial_state()) == (
                tokens@.map_values(|t: Token| t@) + scan_all(src, scanner.state()).0,
                scan_all(src, scanner.state()).1,
            ),
        decreases src.len() - scanner.state().pos,
    {
        let ghost before = scanner.state();
        let ghost old_tokens = tokens@;
        match scanner.next() {
            None => {
                proof {
                    assert(scan_all(src, before).0 =~= Seq::<TokenView>::empty());
                    assert(scan_all(src, before).1 is None);
                    assert(tokens@.map_values(|t: Token| t@) + Seq::<TokenView>::empty() == tokens@.map_values(|t: Token| t@));
                }
                return (tokens, None);
            },
            Some(Err(e)) => {
                proof {
                    assert(scan_all(src, before).0 =~= Seq::<TokenView>::empty());
                    assert(scan_all(src, before).1 == Some(e));
                    assert(tokens@.map_values(|t: Token| t@) + Seq::<TokenView>::empty() == tokens@.map_values(|t: Token| t@));
                }
                return (tokens, Some(e));
            },
            Some(Ok(t)) => {
                let ghost tv = t@;
                tokens.push(t);
                proof {
                    assert(tokens@.map_values(|t: Token| t@) == old_tokens.map_values(|t: Token| t@).push(tv));
                    assert(seq![tv] + scan_all(src, scanner.state()).0 == scan_all(src, before).0);
                    vstd::seq_lib::lemma_concat_associative(old_tokens.map_values(|t: Token| t@), seq![tv], scan_all(src, scanner.state()).0);
                }
            },
        }
    }
}

/// The 1-based line of the character at index `i`: one more than the number
/// of line breaks before it.
pub open spec fn line_at(src: Seq<char>, i: int) -> int
    decreases i,
{
    if i <= 0 {
        1
    } else {
        line_at(src, i - 1) + if src[i - 1] == '\n' { 1int } else { 0int }
    }
}

/// The byte offset at which the line of the character at index `i` starts:
/// just after the last line break before it, or 0 on the first line.
pub open spec fn line_start_at(src: Seq<char>, i: int) -> int
    decreases i,
{
    if i <= 0 {
        0
    } else if src[i - 1] == '\n' {
        byte_offset(src, i - 1) + 1
    } else {
        line_start_at(src, i - 1)
    }
}

/// The line and column of the character at index `i`, the column counted in
/// bytes from 1 at the start of its line.
pub open spec fn char_location(src: Seq<char>, i: int) -> Loc {
    Loc { line: line_at(src, i) as usize, column: (1 + byte_offset(src, i) - line_start_at(src, i)) as usize }
}

/// The number of line breaks in `s`.
pub open spec fn line_breaks(s: Seq<char>) -> nat {
    s.filter(|c: char| c == '\n').len()
}

/// Whether `j` is the index of the last line break before index `i`.
pub open spec fn last_break_before(src: Seq<char>, j: int, i: int) -> bool {
    0 <= j < i && src[j] == '\n' && forall|m: int| j < m < i ==> src[m] != '\n'
}

/// A character's location counts the line breaks before it: its line is one
/// more than their number, and its line starts one byte after the last of
/// them, or at the start of the text when there is none. Before an index up
/// to which the text is ASCII, bytes and characters coincide, so there the
/// column is the index plus one, less the index just after that last break.
pub proof fn locations_count_line_breaks(src: Seq<char>, i: int)
    requires
        0 <= i <= src.len(),
    ensures
        line_at(src, i) == 1 + line_breaks(src.take(i)),
        (forall|j: int| 0 <= j < i ==> src[j] != '\n') ==> line_start_at(src, i) == 0,
        forall|j: int| #[trigger] last_break_before(src, j, i) ==> line_start_at(src, i) == byte_offset(src, j) + 1,
        (forall|k: int| 0 <= k < i ==> (#[trigger] src[k] as u32) < 0x80) ==> byte_offset(src, i) == i,
    decreases i,
{
    reveal(Seq::filter);
    if i == 0 {
        assert(src.take(0) =~= Seq::<char>::empty());
    } else {
        locations_count_line_breaks(src, i - 1);
        let t = src.take(i);
        assert(t.drop_last() =~= src.take(i - 1));
        assert(t.last() == src[i - 1]);
        assert(line_breaks(t) == line_breaks(src.take(i - 1)) + if src[i - 1] == '\n' { 1int } else { 0int });
        assert forall|j: int| #[trigger] last_break_before(src, j, i) implies line_start_at(src, i) == byte_offset(src, j)
            + 1 by {
            if src[i - 1] != '\n' {
                assert(j != i - 1);
                assert(last_break_before(src, j, i - 1));
            } else {
                if j < i - 1 {
                    assert(src[i - 1] != '\n');
                }
            }
        }
        if forall|k: int| 0 <= k < i ==> (#[trigger] src[k] as u32) < 0x80 {
            assert((src[i - 1] as u32) < 0x80);
            assert(utf8_len_of(t) == utf8_len_of(t.drop_last()) + utf8_len(t.last()));
        }
    }
}

/// The scanner's line and line start are those of its position.
pub open spec fn tracks_lines(src: Seq<char>, st: ScanState) -> bool {
    &&& 0 <= st.pos <= src.len()
    &&& st.line == line_at(src, st.pos)
    &&& st.line_start == line_start_at(src, st.pos)
}

/// Whether `c` is skipped between tokens: a space, a tab or a line break.
pub open spec fn is_blank(c: char) -> bool {
    c == ' ' || c == '\t' || c == '\n'
}

/// The index of the first character at or after `i` which is not skipped
/// between tokens: where the next token (or error) starts.
pub open spec fn token_start(src: Seq<char>, i: int) -> int
    decreases src.len() - i,
{
    if 0 <= i < src.len() && is_blank(src[i]) {
        token_start(src, i + 1)
    } else {
        i
    }
}

/// The location which a token or a scanning error carries.
pub open spec fn outcome_loc(r: Result<TokenView, LexError>) -> Loc {
    match r {
        Ok(t) => t.loc,
        Err(LexError::OrphanedAmpersand(l)) => l,
        Err(LexError::OrphanedPipe(l)) => l,
        Err(LexError::OrphanedEquals(l)) => l,
        Err(LexError::UnterminatedString(l)) => l,
        Err(LexError::UnterminatedRawString(l)) => l,
    }
}

/// Characters without a line break between them leave the line unchanged.
proof fn lemma_no_break(src: Seq<char>, a: int, b: int)
    requires
        0 <= a <= b <= src.len(),
        forall|k: int| a <= k < b ==> #[trigger] src[k] != '\n',
    ensures
        line_at(src, b) == line_at(src, a),
        line_start_at(src, b) == line_start_at(src, a),
    decreases b - a,
{
    if a < b {
        lemma_no_break(src, a, b - 1);
        assert(src[b - 1] != '\n');
    }
}

/// Every character of a numeric run is not a line break.
proof fn lemma_numeric_run(src: Seq<char>, i: int)
    requires
        0 <= i <= src.len(),
    ensures
        i <= numeric_end(src, i) <= src.len(),
        forall|k: int| i <= k < numeric_end(src, i) ==> #[trigger] src[k] != '\n',
    decreases src.len() - i,
{
    if i < src.len() && char_is_numeric(src[i]) && src[i] != '\n' {
        lemma_numeric_run(src, i + 1);
    }
}

/// Every character of an identifier run is not a line break.
proof fn lemma_ident_run(src: Seq<char>, i: int)
    requires
        0 <= i <= src.len(),
    ensures
        i <= ident_end(src, i) <= src.len(),
        forall|k: int| i <= k < ident_end(src, i) ==> #[trigger] src[k] != '\n',
    decreases src.len() - i,
{
    if i < src.len() && is_ident_char(src[i]) && src[i] != '\n' {
        lemma_ident_run(src, i + 1);
    }
}

/// Reading a string keeps track of its line breaks, and its outcome carries
/// the location at which the string started.
proof fn lemma_scan_string_lines(
    src: Seq<char>,
    i: int,
    line: int,
    line_start: int,
    start_loc: Loc,
    content_start: int,
    raw: bool,
    hashes: nat,
)
    requires
        0 <= i <= src.len(),
        line == line_at(src, i),
        line_start == line_start_at(src, i),
    ensures
        tracks_lines(src, scan_string(src, i, line, line_start, start_loc, content_start, raw, hashes).1),
        scan_string(src, i, line, line_start, start_loc, content_start, raw, hashes).0 matches Some(r) && outcome_loc(r)
            == start_loc,
    decreases src.len() - i,
{
    if i < src.len() {
        if src[i] == '\n' {
            lemma_scan_string_lines(src, i + 1, line + 1, byte_offset(src, i) + 1, start_loc, content_start, raw, hashes);
        } else if src[i] == '"' && hash_run(src, i + 1) >= hashes {
            lemma_hash_run(src, i + 1, hashes as int);
            lemma_no_break(src, i, i + 1 + hashes);
        } else if !raw && src[i] == '\\' && i + 1 < src.len() && src[i + 1] == '"' {
            lemma_no_break(src, i, i + 2);
            lemma_scan_string_lines(src, i + 2, line, line_start, start_loc, content_start, raw, hashes);
        } else {
            lemma_no_break(src, i, i + 1);
            lemma_scan_string_lines(src, i + 1, line, line_start, start_loc, content_start, raw, hashes);
        }
    }
}

/// One scanning step keeps the scanner's line and line start in step with its
/// position, and the token or error it finds carries the line and column of
/// the character where it starts: the first character after the spaces, tabs
/// and line breaks at the scanner's position. It finds nothing only when
/// nothing but such characters is left.
pub proof fn scan_step_locates_its_first_character(src: Seq<char>, st: ScanState)
    requires
        tracks_lines(src, st),
    ensures
        tracks_lines(src, scan_next(src, st).1),
        scan_next(src, st).0 matches Some(r) ==> token_start(src, st.pos) < src.len() && outcome_loc(r) == char_location(
            src,
            token_start(src, st.pos),
        ),
        scan_next(src, st).0 is None ==> token_start(src, st.pos) == src.len(),
    decreases src.len() - st.pos,
{
    let i = st.pos;
    if i < src.len() {
        let c = src[i];
        let adv1 = ScanState { pos: i + 1, line: st.line, line_start: st.line_start };
        if c == ' ' || c == '\t' {
            lemma_no_break(src, i, i + 1);
            scan_step_locates_its_first_character(src, adv1);
        } else if c == '\n' {
            scan_step_locates_its_first_character(
                src,
                ScanState { pos: i + 1, line: st.line + 1, line_start: byte_offset(src, i) + 1 },
            );
        } else {
            assert(token_start(src, i) == i);
            lemma_no_break(src, i, i + 1);
            if c == '"' {
                lemma_scan_string_lines(src, i + 1, st.line, st.line_start, loc_of(st, byte_offset(src, i)), i + 1, false, 0);
            } else if c == 'r' && followed_by(src, i + hash_run(src, i + 1), '"') {
                let h = hash_run(src, i + 1);
                lemma_hash_run(src, i + 1, h as int);
                lemma_no_break(src, i, i + 2 + h);
                lemma_scan_string_lines(src, i + 2 + h, st.line, st.line_start, loc_of(st, byte_offset(src, i)), i + 2 + h, true, h);
            } else if (c == '&' || c == '|' || c == '=' || c == '!' || c == '>' || c == '<') && i + 1 < src.len()
                && src[i + 1] != '\n' {
                lemma_no_break(src, i, i + 2);
            } else if char_is_numeric(c) {
                lemma_number_run(src, i);
                let e = number_end(src, i);
                if unit_at(src, e) {
                    lemma_duration_run(src, e);
                    lemma_no_break(src, i, duration_end(src, e));
                } else {
                    lemma_no_break(src, i, e);
                }
            } else {
                lemma_ident_run(src, i + 1);
                lemma_no_break(src, i, ident_end(src, i + 1));
            }
        }
    }
}

/// Every token of a filter expression, and the scanning error which may end
/// them, carries the line and column of a character of the expression which
/// is not a space, a tab or a line break.
pub proof fn scanned_locations_are_characters(src: Seq<char>, st: ScanState)
    requires
        tracks_lines(src, st),
    ensures
        forall|k: int|
            0 <= k < scan_all(src, st).0.len() ==> exists|i: int|
                st.pos <= i < src.len() && !is_blank(src[i]) && (#[trigger] scan_all(src, st).0[k]).loc == char_location(src, i),
        scan_all(src, st).1 matches Some(e) ==> exists|i: int|
            st.pos <= i < src.len() && !is_blank(src[i]) && outcome_loc(Err(e)) == char_location(src, i),
    decreases src.len() - st.pos,
{
    scan_step_locates_its_first_character(src, st);
    lemma_token_start(src, st.pos);
    let (r, next) = scan_next(src, st);
    let j = token_start(src, st.pos);
    match r {
        None => {},
        Some(Err(e)) => {
            assert(!is_blank(src[j]) && outcome_loc(Err(e)) == char_location(src, j));
        },
        Some(Ok(t)) => {
            if st.pos < next.pos <= src.len() {
                scanned_locations_are_characters(src, next);
                let all = scan_all(src, st).0;
                let rest = scan_all(src, next).0;
                assert(all == seq![t] + rest);
                assert forall|k: int| 0 <= k < all.len() implies exists|i: int|
                    st.pos <= i < src.len() && !is_blank(src[i]) && (#[trigger] all[k]).loc == char_location(src, i) by {
                    if k == 0 {
                        assert(t.loc == outcome_loc(Ok(t)));
                        assert(!is_blank(src[j]) && all[0].loc == char_location(src, j));
                    } else {
                        assert(all[k] == rest[k - 1]);
                    }
                }
                if scan_all(src, st).1 is Some {
                    assert(scan_all(src, st).1 == scan_all(src, next).1);
                }
            } else {
                let all = scan_all(src, st).0;
                assert(all == seq![t]);
                assert forall|k: int| 0 <= k < all.len() implies exists|i: int|
                    st.pos <= i < src.len() && !is_blank(src[i]) && (#[trigger] all[k]).loc == char_location(src, i) by {
                    assert(t.loc == outcome_loc(Ok(t)));
                    assert(!is_blank(src[j]) && all[0].loc == char_location(src, j));
                }
            }
        },
    }
}

/// The next token starts at or after `i`, on a character which is not skipped.
proof fn lemma_token_start(src: Seq<char>, i: int)
    requires
        0 <= i <= src.len(),
    ensures
        i <= token_start(src, i) <= src.len(),
        token_start(src, i) < src.len() ==> !is_blank(src[token_start(src, i)]),
    decreases src.len() - i,
{
    if i < src.len() && is_blank(src[i]) {
        lemma_token_start(src, i + 1);
    }
}

/// The scanner starts at the first line, whose first byte is the input's first byte.
pub proof fn scanning_starts_on_the_first_line(src: Seq<char>)
    ensures
        tracks_lines(src, initial_state()),
{
}

/// The characters which start a token of their own: brackets, the comma,
/// the operator characters and the double quote.
pub open spec fn is_punctuation(c: char) -> bool {
    c == '(' || c == ')' || c == '[' || c == ']' || c == ',' || c == '+' || c == '-' || c == '&' || c == '|'
        || c == '=' || c == '!' || c == '>' || c == '<' || c == '"'
}

/// Scanning yields at most one token per character left to read, so a
/// scanner reports the end of its input after at most that many tokens.
pub proof fn scanning_yields_at_most_one_token_per_character(src: Seq<char>, st: ScanState)
    requires
        0 <= st.pos <= src.len(),
    ensures
        scan_all(src, st).0.len() <= src.len() - st.pos,
    decreases src.len() - st.pos,
{
    let (r, next) = scan_next(src, st);
    if r matches Some(Ok(t)) {
        if st.pos < next.pos <= src.len() {
            scanning_yields_at_most_one_token_per_character(src, next);
        }
    }
}

/// A character which is not skipped, no operator, bracket, comma or quote,
/// not numeric and not the `r` of a raw string starts an identifier: the
/// step reads it and the longest run of alphanumeric characters, `_`, `.` and
/// `-` after it, gives the reserved word those spell or else a property of
/// that name, and goes on right after the run.
pub proof fn identifiers_run_to_their_last_character(src: Seq<char>, st: ScanState)
    requires
        0 <= st.pos < src.len(),
        !is_blank(src[st.pos]),
        !is_punctuation(src[st.pos]),
        !(src[st.pos] == 'r' && followed_by(src, st.pos + hash_run(src, st.pos + 1), '"')),
        !char_is_numeric(src[st.pos]),
    ensures
        ({
            let e = ident_end(src, st.pos + 1);
            let w = src.subrange(st.pos, e);
            let kind = keyword_kind(w);
            scan_next(src, st) == (
                Some(Ok::<TokenView, LexError>(TokenView {
                    kind,
                    loc: loc_of(st, byte_offset(src, st.pos)),
                    text: if kind == TokenKind::Property { w } else { Seq::empty() },
                })),
                ScanState { pos: e, line: st.line, line_start: st.line_start },
            )
        }),
{
}

/// A numeric character (other than the characters which start tokens of
/// their own) starts a number: a run of numeric characters, then a
/// `.` and a second run only when a numeric character follows the `.`. When
/// no letter follows the number, the step gives a number token of that text
/// and goes on right after it; a `.` without a numeric character after it is
/// left for the next step.
pub proof fn numbers_take_a_point_only_before_a_digit(src: Seq<char>, st: ScanState)
    requires
        digit_at(src, st.pos),
        !is_blank(src[st.pos]),
        !is_punctuation(src[st.pos]),
        src[st.pos] != 'r',
        !unit_at(src, number_end(src, st.pos)),
    ensures
        ({
            let i = st.pos;
            let e1 = numeric_end(src, i + 1);
            &&& number_end(src, i) == if e1 + 1 < src.len() && src[e1] == '.' && char_is_numeric(src[e1 + 1]) {
                numeric_end(src, e1 + 1)
            } else {
                e1
            }
            &&& forall|k: int| i <= k < e1 ==> char_is_numeric(#[trigger] src[k])
            &&& scan_next(src, st) == (
                Some(Ok::<TokenView, LexError>(TokenView {
                    kind: TokenKind::Number,
                    loc: loc_of(st, byte_offset(src, i)),
                    text: src.subrange(i, number_end(src, i)),
                })),
                ScanState { pos: number_end(src, i), line: st.line, line_start: st.line_start },
            )
        }),
{
    lemma_numeric_digits(src, st.pos + 1);
}

/// Every character of a numeric run is numeric.
proof fn lemma_numeric_digits(src: Seq<char>, i: int)
    requires
        0 <= i <= src.len(),
    ensures
        forall|k: int| i <= k < numeric_end(src, i) ==> char_is_numeric(#[trigger] src[k]),
    decreases src.len() - i,
{
    if i < src.len() && char_is_numeric(src[i]) && src[i] != '\n' {
        lemma_numeric_digits(src, i + 1);
    }
}

/// A numeric character followed, after its number, by a letter starts a
/// duration literal: one token holding the number, its unit letters and
/// every further number with its letters that follows directly.
pub proof fn durations_are_one_token(src: Seq<char>, st: ScanState)
    requires
        digit_at(src, st.pos),
        !is_blank(src[st.pos]),
        !is_punctuation(src[st.pos]),
        src[st.pos] != 'r',
        unit_at(src, number_end(src, st.pos)),
    ensures
        scan_next(src, st) == (
            Some(Ok::<TokenView, LexError>(TokenView {
                kind: TokenKind::Duration,
                loc: loc_of(st, byte_offset(src, st.pos)),
                text: src.subrange(st.pos, duration_end(src, number_end(src, st.pos))),
            })),
            ScanState { pos: duration_end(src, number_end(src, st.pos)), line: st.line, line_start: st.line_start },
        ),
{
}

} // verus!

verus! {

/// The characters of the fixed lexemes of the tokens which carry no text.
proof fn lemma_fixed_lexemes()
    ensures
        "("@ == seq!['('],
        ")"@ == seq![')'],
        "["@ == seq!['['],
        "]"@ == seq![']'],
        ","@ == seq![','],
        "null"@ == seq!['n', 'u', 'l', 'l'],
        "true"@ == seq!['t', 'r', 'u', 'e'],
        "false"@ == seq!['f', 'a', 'l', 's', 'e'],
        "=="@ == seq!['=', '='],
        "!="@ == seq!['!', '='],
        "contains"@ == seq!['c', 'o', 'n', 't', 'a', 'i', 'n', 's'],
        "contains_cs"@ == seq!['c', 'o', 'n', 't', 'a', 'i', 'n', 's', '_', 'c', 's'],
        "in"@ == seq!['i', 'n'],
        "in_cs"@ == seq!['i', 'n', '_', 'c', 's'],
        "startswith"@ == seq!['s', 't', 'a', 'r', 't', 's', 'w', 'i', 't', 'h'],
        "startswith_cs"@ == seq!['s', 't', 'a', 'r', 't', 's', 'w', 'i', 't', 'h', '_', 'c', 's'],
        "endswith"@ == seq!['e', 'n', 'd', 's', 'w', 'i', 't', 'h'],
        "endswith_cs"@ == seq!['e', 'n', 'd', 's', 'w', 'i', 't', 'h', '_', 'c', 's'],
        "like"@ == seq!['l', 'i', 'k', 'e'],
        "like_cs"@ == seq!['l', 'i', 'k', 'e', '_', 'c', 's'],
        "matches"@ == seq!['m', 'a', 't', 'c', 'h', 'e', 's'],
        ">"@ == seq!['>'],
        ">="@ == seq!['>', '='],
        "<"@ == seq!['<'],
        "<="@ == seq!['<', '='],
        "+"@ == seq!['+'],
        "-"@ == seq!['-'],
        "!"@ == seq!['!'],
        "&&"@ == seq!['&', '&'],
        "||"@ == seq!['|', '|'],
{
    reveal_strlit("(");
    reveal_strlit(")");
    reveal_strlit("[");
    reveal_strlit("]");
    reveal_strlit(",");
    reveal_strlit("null");
    reveal_strlit("true");
    reveal_strlit("false");
    reveal_strlit("==");
    reveal_strlit("!=");
    reveal_strlit("contains");
    reveal_strlit("contains_cs");
    reveal_strlit("in");
    reveal_strlit("in_cs");
    reveal_strlit("startswith");
    reveal_strlit("startswith_cs");
    reveal_strlit("endswith");
    reveal_strlit("endswith_cs");
    reveal_strlit("like");
    reveal_strlit("like_cs");
    reveal_strlit("matches");
    reveal_strlit(">");
    reveal_strlit(">=");
    reveal_strlit("<");
    reveal_strlit("<=");
    reveal_strlit("+");
    reveal_strlit("-");
    reveal_strlit("!");
    reveal_strlit("&&");
    reveal_strlit("||");
}

/// A token without text of its own reads back from its lexeme: scanning the
/// lexeme of its kind gives exactly one token, of that kind, at the start of
/// the text, and then the end of the input.
pub proof fn fixed_lexemes_scan_back(k: TokenKind)
    requires
        !k.has_text(),
    ensures
        scan_all(k.fixed_text(), initial_state()) == (
            seq![plain(k, Loc { line: 1, column: 1 })],
            None::<LexError>,
        ),
{
    lemma_fixed_lexemes();
    let w = k.fixed_text();
    let st = initial_state();
    assert(w.take(0) =~= Seq::<char>::empty());
    assert(byte_offset(w, 0) == 0);
    reveal_with_fuel(ident_end, 14);
    let first = (
        Some(Ok::<TokenView, LexError>(plain(k, Loc { line: 1, column: 1 }))),
        ScanState { pos: w.len() as int, line: 1, line_start: 0 },
    );
    match k {
        TokenKind::LeftParen => {
            assert(scan_next(w, st) == first);
        },
        TokenKind::RightParen => {
            assert(scan_next(w, st) == first);
        },
        TokenKind::LeftBracket => {
            assert(scan_next(w, st) == first);
        },
        TokenKind::RightBracket => {
            assert(scan_next(w, st) == first);
        },
        TokenKind::Comma => {
            assert(scan_next(w, st) == first);
        },
        TokenKind::Null => {
            assert(ident_end(w, 1) == w.len());
            assert(w.subrange(0, w.len() as int) =~= w);
            assert(keyword_kind(w) == k);
            assert(scan_next(w, st) == first);
        },
        TokenKind::True => {
            assert(ident_end(w, 1) == w.len());
            assert(w.subrange(0, w.len() as int) =~= w);
            assert(keyword_kind(w) == k);
            assert(scan_next(w, st) == first);
        },
        TokenKind::False => {
            assert(ident_end(w, 1) == w.len());
            assert(w.subrange(0, w.len() as int) =~= w);
            assert(keyword_kind(w) == k);
            assert(scan_next(w, st) == first);
        },
        TokenKind::Equals => {
            assert(scan_next(w, st) == first);
        },
        TokenKind::NotEquals => {
            assert(scan_next(w, st) == first);
        },
        TokenKind::Contains => {
            assert(ident_end(w, 1) == w.len());
            assert(w.subrange(0, w.len() as int) =~= w);
            assert(keyword_kind(w) == k);
            assert(scan_next(w, st) == first);
        },
        TokenKind::ContainsCs => {
            assert(ident_end(w, 1) == w.len());
            assert(w.subrange(0, w.len() as int) =~= w);
            assert(keyword_kind(w) == k);
            assert(scan_next(w, st) == first);
        },
        TokenKind::In => {
            assert(ident_end(w, 1) == w.len());
            assert(w.subrange(0, w.len() as int) =~= w);
            assert(keyword_kind(w) == k);
            assert(scan_next(w, st) == first);
        },
        TokenKind::InCs => {
            assert(ident_end(w, 1) == w.len());
            assert(w.subrange(0, w.len() as int) =~= w);
            assert(keyword_kind(w) == k);
            assert(scan_next(w, st) == first);
        },
        TokenKind::StartsWith => {
            assert(ident_end(w, 1) == w.len());
            assert(w.subrange(0, w.len() as int) =~= w);
            assert(keyword_kind(w) == k);
            assert(scan_next(w, st) == first);
        },
        TokenKind::StartsWithCs => {
            assert(ident_end(w, 1) == w.len());
            assert(w.subrange(0, w.len() as int) =~= w);
            assert(keyword_kind(w) == k);
            assert(scan_next(w, st) == first);
        },
        TokenKind::EndsWith => {
            assert(ident_end(w, 1) == w.len());
            assert(w.subrange(0, w.len() as int) =~= w);
            assert(keyword_kind(w) == k);
            assert(scan_next(w, st) == first);
        },
        TokenKind::EndsWithCs => {
            assert(ident_end(w, 1) == w.len());
            assert(w.subrange(0, w.len() as int) =~= w);
            assert(keyword_kind(w) == k);
            assert(scan_next(w, st) == first);
        },
        TokenKind::Like => {
            assert(ident_end(w, 1) == w.len());
            assert(w.subrange(0, w.len() as int) =~= w);
            assert(keyword_kind(w) == k);
            assert(scan_next(w, st) == first);
        },
        TokenKind::LikeCs => {
            assert(ident_end(w, 1) == w.len());
            assert(w.subrange(0, w.len() as int) =~= w);
            assert(keyword_kind(w) == k);
            assert(scan_next(w, st) == first);
        },
        TokenKind::Matches => {
            assert(ident_end(w, 1) == w.len());
            assert(w.subrange(0, w.len() as int) =~= w);
            assert(keyword_kind(w) == k);
            assert(scan_next(w, st) == first);
        },
        TokenKind::GreaterThan => {
            assert(scan_next(w, st) == first);
        },
        TokenKind::GreaterEqual => {
            assert(scan_next(w, st) == first);
        },
        TokenKind::SmallerThan => {
            assert(scan_next(w, st) == first);
        },
        TokenKind::SmallerEqual => {
            assert(scan_next(w, st) == first);
        },
        TokenKind::Plus => {
            assert(scan_next(w, st) == first);
        },
        TokenKind::Minus => {
            assert(scan_next(w, st) == first);
        },
        TokenKind::Not => {
            assert(scan_next(w, st) == first);
        },
        TokenKind::And => {
            assert(scan_next(w, st) == first);
        },
        TokenKind::Or => {
            assert(scan_next(w, st) == first);
        },
        _ => {},
    }
    let next = first.1;
    assert(scan_next(w, st) == first);
    assert(scan_all(w, next) == (Seq::<TokenView>::empty(), None::<LexError>));
    assert(seq![plain(k, Loc { line: 1, column: 1 })] + Seq::<TokenView>::empty() =~= seq![plain(k, Loc { line: 1, column: 1 })]);
}

} // verus!

verus! {

/// The kind of token which stands for the binary operator `op`.
pub open spec fn binary_operator_kind(op: BinaryOperator) -> TokenKind {
    match op {
        BinaryOperator::Equals => TokenKind::Equals,
        BinaryOperator::NotEquals => TokenKind::NotEquals,
        BinaryOperator::GreaterThan => TokenKind::GreaterThan,
        BinaryOperator::SmallerThan => TokenKind::SmallerThan,
        BinaryOperator::GreaterEqual => TokenKind::GreaterEqual,
        BinaryOperator::SmallerEqual => TokenKind::SmallerEqual,
        BinaryOperator::Contains => TokenKind::Contains,
        BinaryOperator::ContainsCs => TokenKind::ContainsCs,
        BinaryOperator::In => TokenKind::In,
        BinaryOperator::InCs => TokenKind::InCs,
        BinaryOperator::StartsWith => TokenKind::StartsWith,
        BinaryOperator::StartsWithCs => TokenKind::StartsWithCs,
        BinaryOperator::EndsWith => TokenKind::EndsWith,
        BinaryOperator::EndsWithCs => TokenKind::EndsWithCs,
        BinaryOperator::Plus => TokenKind::Plus,
        BinaryOperator::Minus => TokenKind::Minus,
    }
}

/// The kind of token which stands for the logical operator `op`.
pub open spec fn logical_operator_kind(op: LogicalOperator) -> TokenKind {
    match op {
        LogicalOperator::And => TokenKind::And,
        LogicalOperator::Or => TokenKind::Or,
    }
}

/// A binary operator's symbol reads back as that operator: scanning the
/// symbol gives exactly one token, whose kind stands for the operator, and
/// then the end of the input. So no two binary operators share a symbol.
pub proof fn binary_operator_symbols_scan_back(op: BinaryOperator)
    ensures
        binary_operator_kind(op).binary_operator() == Some(op),
        scan_all(op.text(), initial_state()) == (
            seq![plain(binary_operator_kind(op), Loc { line: 1, column: 1 })],
            None::<LexError>,
        ),
{
    fixed_lexemes_scan_back(binary_operator_kind(op));
    assert(binary_operator_kind(op).fixed_text() == op.text());
}

/// The logical and unary operators' symbols read back in the same way.
pub proof fn logical_and_unary_operator_symbols_scan_back(op: LogicalOperator)
    ensures
        logical_operator_kind(op).logical_operator() == Some(op),
        scan_all(op.text(), initial_state()) == (
            seq![plain(logical_operator_kind(op), Loc { line: 1, column: 1 })],
            None::<LexError>,
        ),
        scan_all(UnaryOperator::Not.text(), initial_state()) == (
            seq![plain(TokenKind::Not, Loc { line: 1, column: 1 })],
            None::<LexError>,
        ),
{
    fixed_lexemes_scan_back(logical_operator_kind(op));
    fixed_lexemes_scan_back(TokenKind::Not);
    assert(logical_operator_kind(op).fixed_text() == op.text());
}

} // verus!

verus! {

/// Reading a string finds a string or an error, and ends within the input,
/// no earlier than where it started.
proof fn lemma_scan_string_progress(
    src: Seq<char>,
    i: int,
    line: int,
    line_start: int,
    start_loc: Loc,
    content_start: int,
    raw: bool,
    hashes: nat,
)
    requires
        0 <= i <= src.len(),
    ensures
        i <= scan_string(src, i, line, line_start, start_loc, content_start, raw, hashes).1.pos <= src.len(),
        scan_string(src, i, line, line_start, start_loc, content_start, raw, hashes).0 is Some,
    decreases src.len() - i,
{
    if i < src.len() {
        if src[i] == '\n' {
            lemma_scan_string_progress(src, i + 1, line + 1, byte_offset(src, i) + 1, start_loc, content_start, raw, hashes);
        } else if src[i] == '"' && hash_run(src, i + 1) >= hashes {
            lemma_hash_run(src, i + 1, hashes as int);
        } else if !raw && src[i] == '\\' && i + 1 < src.len() && src[i + 1] == '"' {
            lemma_scan_string_progress(src, i + 2, line, line_start, start_loc, content_start, raw, hashes);
        } else {
            lemma_scan_string_progress(src, i + 1, line, line_start, start_loc, content_start, raw, hashes);
        }
    }
}

/// A step which finds something moves forward within the input; one which
/// finds nothing has reached the end of the input.
proof fn lemma_scan_progress(src: Seq<char>, st: ScanState)
    requires
        0 <= st.pos <= src.len(),
    ensures
        st.pos <= scan_next(src, st).1.pos <= src.len(),
        scan_next(src, st).0 is Some ==> st.pos < scan_next(src, st).1.pos,
        scan_next(src, st).0 is None ==> scan_next(src, st).1.pos == src.len(),
    decreases src.len() - st.pos,
{
    let i = st.pos;
    if i < src.len() {
        let c = src[i];
        if c == ' ' || c == '\t' {
            lemma_scan_progress(src, ScanState { pos: i + 1, line: st.line, line_start: st.line_start });
        } else if c == '\n' {
            lemma_scan_progress(src, ScanState { pos: i + 1, line: st.line + 1, line_start: byte_offset(src, i) + 1 });
        } else if c == '"' {
            lemma_scan_string_progress(src, i + 1, st.line, st.line_start, loc_of(st, byte_offset(src, i)), i + 1, false, 0);
        } else if c == 'r' && followed_by(src, i + hash_run(src, i + 1), '"') {
            let h = hash_run(src, i + 1);
            lemma_hash_run(src, i + 1, h as int);
            lemma_scan_string_progress(
                src,
                i + 2 + h,
                st.line,
                st.line_start,
                loc_of(st, byte_offset(src, i)),
                i + 2 + h,
                true,
                h,
            );
        } else if char_is_numeric(c) {
            lemma_number_run(src, i);
            if unit_at(src, number_end(src, i)) {
                lemma_duration_run(src, number_end(src, i));
            }
        } else {
            lemma_ident_run(src, i + 1);
        }
    }
}

/// The scanner's state after `n` steps from `st`.
pub open spec fn state_after(src: Seq<char>, st: ScanState, n: nat) -> ScanState
    decreases n,
{
    if n == 0 {
        st
    } else {
        scan_next(src, state_after(src, st, (n - 1) as nat)).1
    }
}

/// After `n` steps the scanner is at least `n` characters further on, or at
/// the end of the input.
proof fn lemma_steps_progress(src: Seq<char>, st: ScanState, n: nat)
    requires
        0 <= st.pos <= src.len(),
    ensures
        state_after(src, st, n).pos <= src.len(),
        state_after(src, st, n).pos >= st.pos + n || state_after(src, st, n).pos == src.len(),
    decreases n,
{
    if n > 0 {
        lemma_steps_progress(src, st, (n - 1) as nat);
        lemma_steps_nonnegative(src, st, (n - 1) as nat);
        lemma_scan_progress(src, state_after(src, st, (n - 1) as nat));
    }
}

/// The scanner's position never goes back.
proof fn lemma_steps_nonnegative(src: Seq<char>, st: ScanState, n: nat)
    requires
        0 <= st.pos <= src.len(),
    ensures
        st.pos <= state_after(src, st, n).pos <= src.len(),
    decreases n,
{
    if n > 0 {
        lemma_steps_nonnegative(src, st, (n - 1) as nat);
        lemma_scan_progress(src, state_after(src, st, (n - 1) as nat));
    }
}

/// Scanning ends within one step per character: from a state within the
/// input, once as many steps have been taken as there are characters left,
/// every further step finds nothing. So a scanner over a text of `n`
/// characters reports the end of its input by its `n + 1`-th call.
pub proof fn scanning_ends_within_one_step_per_character(src: Seq<char>, st: ScanState, n: nat)
    requires
        0 <= st.pos <= src.len(),
        n >= src.len() - st.pos,
    ensures
        scan_next(src, state_after(src, st, n)).0 is None,
{
    lemma_steps_nonnegative(src, st, n);
    lemma_steps_progress(src, st, n);
}

/// Over any number of steps from the start of a text, each token or error
/// found carries the location of its first character: the line one more
/// than the number of line breaks before it, and the column counted in bytes
/// from just after the last of them (see [`locations_count_line_breaks`]);
/// before an index up to which the text is ASCII, bytes and characters coincide.
pub proof fn scanned_locations_count_line_breaks(src: Seq<char>, n: nat)
    ensures
        scan_next(src, state_after(src, initial_state(), n)).0 matches Some(r) ==> {
            let j = token_start(src, state_after(src, initial_state(), n).pos);
            &&& 0 <= j < src.len()
            &&& outcome_loc(r) == char_location(src, j)
            &&& line_at(src, j) == 1 + line_breaks(src.take(j))
            &&& (forall|k: int| 0 <= k < j ==> (#[trigger] src[k] as u32) < 0x80) ==> byte_offset(src, j) == j
        },
    decreases n,
{
    lemma_steps_track_lines(src, n);
    let st = state_after(src, initial_state(), n);
    scan_step_locates_its_first_character(src, st);
    if scan_next(src, st).0 is Some {
        let j = token_start(src, st.pos);
        lemma_token_start(src, st.pos);
        locations_count_line_breaks(src, j);
    }
}

/// Every state reached from the start keeps track of its lines.
proof fn lemma_steps_track_lines(src: Seq<char>, n: nat)
    ensures
        tracks_lines(src, state_after(src, initial_state(), n)),
    decreases n,
{
    if n == 0 {
        scanning_starts_on_the_first_line(src);
    } else {
        lemma_steps_track_lines(src, (n - 1) as nat);
        scan_step_locates_its_first_character(src, state_after(src, initial_state(), (n - 1) as nat));
    }
}

} // verus!

verus! {

/// Whether `c` starts an operator which may take a second character: `&`,
/// `|`, `=`, `!`, `>` or `<`.
pub open spec fn is_operator_start(c: char) -> bool {
    c == '&' || c == '|' || c == '=' || c == '!' || c == '>' || c == '<'
}

/// The character which completes the two-character operator that `c`
/// starts: `&&`, `||`, and `==`, `!=`, `>=`, `<=`.
pub open spec fn operator_second(c: char) -> char {
    if c == '&' {
        '&'
    } else if c == '|' {
        '|'
    } else {
        '='
    }
}

/// A step on an operator character finds something and takes two characters
/// exactly when the next character completes the two-character operator, and
/// one otherwise. Looking at the next character moves neither the line nor
/// the line's start, even when that character is a line break.
pub proof fn operator_steps_take_one_or_two_characters(src: Seq<char>, st: ScanState)
    requires
        0 <= st.pos < src.len(),
        is_operator_start(src[st.pos]),
    ensures
        scan_next(src, st).0 is Some,
        scan_next(src, st).1 == (ScanState {
            pos: st.pos + if followed_by(src, st.pos, operator_second(src[st.pos])) {
                2int
            } else {
                1int
            },
            line: st.line,
            line_start: st.line_start,
        }),
{
}

/// Runs are counted in characters, the indices being those of the text's
/// characters: an identifier run, a numeric run and a run of unit letters
/// from index `i` each end at the first character which cannot continue it
/// (a line break never can), or at the end of the text, and every character
/// before that end continues it.
pub proof fn runs_end_at_the_first_character_outside_them(src: Seq<char>, i: int)
    requires
        0 <= i <= src.len(),
    ensures
        i <= ident_end(src, i) <= src.len(),
        forall|k: int| i <= k < ident_end(src, i) ==> is_ident_char(#[trigger] src[k]) && src[k] != '\n',
        ident_end(src, i) < src.len() ==> !(is_ident_char(src[ident_end(src, i)]) && src[ident_end(src, i)] != '\n'),
        i <= numeric_end(src, i) <= src.len(),
        forall|k: int| i <= k < numeric_end(src, i) ==> char_is_numeric(#[trigger] src[k]) && src[k] != '\n',
        numeric_end(src, i) < src.len() ==> !(char_is_numeric(src[numeric_end(src, i)]) && src[numeric_end(src, i)]
            != '\n'),
        i <= alpha_end(src, i) <= src.len(),
        forall|k: int| i <= k < alpha_end(src, i) ==> char_is_alphabetic(#[trigger] src[k]) && src[k] != '\n',
        alpha_end(src, i) < src.len() ==> !(char_is_alphabetic(src[alpha_end(src, i)]) && src[alpha_end(src, i)]
            != '\n'),
    decreases src.len() - i,
{
    if i < src.len() {
        runs_end_at_the_first_character_outside_them(src, i + 1);
    }
}

} // verus!
