//! The parser, which builds an expression tree from the scanner's tokens.
//!
//! The grammar, from the loosest binding to the tightest:
//!
//! ```text
//! or         := and ("||" and)*
//! and        := equality ("&&" equality)*
//! equality   := comparison (("==" | "!=") comparison)?
//! comparison := term ((cmp-op term) | (("like" | "like_cs" | "matches") pattern))?
//! term       := unary (("+" | "-") unary)*
//! unary      := "!" unary | primary
//! primary    := "(" or ")" | "[" (literal ("," literal)* ","?)? "]"
//!             | property "(" (or ("," or)*)? ")" | property | literal
//! pattern    := string | raw-string
//! ```

use vstd::prelude::*;

use crate::case_sensitivity::is_char_prefix;
use crate::duration::{duration_segments, segments, DurationSegment, SegmentView};
use crate::expr::{Expr, ExprView, Literal, LiteralView};
use crate::lexer::LexError;
use crate::location::Loc;
use crate::operator::{BinaryOperator, LogicalOperator, UnaryOperator};
use crate::pattern::{regex_compiles, regex_error_message, regex_error_of, CompiledRegex, Glob};
use crate::token::{Token, TokenKind, TokenView};
use crate::unicode::{chars_of, string_from_chars};

verus! {

/// The name and number of arguments of a function which filters may call.
#[derive(Debug, Clone)]
pub struct FunctionSignature {
    /// The name used to call the function.
    pub name: String,
    /// The exact number of arguments the function takes.
    pub arity: usize,
}

/// An error found while parsing a filter expression.
#[derive(Debug)]
pub enum ParseError {
    /// The scanner found an invalid token.
    Lex(LexError),
    /// A complete expression was followed by another token.
    TrailingToken(Token),
    /// The expression ended where an operand was expected.
    UnexpectedEnd,
    /// A token which cannot start an operand stood where a literal was expected.
    UnexpectedToken(Token),
    /// A group opened at the location was not closed by `)`.
    UnclosedGroup(Loc),
    /// A tuple opened at the location was not closed by `]`.
    UnclosedList(Loc),
    /// A `like`, `like_cs` or `matches` operator (the first token) was
    /// followed by something other than a string literal (the second).
    PatternNotLiteral(Token, Token),
    /// A `like`, `like_cs` or `matches` operator ended the expression.
    PatternMissing(Token),
    /// The regular expression of the `matches` operator at the location did
    /// not compile: its pattern, and the regex crate's description of the problem.
    InvalidRegex(Loc, String, String),
    /// The arguments of the call to the named function at the location were not closed by `)`.
    UnclosedCall(String, Loc),
    /// The named function at the location takes the first number of
    /// arguments but was given the second.
    WrongArity(String, Loc, usize, usize),
    /// The named function at the location is not one of the available
    /// functions, whose names are listed.
    UnknownFunction(String, Loc, Vec<String>),
    /// The number at the location is not the text of a float.
    InvalidNumber(Loc, String),
    /// A number in the duration literal (the text) at the location is not
    /// the text of a float.
    InvalidDuration(Loc, String),
    /// The duration literal (the first text) at the location used the unit
    /// (the second text), which is not one of the duration units.
    UnknownDurationUnit(Loc, String, String),
}

/// The mathematical view of a [`ParseError`].
pub enum ParseErrorView {
    Lex(LexError),
    TrailingToken(TokenView),
    UnexpectedEnd,
    UnexpectedToken(TokenView),
    UnclosedGroup(Loc),
    UnclosedList(Loc),
    PatternNotLiteral(TokenView, TokenView),
    PatternMissing(TokenView),
    InvalidRegex(Loc, Seq<char>, Seq<char>),
    UnclosedCall(Seq<char>, Loc),
    WrongArity(Seq<char>, Loc, nat, nat),
    UnknownFunction(Seq<char>, Loc, Seq<Seq<char>>),
    InvalidNumber(Loc, Seq<char>),
    InvalidDuration(Loc, Seq<char>),
    UnknownDurationUnit(Loc, Seq<char>, Seq<char>),
}

impl View for ParseError {
    type V = ParseErrorView;

    open spec fn view(&self) -> ParseErrorView {
        match self {
            ParseError::Lex(e) => ParseErrorView::Lex(*e),
            ParseError::TrailingToken(t) => ParseErrorView::TrailingToken(t@),
            ParseError::UnexpectedEnd => ParseErrorView::UnexpectedEnd,
            ParseError::UnexpectedToken(t) => ParseErrorView::UnexpectedToken(t@),
            ParseError::UnclosedGroup(l) => ParseErrorView::UnclosedGroup(*l),
            ParseError::UnclosedList(l) => ParseErrorView::UnclosedList(*l),
            ParseError::PatternNotLiteral(op, t) => ParseErrorView::PatternNotLiteral(op@, t@),
            ParseError::PatternMissing(op) => ParseErrorView::PatternMissing(op@),
            ParseError::InvalidRegex(l, p, d) => ParseErrorView::InvalidRegex(*l, p@, d@),
            ParseError::UnclosedCall(n, l) => ParseErrorView::UnclosedCall(n@, *l),
            ParseError::WrongArity(n, l, e, a) => ParseErrorView::WrongArity(n@, *l, *e as nat, *a as nat),
            ParseError::UnknownFunction(n, l, names) => ParseErrorView::UnknownFunction(
                n@,
                *l,
                names@.map_values(|s: String| s@),
            ),
            ParseError::InvalidNumber(l, n) => ParseErrorView::InvalidNumber(*l, n@),
            ParseError::InvalidDuration(l, d) => ParseErrorView::InvalidDuration(*l, d@),
            ParseError::UnknownDurationUnit(l, d, u) => ParseErrorView::UnknownDurationUnit(*l, d@, u@),
        }
    }
}

/// What the parser reads: the scanner's tokens, the scanning error which
/// ends them (if any), and the names and arities of the callable functions.
pub struct ParseInput {
    pub tokens: Seq<TokenView>,
    pub error: Option<LexError>,
    pub functions: Seq<(Seq<char>, nat)>,
}

/// The outcome of parsing from some position: an expression and the
/// position after it, or an error.
pub type Parsed = Result<(ExprView, int), ParseErrorView>;

/// The item at position `p` of the token stream: a token, the scanning error
/// after the last token, or nothing at the end.
pub open spec fn peek(inp: ParseInput, p: int) -> Option<Result<TokenView, LexError>> {
    if 0 <= p < inp.tokens.len() {
        Some(Ok(inp.tokens[p]))
    } else {
        match inp.error {
            Some(e) => Some(Err(e)),
            None => None,
        }
    }
}

/// Whether a token of kind `k` stands at position `p`.
pub open spec fn at(inp: ParseInput, p: int, k: TokenKind) -> bool {
    0 <= p < inp.tokens.len() && inp.tokens[p].kind == k
}

/// The kinds of the operators of a comparison (`like`, `like_cs` and `matches` aside).
pub open spec fn is_comparison_kind(k: TokenKind) -> bool {
    match k {
        TokenKind::In | TokenKind::InCs | TokenKind::Contains | TokenKind::ContainsCs
        | TokenKind::StartsWith | TokenKind::StartsWithCs | TokenKind::EndsWith
        | TokenKind::EndsWithCs | TokenKind::GreaterThan | TokenKind::GreaterEqual
        | TokenKind::SmallerThan | TokenKind::SmallerEqual => true,
        _ => false,
    }
}

/// Every occurrence of `from` in `s`, found from left to right without
/// overlapping, replaced by `to`.
pub open spec fn replace_all(s: Seq<char>, from: Seq<char>, to: Seq<char>) -> Seq<char>
    decreases s.len(),
{
    if s.len() == 0 || from.len() == 0 {
        s
    } else if from.is_prefix_of(s) {
        to + replace_all(s.skip(from.len() as int), from, to)
    } else {
        seq![s[0]] + replace_all(s.skip(1), from, to)
    }
}

/// The value of a string literal's text: `\"` becomes `"`, and then `\\` becomes `\`.
pub open spec fn unescape(s: Seq<char>) -> Seq<char> {
    replace_all(replace_all(s, seq!['\\', '"'], seq!['"']), seq!['\\', '\\'], seq!['\\'])
}

/// The end of the run of ASCII digits in `s` from index `i` on.
pub open spec fn digits_end(s: Seq<char>, i: int) -> int
    decreases s.len() - i,
{
    if 0 <= i < s.len() && '0' <= s[i] <= '9' {
        digits_end(s, i + 1)
    } else {
        i
    }
}

/// Whether `c` is the small ASCII letter `l`, or its capital.
pub open spec fn letter_is(c: char, l: char) -> bool {
    c == l || (c as u32) + 32 == (l as u32)
}

/// Whether `s` from index `i` on is the word `w` of small ASCII letters, in
/// any mix of small and capital letters.
pub open spec fn caseless_rest(s: Seq<char>, i: int, w: Seq<char>) -> bool {
    s.len() - i == w.len() && forall|k: int| 0 <= k < w.len() ==> letter_is(#[trigger] s[i + k], w[k])
}

/// The length of a sign at index `i` of `s`: 1 for `+` or `-`, 0 otherwise.
pub open spec fn sign_len(s: Seq<char>, i: int) -> int {
    if 0 <= i < s.len() && (s[i] == '+' || s[i] == '-') {
        1
    } else {
        0
    }
}

/// Whether `s` is the text of a float as `str::parse::<f64>` accepts it.
/// Read without regard to ASCII case, that is the grammar
/// `Sign? ('inf' | 'infinity' | 'nan' | Number)`, where
/// `Number ::= (Digit+ | Digit+ '.' Digit* | Digit* '.' Digit+) ('e' Sign? Digit+)?`,
/// `Sign ::= [+-]` and `Digit ::= [0-9]`.
pub open spec fn float_text(s: Seq<char>) -> bool {
    let a = sign_len(s, 0);
    let d1 = digits_end(s, a);
    let point = d1 < s.len() && s[d1] == '.';
    let d2 = if point {
        digits_end(s, d1 + 1)
    } else {
        d1
    };
    let mantissa_digits = (d1 - a) + (d2 - d1) - (if point {
        1int
    } else {
        0int
    });
    let b = d2 + 1 + sign_len(s, d2 + 1);
    ||| caseless_rest(s, a, seq!['i', 'n', 'f'])
    ||| caseless_rest(s, a, seq!['i', 'n', 'f', 'i', 'n', 'i', 't', 'y'])
    ||| caseless_rest(s, a, seq!['n', 'a', 'n'])
    ||| mantissa_digits > 0 && (d2 == s.len() || (letter_is(s[d2], 'e') && b < digits_end(s, b)
        && digits_end(s, b) == s.len()))
}

/// The error which rejects the duration literal `text` at `loc`, whose
/// segments from some point on are `segs`: the first segment whose number is
/// not the text of a float, or else whose unit is not a duration unit.
pub open spec fn duration_error(segs: Seq<SegmentView>, loc: Loc, text: Seq<char>) -> Option<ParseErrorView>
    decreases segs.len(),
{
    if segs.len() == 0 {
        None
    } else if !float_text(segs[0].number) {
        Some(ParseErrorView::InvalidDuration(loc, text))
    } else if segs[0].unit_ms is None {
        Some(ParseErrorView::UnknownDurationUnit(loc, text, segs[0].unit))
    } else {
        duration_error(segs.drop_first(), loc, text)
    }
}

/// The literal which the token at `p` stands for.
pub open spec fn p_literal(inp: ParseInput, p: int) -> Result<LiteralView, ParseErrorView> {
    match peek(inp, p) {
        Some(Ok(t)) => match t.kind {
            TokenKind::True => Ok(LiteralView::Bool(true)),
            TokenKind::False => Ok(LiteralView::Bool(false)),
            TokenKind::Null => Ok(LiteralView::Null),
            TokenKind::Number => if float_text(t.text) {
                Ok(LiteralView::Number(t.text))
            } else {
                Err(ParseErrorView::InvalidNumber(t.loc, t.text))
            },
            TokenKind::String => Ok(LiteralView::String(unescape(t.text))),
            TokenKind::RawString => Ok(LiteralView::String(t.text)),
            TokenKind::Duration => match duration_error(segments(t.text, 0), t.loc, t.text) {
                Some(e) => Err(e),
                None => Ok(LiteralView::Duration(t.text)),
            },
            _ => Err(ParseErrorView::UnexpectedToken(t)),
        },
        Some(Err(e)) => Err(ParseErrorView::Lex(e)),
        None => Err(ParseErrorView::UnexpectedEnd),
    }
}

/// The pattern of the `like`, `like_cs` or `matches` operator `op`, read from
/// the string literal at `p`.
pub open spec fn p_pattern(inp: ParseInput, p: int, op: TokenView) -> Result<Seq<char>, ParseErrorView> {
    match peek(inp, p) {
        Some(Ok(t)) => if t.kind == TokenKind::String {
            Ok(unescape(t.text))
        } else if t.kind == TokenKind::RawString {
            Ok(t.text)
        } else {
            Err(ParseErrorView::PatternNotLiteral(op, t))
        },
        Some(Err(e)) => Err(ParseErrorView::Lex(e)),
        None => Err(ParseErrorView::PatternMissing(op)),
    }
}

/// `or := and ("||" and)*`, from position `p`.
pub open spec fn p_or(inp: ParseInput, p: int) -> Parsed
    decreases inp.tokens.len() - p, 20int,
{
    match p_and(inp, p) {
        Err(e) => Err(e),
        Ok((l, q)) => if p < q <= inp.tokens.len() {
            p_or_rest(inp, l, q)
        } else {
            Ok((l, q))
        },
    }
}

/// The `("||" and)*` part of `or`, after the operand `l` which ends at `q`.
pub open spec fn p_or_rest(inp: ParseInput, l: ExprView, q: int) -> Parsed
    decreases inp.tokens.len() - q, 21int,
{
    if at(inp, q, TokenKind::Or) {
        match p_and(inp, q + 1) {
            Err(e) => Err(e),
            Ok((r, q2)) => {
                let e = ExprView::Logical(Box::new(l), LogicalOperator::Or, Box::new(r));
                if q < q2 <= inp.tokens.len() {
                    p_or_rest(inp, e, q2)
                } else {
                    Ok((e, q2))
                }
            },
        }
    } else {
        Ok((l, q))
    }
}

/// `and := equality ("&&" equality)*`, from position `p`.
pub open spec fn p_and(inp: ParseInput, p: int) -> Parsed
    decreases inp.tokens.len() - p, 19int,
{
    match p_equality(inp, p) {
        Err(e) => Err(e),
        Ok((l, q)) => if p < q <= inp.tokens.len() {
            p_and_rest(inp, l, q)
        } else {
            Ok((l, q))
        },
    }
}

/// The `("&&" equality)*` part of `and`, after the operand `l` which ends at `q`.
pub open spec fn p_and_rest(inp: ParseInput, l: ExprView, q: int) -> Parsed
    decreases inp.tokens.len() - q, 19int,
{
    if at(inp, q, TokenKind::And) {
        match p_equality(inp, q + 1) {
            Err(e) => Err(e),
            Ok((r, q2)) => {
                let e = ExprView::Logical(Box::new(l), LogicalOperator::And, Box::new(r));
                if q < q2 <= inp.tokens.len() {
                    p_and_rest(inp, e, q2)
                } else {
                    Ok((e, q2))
                }
            },
        }
    } else {
        Ok((l, q))
    }
}

/// `equality := comparison (("==" | "!=") comparison)?`, from position `p`.
pub open spec fn p_equality(inp: ParseInput, p: int) -> Parsed
    decreases inp.tokens.len() - p, 17int,
{
    match p_comparison(inp, p) {
        Err(e) => Err(e),
        Ok((l, q)) => if p <= q && (at(inp, q, TokenKind::Equals) || at(inp, q, TokenKind::NotEquals)) {
            let op = inp.tokens[q].kind.binary_operator().unwrap();
            match p_comparison(inp, q + 1) {
                Err(e) => Err(e),
                Ok((r, q2)) => Ok((ExprView::Binary(Box::new(l), op, Box::new(r)), q2)),
            }
        } else {
            Ok((l, q))
        },
    }
}

/// `comparison := term ((cmp-op term) | (("like" | "like_cs" | "matches") pattern))?`,
/// from position `p`. The pattern of `matches` must compile as a regular expression.
pub open spec fn p_comparison(inp: ParseInput, p: int) -> Parsed
    decreases inp.tokens.len() - p, 16int,
{
    match p_term(inp, p) {
        Err(e) => Err(e),
        Ok((l, q)) => if p <= q && 0 <= q < inp.tokens.len() {
            let t = inp.tokens[q];
            if is_comparison_kind(t.kind) {
                let op = t.kind.binary_operator().unwrap();
                match p_term(inp, q + 1) {
                    Err(e) => Err(e),
                    Ok((r, q2)) => Ok((ExprView::Binary(Box::new(l), op, Box::new(r)), q2)),
                }
            } else if t.kind == TokenKind::Like || t.kind == TokenKind::LikeCs {
                match p_pattern(inp, q + 1, t) {
                    Err(e) => Err(e),
                    Ok(pat) => Ok((ExprView::Like(Box::new(l), pat, t.kind == TokenKind::LikeCs), q + 2)),
                }
            } else if t.kind == TokenKind::Matches {
                match p_pattern(inp, q + 1, t) {
                    Err(e) => Err(e),
                    Ok(pat) => if regex_compiles(pat) {
                        Ok((ExprView::Matches(Box::new(l), pat), q + 2))
                    } else {
                        Err(ParseErrorView::InvalidRegex(t.loc, pat, regex_error_message(pat)))
                    },
                }
            } else {
                Ok((l, q))
            }
        } else {
            Ok((l, q))
        },
    }
}

/// `term := unary (("+" | "-") unary)*`, from position `p`.
pub open spec fn p_term(inp: ParseInput, p: int) -> Parsed
    decreases inp.tokens.len() - p, 15int,
{
    match p_unary(inp, p) {
        Err(e) => Err(e),
        Ok((l, q)) => if p < q <= inp.tokens.len() {
            p_term_rest(inp, l, q)
        } else {
            Ok((l, q))
        },
    }
}

/// The `(("+" | "-") unary)*` part of `term`, after the operand `l` which ends at `q`.
pub open spec fn p_term_rest(inp: ParseInput, l: ExprView, q: int) -> Parsed
    decreases inp.tokens.len() - q, 15int,
{
    if at(inp, q, TokenKind::Plus) || at(inp, q, TokenKind::Minus) {
        let op = inp.tokens[q].kind.binary_operator().unwrap();
        match p_unary(inp, q + 1) {
            Err(e) => Err(e),
            Ok((r, q2)) => {
                let e = ExprView::Binary(Box::new(l), op, Box::new(r));
                if q < q2 <= inp.tokens.len() {
                    p_term_rest(inp, e, q2)
                } else {
                    Ok((e, q2))
                }
            },
        }
    } else {
        Ok((l, q))
    }
}

/// `unary := "!" unary | primary`, from position `p`.
pub open spec fn p_unary(inp: ParseInput, p: int) -> Parsed
    decreases inp.tokens.len() - p, 14int,
{
    if at(inp, p, TokenKind::Not) {
        match p_unary(inp, p + 1) {
            Err(e) => Err(e),
            Ok((r, q)) => Ok((ExprView::Unary(UnaryOperator::Not, Box::new(r)), q)),
        }
    } else {
        p_primary(inp, p)
    }
}

/// `primary`, from position `p`: a group, a tuple, a function call, a
/// property, or a literal.
pub open spec fn p_primary(inp: ParseInput, p: int) -> Parsed
    decreases inp.tokens.len() - p, 13int,
{
    match peek(inp, p) {
        Some(Ok(t)) => if t.kind == TokenKind::LeftParen {
            match p_or(inp, p + 1) {
                Err(e) => Err(e),
                Ok((e, q)) => if at(inp, q, TokenKind::RightParen) {
                    Ok((e, q + 1))
                } else {
                    Err(ParseErrorView::UnclosedGroup(t.loc))
                },
            }
        } else if t.kind == TokenKind::LeftBracket {
            p_list(inp, p + 1, Seq::empty(), t.loc)
        } else if t.kind == TokenKind::Property {
            if at(inp, p + 1, TokenKind::LeftParen) {
                p_call(inp, t.text, t.loc, p + 2)
            } else {
                Ok((ExprView::Property(t.text), p + 1))
            }
        } else {
            match p_literal(inp, p) {
                Err(e) => Err(e),
                Ok(v) => Ok((ExprView::Literal(v), p + 1)),
            }
        },
        Some(Err(e)) => Err(ParseErrorView::Lex(e)),
        None => Err(ParseErrorView::UnexpectedEnd),
    }
}

/// The rest of a tuple from position `q`, after the literals `items`, for a
/// tuple opened at `loc`. A trailing comma is allowed.
pub open spec fn p_list(inp: ParseInput, q: int, items: Seq<LiteralView>, loc: Loc) -> Parsed
    decreases inp.tokens.len() - q, 12int,
{
    if at(inp, q, TokenKind::RightBracket) {
        Ok((ExprView::Literal(LiteralView::Tuple(items)), q + 1))
    } else {
        match p_literal(inp, q) {
            Err(e) => Err(e),
            Ok(v) => if at(inp, q + 1, TokenKind::Comma) {
                p_list(inp, q + 2, items.push(v), loc)
            } else if at(inp, q + 1, TokenKind::RightBracket) {
                Ok((ExprView::Literal(LiteralView::Tuple(items.push(v))), q + 2))
            } else {
                Err(ParseErrorView::UnclosedList(loc))
            },
        }
    }
}

/// The names of the callable functions, in order.
pub open spec fn function_names(inp: ParseInput) -> Seq<Seq<char>> {
    inp.functions.map_values(|f: (Seq<char>, nat)| f.0)
}

/// The index of the first callable function named `name` at or after `i`.
pub open spec fn find_function(inp: ParseInput, name: Seq<char>, i: int) -> Option<int>
    decreases inp.functions.len() - i,
{
    if i < 0 || i >= inp.functions.len() {
        None
    } else if inp.functions[i].0 == name {
        Some(i)
    } else {
        find_function(inp, name, i + 1)
    }
}

/// A call of the function `name` at `loc` with `args`, ending just before
/// `q`: the function must exist and take that many arguments.
pub open spec fn p_resolve(inp: ParseInput, name: Seq<char>, loc: Loc, args: Seq<ExprView>, q: int) -> Parsed {
    match find_function(inp, name, 0) {
        Some(i) => if inp.functions[i].1 == args.len() {
            Ok((ExprView::FunctionCall(name, args), q))
        } else {
            Err(ParseErrorView::WrongArity(name, loc, inp.functions[i].1, args.len()))
        },
        None => Err(ParseErrorView::UnknownFunction(name, loc, function_names(inp))),
    }
}

/// The closing `)` of a call of `name` at `loc`, expected at `q`.
pub open spec fn p_close_call(inp: ParseInput, name: Seq<char>, loc: Loc, args: Seq<ExprView>, q: int) -> Parsed {
    match peek(inp, q) {
        Some(Ok(t)) => if t.kind == TokenKind::RightParen {
            p_resolve(inp, name, loc, args, q + 1)
        } else {
            Err(ParseErrorView::UnclosedCall(name, loc))
        },
        Some(Err(e)) => Err(ParseErrorView::Lex(e)),
        None => Err(ParseErrorView::UnclosedCall(name, loc)),
    }
}

/// The arguments of a call of `name` at `loc` from position `q`, after the
/// arguments `args`.
pub open spec fn p_args(inp: ParseInput, name: Seq<char>, loc: Loc, args: Seq<ExprView>, q: int) -> Parsed
    decreases inp.tokens.len() - q, 22int,
{
    match p_or(inp, q) {
        Err(e) => Err(e),
        Ok((a, q1)) => if q < q1 <= inp.tokens.len() && at(inp, q1, TokenKind::Comma) {
            p_args(inp, name, loc, args.push(a), q1 + 1)
        } else {
            p_close_call(inp, name, loc, args.push(a), q1)
        },
    }
}

/// A call of `name` at `loc`, whose arguments start at position `q` (just after `(`).
pub open spec fn p_call(inp: ParseInput, name: Seq<char>, loc: Loc, q: int) -> Parsed
    decreases inp.tokens.len() - q, 23int,
{
    if at(inp, q, TokenKind::RightParen) {
        p_resolve(inp, name, loc, Seq::empty(), q + 1)
    } else {
        p_args(inp, name, loc, Seq::empty(), q)
    }
}

/// The whole expression: an `or` which must be followed by nothing at all.
pub open spec fn p_filter(inp: ParseInput) -> Result<ExprView, ParseErrorView> {
    match p_or(inp, 0) {
        Err(e) => Err(e),
        Ok((e, q)) => match peek(inp, q) {
            None => Ok(e),
            Some(Err(le)) => Err(ParseErrorView::Lex(le)),
            Some(Ok(t)) => Err(ParseErrorView::TrailingToken(t)),
        },
    }
}


/// What parsing checks of a tree: every function call in `e` names one of
/// `functions` and passes exactly as many arguments as that function takes,
/// and the pattern of every `matches` compiles as a regular expression.
pub open spec fn parse_checked(e: ExprView, functions: Seq<(Seq<char>, nat)>) -> bool
    decreases e,
{
    match e {
        ExprView::FunctionCall(name, args) => {
            &&& exists|i: int| 0 <= i < functions.len() && #[trigger] functions[i] == (name, args.len())
            &&& forall|k: int| 0 <= k < args.len() ==> parse_checked(#[trigger] args[k], functions)
        },
        ExprView::Binary(l, _, r) => parse_checked(*l, functions) && parse_checked(*r, functions),
        ExprView::Logical(l, _, r) => parse_checked(*l, functions) && parse_checked(*r, functions),
        ExprView::Unary(_, r) => parse_checked(*r, functions),
        ExprView::Like(l, _, _) => parse_checked(*l, functions),
        ExprView::Matches(l, pattern) => regex_compiles(pattern) && parse_checked(*l, functions),
        _ => true,
    }
}

/// The function which [`find_function`] finds has the name looked for.
pub(crate) proof fn lemma_find_function(inp: ParseInput, name: Seq<char>, j: int)
    requires
        0 <= j,
    ensures
        find_function(inp, name, j) matches Some(i) ==> j <= i < inp.functions.len() && inp.functions[i].0 == name,
    decreases inp.functions.len() - j,
{
    if j < inp.functions.len() && inp.functions[j].0 != name {
        lemma_find_function(inp, name, j + 1);
    }
}

/// How tightly the operator of a token of kind `k` binds, from the loosest:
/// `||` (1), `&&` (2), `==` and `!=` (3), the comparisons (4), `+` and `-` (5);
/// 0 for the kinds which are no such operator.
pub open spec fn binding_level(k: TokenKind) -> int {
    if k == TokenKind::Or {
        1
    } else if k == TokenKind::And {
        2
    } else if k == TokenKind::Equals || k == TokenKind::NotEquals {
        3
    } else if is_comparison_kind(k) {
        4
    } else if k == TokenKind::Plus || k == TokenKind::Minus {
        5
    } else {
        0
    }
}

/// Parsing from `p` at a binding level: `or` (1), `and` (2), `equality` (3),
/// `comparison` (4), `term` (5), and `unary` above them.
pub open spec fn parse_at_level(inp: ParseInput, level: int, p: int) -> Parsed {
    if level <= 1 {
        p_or(inp, p)
    } else if level == 2 {
        p_and(inp, p)
    } else if level == 3 {
        p_equality(inp, p)
    } else if level == 4 {
        p_comparison(inp, p)
    } else if level == 5 {
        p_term(inp, p)
    } else {
        p_unary(inp, p)
    }
}

/// The tree which joins `l` and `r` with the operator of a token of kind `k`.
pub open spec fn joined(k: TokenKind, l: ExprView, r: ExprView) -> ExprView {
    if k == TokenKind::Or {
        ExprView::Logical(Box::new(l), LogicalOperator::Or, Box::new(r))
    } else if k == TokenKind::And {
        ExprView::Logical(Box::new(l), LogicalOperator::And, Box::new(r))
    } else {
        ExprView::Binary(Box::new(l), k.binary_operator().unwrap(), Box::new(r))
    }
}

/// The operand which the property token at `p` stands for.
pub open spec fn property_at(inp: ParseInput, p: int) -> ExprView {
    ExprView::Property(inp.tokens[p].text)
}

/// A property token which ends the input or is followed by an operator of a
/// looser level than `level` is a whole operand at that level.
pub(crate) proof fn lemma_operand_stops(inp: ParseInput, p: int, level: int)
    requires
        0 <= p < inp.tokens.len(),
        inp.tokens[p].kind == TokenKind::Property,
        1 <= level <= 6,
        p + 1 == inp.tokens.len() || 1 <= binding_level(inp.tokens[p + 1].kind) < level,
    ensures
        parse_at_level(inp, level, p) == Ok::<(ExprView, int), ParseErrorView>((property_at(inp, p), p + 1)),
    decreases 6 - level,
{
    let x = property_at(inp, p);
    if level == 6 {
        assert(!at(inp, p + 1, TokenKind::LeftParen));
        assert(p_primary(inp, p) == Ok::<(ExprView, int), ParseErrorView>((x, p + 1)));
        assert(!at(inp, p, TokenKind::Not));
    } else {
        lemma_operand_stops(inp, p, level + 1);
        if level == 5 {
            assert(p_term_rest(inp, x, p + 1) == Ok::<(ExprView, int), ParseErrorView>((x, p + 1)));
        } else if level == 2 {
            assert(p_and_rest(inp, x, p + 1) == Ok::<(ExprView, int), ParseErrorView>((x, p + 1)));
        } else if level == 1 {
            assert(p_or_rest(inp, x, p + 1) == Ok::<(ExprView, int), ParseErrorView>((x, p + 1)));
        }
    }
}

/// An operand parsed at a tight level, followed by the end of the input or
/// by an operator of a level looser than `lo`, is the operand at every level
/// from `lo` up.
pub(crate) proof fn lemma_passes_through(inp: ParseInput, p: int, q: int, l: ExprView, lo: int, hi: int)
    requires
        0 <= p < q <= inp.tokens.len(),
        1 <= lo <= hi <= 6,
        parse_at_level(inp, hi, p) == Ok::<(ExprView, int), ParseErrorView>((l, q)),
        q == inp.tokens.len() || 1 <= binding_level(inp.tokens[q].kind) < lo,
    ensures
        parse_at_level(inp, lo, p) == Ok::<(ExprView, int), ParseErrorView>((l, q)),
    decreases hi - lo,
{
    if lo < hi {
        lemma_passes_through(inp, p, q, l, lo + 1, hi);
        if lo == 5 {
            assert(p_term_rest(inp, l, q) == Ok::<(ExprView, int), ParseErrorView>((l, q)));
        } else if lo == 2 {
            assert(p_and_rest(inp, l, q) == Ok::<(ExprView, int), ParseErrorView>((l, q)));
        } else if lo == 1 {
            assert(p_or_rest(inp, l, q) == Ok::<(ExprView, int), ParseErrorView>((l, q)));
        }
    }
}

/// An operand `l`, an operator at `q` and an operand `r`, both operands parsed
/// one level tighter than the operator and `r` followed by the end of the input
/// or by an operator looser than `level`, are joined by that operator at
/// every level from `level` up to the operator's own.
pub(crate) proof fn lemma_joins(inp: ParseInput, p: int, q: int, n: int, l: ExprView, r: ExprView, level: int)
    requires
        0 <= p < q,
        q + 1 < n <= inp.tokens.len(),
        1 <= level <= binding_level(inp.tokens[q].kind),
        parse_at_level(inp, binding_level(inp.tokens[q].kind) + 1, p) == Ok::<(ExprView, int), ParseErrorView>((l, q)),
        parse_at_level(inp, binding_level(inp.tokens[q].kind) + 1, q + 1) == Ok::<(ExprView, int), ParseErrorView>((r, n)),
        n == inp.tokens.len() || 1 <= binding_level(inp.tokens[n].kind) < level,
    ensures
        parse_at_level(inp, level, p) == Ok::<(ExprView, int), ParseErrorView>((joined(inp.tokens[q].kind, l, r), n)),
{
    let k = inp.tokens[q].kind;
    let top = binding_level(k);
    let e = joined(k, l, r);
    if top == 5 {
        assert(p_term_rest(inp, e, n) == Ok::<(ExprView, int), ParseErrorView>((e, n)));
        assert(p_term_rest(inp, l, q) == Ok::<(ExprView, int), ParseErrorView>((e, n)));
    } else if top == 2 {
        assert(p_and_rest(inp, e, n) == Ok::<(ExprView, int), ParseErrorView>((e, n)));
        assert(p_and_rest(inp, l, q) == Ok::<(ExprView, int), ParseErrorView>((e, n)));
    } else if top == 1 {
        assert(p_or_rest(inp, e, n) == Ok::<(ExprView, int), ParseErrorView>((e, n)));
        assert(p_or_rest(inp, l, q) == Ok::<(ExprView, int), ParseErrorView>((e, n)));
    }
    assert(parse_at_level(inp, top, p) == Ok::<(ExprView, int), ParseErrorView>((e, n)));
    lemma_passes_through(inp, p, n, e, level, top);
}

/// Operators bind as tightly as their levels say: with an operator `⊕` of a
/// looser level than `⊗` and property operands, `x ⊕ y ⊗ z` groups as
/// `x ⊕ (y ⊗ z)` and `x ⊗ y ⊕ z` as `(x ⊗ y) ⊕ z`. So `&&` binds tighter than
/// `||`, equality looser than the comparisons, and `+` and `-` tightest.
pub proof fn operators_bind_by_level(inp: ParseInput)
    requires
        inp.tokens.len() == 5,
        inp.error is None,
        inp.tokens[0].kind == TokenKind::Property,
        inp.tokens[2].kind == TokenKind::Property,
        inp.tokens[4].kind == TokenKind::Property,
        1 <= binding_level(inp.tokens[1].kind),
        1 <= binding_level(inp.tokens[3].kind),
        binding_level(inp.tokens[1].kind) != binding_level(inp.tokens[3].kind),
    ensures
        binding_level(inp.tokens[1].kind) < binding_level(inp.tokens[3].kind) ==> p_filter(inp) == Ok::<
            ExprView,
            ParseErrorView,
        >(
            joined(
                inp.tokens[1].kind,
                property_at(inp, 0),
                joined(inp.tokens[3].kind, property_at(inp, 2), property_at(inp, 4)),
            ),
        ),
        binding_level(inp.tokens[1].kind) > binding_level(inp.tokens[3].kind) ==> p_filter(inp) == Ok::<
            ExprView,
            ParseErrorView,
        >(
            joined(
                inp.tokens[3].kind,
                joined(inp.tokens[1].kind, property_at(inp, 0), property_at(inp, 2)),
                property_at(inp, 4),
            ),
        ),
{
    let l1 = binding_level(inp.tokens[1].kind);
    let l3 = binding_level(inp.tokens[3].kind);
    let x = property_at(inp, 0);
    let y = property_at(inp, 2);
    let z = property_at(inp, 4);
    if l1 < l3 {
        let inner = joined(inp.tokens[3].kind, y, z);
        lemma_operand_stops(inp, 2, l3 + 1);
        lemma_operand_stops(inp, 4, l3 + 1);
        lemma_joins(inp, 2, 3, 5, y, z, l1 + 1);
        lemma_operand_stops(inp, 0, l1 + 1);
        lemma_joins(inp, 0, 1, 5, x, inner, 1);
    } else {
        let inner = joined(inp.tokens[1].kind, x, y);
        lemma_operand_stops(inp, 0, l1 + 1);
        lemma_operand_stops(inp, 2, l1 + 1);
        lemma_joins(inp, 0, 1, 3, x, y, l3 + 1);
        lemma_operand_stops(inp, 4, l3 + 1);
        lemma_joins(inp, 0, 3, 5, inner, z, 1);
    }
}

/// `||`, `&&`, `+` and `-` group from the left: in `x ⊕ y ⊗ z` with property
/// operands and two operators of the same one of these levels, the first
/// operator is applied first, giving `(x ⊕ y) ⊗ z`.
pub proof fn repeated_operators_group_left(inp: ParseInput)
    requires
        inp.tokens.len() == 5,
        inp.error is None,
        inp.tokens[0].kind == TokenKind::Property,
        inp.tokens[2].kind == TokenKind::Property,
        inp.tokens[4].kind == TokenKind::Property,
        binding_level(inp.tokens[1].kind) == binding_level(inp.tokens[3].kind),
        binding_level(inp.tokens[1].kind) == 1 || binding_level(inp.tokens[1].kind) == 2 || binding_level(
            inp.tokens[1].kind,
        ) == 5,
    ensures
        p_filter(inp) == Ok::<ExprView, ParseErrorView>(
            joined(
                inp.tokens[3].kind,
                joined(inp.tokens[1].kind, property_at(inp, 0), property_at(inp, 2)),
                property_at(inp, 4),
            ),
        ),
{
    let level = binding_level(inp.tokens[1].kind);
    let x = property_at(inp, 0);
    let y = property_at(inp, 2);
    let z = property_at(inp, 4);
    let first = joined(inp.tokens[1].kind, x, y);
    let both = joined(inp.tokens[3].kind, first, z);
    lemma_operand_stops(inp, 0, level + 1);
    lemma_operand_stops(inp, 2, level + 1);
    lemma_operand_stops(inp, 4, level + 1);
    if level == 5 {
        assert(p_term_rest(inp, both, 5) == Ok::<(ExprView, int), ParseErrorView>((both, 5)));
        assert(p_term_rest(inp, first, 3) == Ok::<(ExprView, int), ParseErrorView>((both, 5)));
        assert(p_term_rest(inp, x, 1) == Ok::<(ExprView, int), ParseErrorView>((both, 5)));
    } else if level == 2 {
        assert(p_and_rest(inp, both, 5) == Ok::<(ExprView, int), ParseErrorView>((both, 5)));
        assert(p_and_rest(inp, first, 3) == Ok::<(ExprView, int), ParseErrorView>((both, 5)));
        assert(p_and_rest(inp, x, 1) == Ok::<(ExprView, int), ParseErrorView>((both, 5)));
    } else {
        assert(p_or_rest(inp, both, 5) == Ok::<(ExprView, int), ParseErrorView>((both, 5)));
        assert(p_or_rest(inp, first, 3) == Ok::<(ExprView, int), ParseErrorView>((both, 5)));
        assert(p_or_rest(inp, x, 1) == Ok::<(ExprView, int), ParseErrorView>((both, 5)));
    }
    assert(parse_at_level(inp, level, 0) == Ok::<(ExprView, int), ParseErrorView>((both, 5)));
    lemma_passes_through(inp, 0, 5, both, 1, level);
}

/// Equalities and comparisons do not chain: in `x ⊕ y ⊗ z` with property
/// operands and two operators which are both equalities (`==`, `!=`) or both
/// comparisons, the second operator is reported as an unexpected token.
pub proof fn comparisons_do_not_chain(inp: ParseInput)
    requires
        inp.tokens.len() == 5,
        inp.tokens[0].kind == TokenKind::Property,
        inp.tokens[2].kind == TokenKind::Property,
        inp.tokens[4].kind == TokenKind::Property,
        binding_level(inp.tokens[1].kind) == binding_level(inp.tokens[3].kind),
        binding_level(inp.tokens[1].kind) == 3 || binding_level(inp.tokens[1].kind) == 4,
    ensures
        p_filter(inp) == Err::<ExprView, ParseErrorView>(ParseErrorView::TrailingToken(inp.tokens[3])),
{
    let level = binding_level(inp.tokens[1].kind);
    let x = property_at(inp, 0);
    let y = property_at(inp, 2);
    let first = joined(inp.tokens[1].kind, x, y);
    lemma_operand_stops(inp, 0, level + 1);
    lemma_operand_stops(inp, 2, level + 1);
    if level == 4 {
        assert(p_comparison(inp, 0) == Ok::<(ExprView, int), ParseErrorView>((first, 3)));
    }
    assert(p_equality(inp, 0) == Ok::<(ExprView, int), ParseErrorView>((first, 3)));
    assert(p_and_rest(inp, first, 3) == Ok::<(ExprView, int), ParseErrorView>((first, 3)));
    assert(p_and(inp, 0) == Ok::<(ExprView, int), ParseErrorView>((first, 3)));
    assert(p_or_rest(inp, first, 3) == Ok::<(ExprView, int), ParseErrorView>((first, 3)));
    assert(p_or(inp, 0) == Ok::<(ExprView, int), ParseErrorView>((first, 3)));
}


/// The view of the result of parsing from some position.
pub open spec fn parsed_view(r: Result<(Expr, usize), ParseError>) -> Parsed {
    match r {
        Ok((e, q)) => Ok((e@, q as int)),
        Err(e) => Err(e@),
    }
}

/// The view of the result of reading a literal.
pub open spec fn literal_result_view(r: Result<Literal, ParseError>) -> Result<LiteralView, ParseErrorView> {
    match r {
        Ok(v) => Ok(v@),
        Err(e) => Err(e@),
    }
}

/// The view of the result of reading a pattern.
pub open spec fn pattern_result_view(r: Result<String, ParseError>) -> Result<Seq<char>, ParseErrorView> {
    match r {
        Ok(s) => Ok(s@),
        Err(e) => Err(e@),
    }
}

/// The views of a sequence of expressions.
pub open spec fn trees(args: Seq<Expr>) -> Seq<ExprView> {
    Seq::new(args.len(), |i: int| args[i].tree())
}

/// The views of a sequence of literals.
pub open spec fn literal_views(items: Seq<Literal>) -> Seq<LiteralView> {
    Seq::new(items.len(), |i: int| items[i].literal_view())
}

/// Replaces every occurrence of `from` in `s`, left to right, by `to`.
fn replace_all_chars(s: &Vec<char>, from: &Vec<char>, to: &Vec<char>) -> (r: Vec<char>)
    requires
        from.len() > 0,
    ensures
        r@ == replace_all(s@, from@, to@),
{
    let mut out: Vec<char> = Vec::new();
    let mut i: usize = 0;
    proof {
        assert(s@.skip(0) =~= s@);
    }
    while i < s.len()
        invariant
            0 <= i <= s.len(),
            from.len() > 0,
            replace_all(s@, from@, to@) == out@ + replace_all(s@.skip(i as int), from@, to@),
        decreases s.len() - i,
    {
        let ghost rest = s@.skip(i as int);
        if is_char_prefix(s, i, from) {
            crate::unicode::append_chars(&mut out, to);
            proof {
                assert(rest.skip(from.len() as int) =~= s@.skip(i + from.len()));
                vstd::seq_lib::lemma_concat_associative(out@.subrange(0, out@.len() - to@.len()), to@, replace_all(s@.skip(i + from.len()), from@, to@));
            }
            i += from.len();
        } else {
            let ghost before = out@;
            out.push(s[i]);
            proof {
                assert(rest[0] == s@[i as int]);
                assert(rest.skip(1) =~= s@.skip(i + 1));
                vstd::seq_lib::lemma_concat_associative(before, seq![s@[i as int]], replace_all(s@.skip(i + 1), from@, to@));
            }
            i += 1;
        }
    }
    proof {
        assert(s@.skip(i as int) =~= Seq::<char>::empty());
        assert(out@ + Seq::<char>::empty() == out@);
    }
    out
}

/// The value of a string literal's text (see [`unescape`]).
fn unescape_text(s: &String) -> (r: String)
    ensures
        r@ == unescape(s@),
{
    let chars = chars_of(s.as_str());
    let quote_from = vec!['\\', '"'];
    let quote_to = vec!['"'];
    let slash_from = vec!['\\', '\\'];
    let slash_to = vec!['\\'];
    proof {
        assert(quote_from@ == seq!['\\', '"']);
        assert(quote_to@ == seq!['"']);
        assert(slash_from@ == seq!['\\', '\\']);
        assert(slash_to@ == seq!['\\']);
    }
    let once = replace_all_chars(&chars, &quote_from, &quote_to);
    let twice = replace_all_chars(&once, &slash_from, &slash_to);
    string_from_chars(&twice)
}

/// The end of the run of ASCII digits in `s` from index `i` on (see [`digits_end`]).
fn digits_end_of(s: &Vec<char>, i: usize) -> (e: usize)
    requires
        i <= s.len(),
    ensures
        e == digits_end(s@, i as int),
        i <= e <= s.len(),
{
    let mut e = i;
    while e < s.len() && '0' <= s[e] && s[e] <= '9'
        invariant
            i <= e <= s.len(),
            digits_end(s@, i as int) == digits_end(s@, e as int),
        decreases s.len() - e,
    {
        e += 1;
    }
    e
}

/// Whether `c` is the small ASCII letter `l`, or its capital (see [`letter_is`]).
fn is_letter(c: char, l: char) -> (r: bool)
    ensures
        r == letter_is(c, l),
{
    c == l || (c as u32) + 32 == (l as u32)
}

/// Whether `s` from index `i` on is the word `w`, in any case (see [`caseless_rest`]).
fn is_caseless_rest(s: &Vec<char>, i: usize, w: &Vec<char>) -> (r: bool)
    requires
        i <= s.len(),
    ensures
        r == caseless_rest(s@, i as int, w@),
{
    if s.len() - i != w.len() {
        return false;
    }
    let mut k: usize = 0;
    while k < w.len()
        invariant
            0 <= k <= w.len(),
            s.len() - i == w.len(),
            forall|m: int| 0 <= m < k ==> letter_is(#[trigger] s@[i + m], w@[m]),
        decreases w.len() - k,
    {
        if !is_letter(s[i + k], w[k]) {
            return false;
        }
        k += 1;
    }
    true
}

/// The length of a sign at index `i` of `s` (see [`sign_len`]).
fn sign_len_of(s: &Vec<char>, i: usize) -> (n: usize)
    ensures
        n == sign_len(s@, i as int),
{
    if i < s.len() && (s[i] == '+' || s[i] == '-') {
        1
    } else {
        0
    }
}

/// Whether `s` is the text of a float (see [`float_text`]).
fn is_float_text(s: &String) -> (r: bool)
    ensures
        r == float_text(s@),
{
    let chars = chars_of(s.as_str());
    let n = chars.len();
    let a = sign_len_of(&chars, 0);
    if is_caseless_rest(&chars, a, &vec!['i', 'n', 'f']) || is_caseless_rest(
        &chars,
        a,
        &vec!['i', 'n', 'f', 'i', 'n', 'i', 't', 'y'],
    ) || is_caseless_rest(&chars, a, &vec!['n', 'a', 'n']) {
        return true;
    }
    let d1 = digits_end_of(&chars, a);
    let point = d1 < n && chars[d1] == '.';
    let d2 = if point {
        digits_end_of(&chars, d1 + 1)
    } else {
        d1
    };
    let mantissa_digits = (d1 - a) + (d2 - d1) - (if point {
        1
    } else {
        0
    });
    if mantissa_digits == 0 {
        return false;
    }
    if d2 == n {
        return true;
    }
    if !is_letter(chars[d2], 'e') {
        return false;
    }
    let b = d2 + 1 + sign_len_of(&chars, d2 + 1);
    let d3 = digits_end_of(&chars, b);
    b < d3 && d3 == n
}

/// The error which rejects the duration literal `text` at `loc`, if any (see
/// [`duration_error`]).
fn duration_check(loc: Loc, text: &String) -> (r: Option<ParseError>)
    ensures
        match r {
            Some(e) => duration_error(segments(text@, 0), loc, text@) == Some(e@),
            None => duration_error(segments(text@, 0), loc, text@) is None,
        },
{
    let segs = duration_segments(text.as_str());
    let ghost all = segs@.map_values(|g: DurationSegment| g@);
    let mut i: usize = 0;
    proof {
        assert(all.skip(0) =~= all);
    }
    while i < segs.len()
        invariant
            0 <= i <= segs.len(),
            all == segs@.map_values(|g: DurationSegment| g@),
            all == segments(text@, 0),
            duration_error(all, loc, text@) == duration_error(all.skip(i as int), loc, text@),
        decreases segs.len() - i,
    {
        proof {
            assert(all.skip(i as int).drop_first() =~= all.skip(i + 1));
            assert(all.skip(i as int)[0] == segs@[i as int]@);
        }
        let g = &segs[i];
        if !is_float_text(&g.number) {
            return Some(ParseError::InvalidDuration(loc, text.clone()));
        }
        match &g.unit_ms {
            None => {
                return Some(ParseError::UnknownDurationUnit(loc, text.clone(), g.unit.clone()));
            },
            Some(_) => {},
        }
        i += 1;
    }
    proof {
        assert(all.skip(i as int) =~= Seq::<SegmentView>::empty());
    }
    None
}

/// A parser over the tokens of one filter expression.
pub struct Parser {
    tokens: Vec<Token>,
    error: Option<LexError>,
    functions: Vec<FunctionSignature>,
}

impl Parser {
    /// What this parser reads.
    pub closed spec fn input(&self) -> ParseInput {
        ParseInput {
            tokens: self.tokens@.map_values(|t: Token| t@),
            error: self.error,
            functions: self.functions@.map_values(|f: FunctionSignature| (f.name@, f.arity as nat)),
        }
    }

    /// The number of tokens.
    pub closed spec fn len(&self) -> int {
        self.tokens.len() as int
    }

    /// Parses a complete filter expression from the scanner's tokens and the
    /// scanning error which ends them (if any), resolving function calls
    /// against `functions`.
    pub fn parse(tokens: Vec<Token>, error: Option<LexError>, functions: Vec<FunctionSignature>) -> (r: Result<Expr, ParseError>)
        ensures
            match r {
                Ok(e) => p_filter(parse_input(tokens@, error, functions@)) == Ok::<ExprView, ParseErrorView>(e@),
                Err(e) => p_filter(parse_input(tokens@, error, functions@)) == Err::<ExprView, ParseErrorView>(e@),
            },
            r is Ok ==> error is None,
            r matches Ok(e) ==> parse_checked(e@, parse_input(tokens@, error, functions@).functions),
    {
        let parser = Parser { tokens, error, functions };
        proof {
            assert(parser.input() == parse_input(parser.tokens@, error, parser.functions@));
        }
        let (expr, q) = match parser.or(0) {
            Ok(x) => x,
            Err(e) => return Err(e),
        };
        if q < parser.tokens.len() {
            Err(ParseError::TrailingToken(parser.tokens[q].duplicate()))
        } else {
            match parser.error {
                Some(e) => Err(ParseError::Lex(e)),
                None => Ok(expr),
            }
        }
    }

    /// Whether a token of kind `k` stands at position `p`.
    fn is_at(&self, p: usize, k: TokenKind) -> (r: bool)
        ensures
            r == at(self.input(), p as int, k),
            r ==> p < self.len(),
    {
        p < self.tokens.len() && self.tokens[p].kind() == k
    }

    /// `or := and ("||" and)*` (see [`p_or`]).
    fn or(&self, p: usize) -> (r: Result<(Expr, usize), ParseError>)
        requires
            p <= self.len(),
        ensures
            parsed_view(r) == p_or(self.input(), p as int),
            r matches Ok((_, q)) ==> p < q <= self.len(),
            r matches Ok((e, _)) ==> parse_checked(e@, self.input().functions),
        decreases self.len() - p, 20int,
    {
        let (mut expr, mut q) = match self.and(p) {
            Ok(x) => x,
            Err(e) => return Err(e),
        };
        loop
            invariant
                p < q <= self.len(),
                p_or(self.input(), p as int) == p_or_rest(self.input(), expr@, q as int),
                parse_checked(expr@, self.input().functions),
            decreases self.len() - q,
        {
            if self.is_at(q, TokenKind::Or) {
                let op = self.tokens[q].as_logical_operator();
                match self.and(q + 1) {
                    Ok((r, q2)) => {
                        expr = Expr::Logical(Box::new(expr), op, Box::new(r));
                        q = q2;
                    },
                    Err(e) => return Err(e),
                }
            } else {
                return Ok((expr, q));
            }
        }
    }

    /// `and := equality ("&&" equality)*` (see [`p_and`]).
    fn and(&self, p: usize) -> (r: Result<(Expr, usize), ParseError>)
        requires
            p <= self.len(),
        ensures
            parsed_view(r) == p_and(self.input(), p as int),
            r matches Ok((_, q)) ==> p < q <= self.len(),
            r matches Ok((e, _)) ==> parse_checked(e@, self.input().functions),
        decreases self.len() - p, 19int,
    {
        let (mut expr, mut q) = match self.equality(p) {
            Ok(x) => x,
            Err(e) => return Err(e),
        };
        loop
            invariant
                p < q <= self.len(),
                p_and(self.input(), p as int) == p_and_rest(self.input(), expr@, q as int),
                parse_checked(expr@, self.input().functions),
            decreases self.len() - q,
        {
            if self.is_at(q, TokenKind::And) {
                let op = self.tokens[q].as_logical_operator();
                match self.equality(q + 1) {
                    Ok((r, q2)) => {
                        expr = Expr::Logical(Box::new(expr), op, Box::new(r));
                        q = q2;
                    },
                    Err(e) => return Err(e),
                }
            } else {
                return Ok((expr, q));
            }
        }
    }

    /// `equality := comparison (("==" | "!=") comparison)?` (see [`p_equality`]).
    fn equality(&self, p: usize) -> (r: Result<(Expr, usize), ParseError>)
        requires
            p <= self.len(),
        ensures
            parsed_view(r) == p_equality(self.input(), p as int),
            r matches Ok((_, q)) ==> p < q <= self.len(),
            r matches Ok((e, _)) ==> parse_checked(e@, self.input().functions),
        decreases self.len() - p, 17int,
    {
        let (expr, q) = match self.comparison(p) {
            Ok(x) => x,
            Err(e) => return Err(e),
        };
        if self.is_at(q, TokenKind::Equals) || self.is_at(q, TokenKind::NotEquals) {
            let op = self.tokens[q].as_binary_operator();
            match self.comparison(q + 1) {
                Ok((r, q2)) => Ok((Expr::Binary(Box::new(expr), op, Box::new(r)), q2)),
                Err(e) => Err(e),
            }
        } else {
            Ok((expr, q))
        }
    }

    /// The pattern of a `like`, `like_cs` or `matches` operator (see [`p_pattern`]).
    fn pattern_literal(&self, p: usize, operator: &Token) -> (r: Result<String, ParseError>)
        ensures
            pattern_result_view(r) == p_pattern(self.input(), p as int, operator@),
    {
        if p < self.tokens.len() {
            let t = &self.tokens[p];
            match t {
                Token::String(_, s) => Ok(unescape_text(s)),
                Token::RawString(_, s) => Ok(s.clone()),
                _ => Err(ParseError::PatternNotLiteral(operator.duplicate(), t.duplicate())),
            }
        } else {
            match self.error {
                Some(e) => Err(ParseError::Lex(e)),
                None => Err(ParseError::PatternMissing(operator.duplicate())),
            }
        }
    }

    /// `comparison` (see [`p_comparison`]).
    #[verifier::rlimit(40)]
    fn comparison(&self, p: usize) -> (r: Result<(Expr, usize), ParseError>)
        requires
            p <= self.len(),
        ensures
            parsed_view(r) == p_comparison(self.input(), p as int),
            r matches Ok((_, q)) ==> p < q <= self.len(),
            r matches Ok((e, _)) ==> parse_checked(e@, self.input().functions),
        decreases self.len() - p, 16int,
    {
        let (expr, q) = match self.term(p) {
            Ok(x) => x,
            Err(e) => return Err(e),
        };
        if q >= self.tokens.len() {
            return Ok((expr, q));
        }
        let t = &self.tokens[q];
        let kind = t.kind();
        if kind == TokenKind::In || kind == TokenKind::InCs || kind == TokenKind::Contains
            || kind == TokenKind::ContainsCs || kind == TokenKind::StartsWith
            || kind == TokenKind::StartsWithCs || kind == TokenKind::EndsWith
            || kind == TokenKind::EndsWithCs || kind == TokenKind::GreaterThan
            || kind == TokenKind::GreaterEqual || kind == TokenKind::SmallerThan
            || kind == TokenKind::SmallerEqual {
            let op = t.as_binary_operator();
            match self.term(q + 1) {
                Ok((r, q2)) => Ok((Expr::Binary(Box::new(expr), op, Box::new(r)), q2)),
                Err(e) => Err(e),
            }
        } else if kind == TokenKind::Like || kind == TokenKind::LikeCs {
            match self.pattern_literal(q + 1, t) {
                Ok(pattern) => {
                    let glob = if kind == TokenKind::LikeCs {
                        Glob::compile_cs(pattern.as_str())
                    } else {
                        Glob::compile(pattern.as_str())
                    };
                    Ok((Expr::Like(Box::new(expr), glob), q + 2))
                },
                Err(e) => Err(e),
            }
        } else if kind == TokenKind::Matches {
            match self.pattern_literal(q + 1, t) {
                Ok(pattern) => match CompiledRegex::compile(pattern.as_str()) {
                    Ok(regex) => Ok((Expr::Matches(Box::new(expr), regex), q + 2)),
                    Err(_) => {
                        let details = regex_error_of(pattern.as_str());
                        Err(ParseError::InvalidRegex(t.location(), pattern, details))
                    },
                },
                Err(e) => Err(e),
            }
        } else {
            Ok((expr, q))
        }
    }

    /// `term := unary (("+" | "-") unary)*` (see [`p_term`]).
    fn term(&self, p: usize) -> (r: Result<(Expr, usize), ParseError>)
        requires
            p <= self.len(),
        ensures
            parsed_view(r) == p_term(self.input(), p as int),
            r matches Ok((_, q)) ==> p < q <= self.len(),
            r matches Ok((e, _)) ==> parse_checked(e@, self.input().functions),
        decreases self.len() - p, 15int,
    {
        let (mut expr, mut q) = match self.unary(p) {
            Ok(x) => x,
            Err(e) => return Err(e),
        };
        loop
            invariant
                p < q <= self.len(),
                p_term(self.input(), p as int) == p_term_rest(self.input(), expr@, q as int),
                parse_checked(expr@, self.input().functions),
            decreases self.len() - q,
        {
            if self.is_at(q, TokenKind::Plus) || self.is_at(q, TokenKind::Minus) {
                let op = self.tokens[q].as_binary_operator();
                match self.unary(q + 1) {
                    Ok((r, q2)) => {
                        expr = Expr::Binary(Box::new(expr), op, Box::new(r));
                        q = q2;
                    },
                    Err(e) => return Err(e),
                }
            } else {
                return Ok((expr, q));
            }
        }
    }

    /// `unary := "!" unary | primary` (see [`p_unary`]).
    fn unary(&self, p: usize) -> (r: Result<(Expr, usize), ParseError>)
        requires
            p <= self.len(),
        ensures
            parsed_view(r) == p_unary(self.input(), p as int),
            r matches Ok((_, q)) ==> p < q <= self.len(),
            r matches Ok((e, _)) ==> parse_checked(e@, self.input().functions),
        decreases self.len() - p, 14int,
    {
        if self.is_at(p, TokenKind::Not) {
            let op = self.tokens[p].as_unary_operator();
            match self.unary(p + 1) {
                Ok((r, q)) => Ok((Expr::Unary(op, Box::new(r)), q)),
                Err(e) => Err(e),
            }
        } else {
            self.primary(p)
        }
    }

    /// The literal which the token at `p` stands for (see [`p_literal`]).
    fn literal(&self, p: usize) -> (r: Result<Literal, ParseError>)
        ensures
            literal_result_view(r) == p_literal(self.input(), p as int),
            r is Ok ==> p < self.len(),
    {
        if p < self.tokens.len() {
            let t = &self.tokens[p];
            match t {
                Token::True(..) => Ok(Literal::Bool(true)),
                Token::False(..) => Ok(Literal::Bool(false)),
                Token::Null(..) => Ok(Literal::Null),
                Token::Number(loc, n) => if is_float_text(n) {
                    Ok(Literal::Number(n.clone()))
                } else {
                    Err(ParseError::InvalidNumber(*loc, n.clone()))
                },
                Token::String(_, s) => Ok(Literal::String(unescape_text(s))),
                Token::RawString(_, s) => Ok(Literal::String(s.clone())),
                Token::Duration(loc, d) => match duration_check(*loc, d) {
                    Some(e) => Err(e),
                    None => Ok(Literal::Duration(d.clone())),
                },
                _ => Err(ParseError::UnexpectedToken(t.duplicate())),
            }
        } else {
            match self.error {
                Some(e) => Err(ParseError::Lex(e)),
                None => Err(ParseError::UnexpectedEnd),
            }
        }
    }

    /// `primary` (see [`p_primary`]).
    #[verifier::rlimit(40)]
    fn primary(&self, p: usize) -> (r: Result<(Expr, usize), ParseError>)
        requires
            p <= self.len(),
        ensures
            parsed_view(r) == p_primary(self.input(), p as int),
            r matches Ok((_, q)) ==> p < q <= self.len(),
            r matches Ok((e, _)) ==> parse_checked(e@, self.input().functions),
        decreases self.len() - p, 13int,
    {
        if p >= self.tokens.len() {
            return match self.error {
                Some(e) => Err(ParseError::Lex(e)),
                None => Err(ParseError::UnexpectedEnd),
            };
        }
        let t = &self.tokens[p];
        match t {
            Token::LeftParen(loc) => {
                match self.or(p + 1) {
                    Ok((e, q)) => if self.is_at(q, TokenKind::RightParen) {
                        Ok((e, q + 1))
                    } else {
                        Err(ParseError::UnclosedGroup(*loc))
                    },
                    Err(e) => Err(e),
                }
            },
            Token::LeftBracket(loc) => self.list(p + 1, *loc),
            Token::Property(loc, name) => {
                if self.is_at(p + 1, TokenKind::LeftParen) {
                    self.call(name, *loc, p + 2)
                } else {
                    Ok((Expr::Property(name.clone()), p + 1))
                }
            },
            _ => match self.literal(p) {
                Ok(v) => Ok((Expr::Literal(v), p + 1)),
                Err(e) => Err(e),
            },
        }
    }

    /// The rest of a tuple opened at `loc` (see [`p_list`]).
    fn list(&self, p: usize, loc: Loc) -> (r: Result<(Expr, usize), ParseError>)
        requires
            p <= self.len(),
        ensures
            parsed_view(r) == p_list(self.input(), p as int, Seq::empty(), loc),
            r matches Ok((_, q)) ==> p < q <= self.len(),
            r matches Ok((e, _)) ==> parse_checked(e@, self.input().functions),
    {
        let mut items: Vec<Literal> = Vec::new();
        let mut q = p;
        proof {
            assert(literal_views(items@) =~= Seq::<LiteralView>::empty());
        }
        loop
            invariant
                p <= q <= self.len(),
                p_list(self.input(), p as int, Seq::empty(), loc) == p_list(self.input(), q as int, literal_views(items@), loc),
            decreases self.len() - q,
        {
            if self.is_at(q, TokenKind::RightBracket) {
                proof {
                    lemma_tuple_view(items);
                }
                return Ok((Expr::Literal(Literal::Tuple(items)), q + 1));
            }
            match self.literal(q) {
                Ok(v) => {
                    let ghost before = literal_views(items@);
                    let ghost vv = v@;
                    items.push(v);
                    proof {
                        assert(literal_views(items@) =~= before.push(vv));
                    }
                    if self.is_at(q + 1, TokenKind::Comma) {
                        q = q + 2;
                    } else if self.is_at(q + 1, TokenKind::RightBracket) {
                        proof {
                            lemma_tuple_view(items);
                        }
                        return Ok((Expr::Literal(Literal::Tuple(items)), q + 2));
                    } else {
                        return Err(ParseError::UnclosedList(loc));
                    }
                },
                Err(e) => return Err(e),
            }
        }
    }

    /// The index of the first callable function named `name`.
    fn find_function(&self, name: &String) -> (r: Option<usize>)
        ensures
            r matches Some(i) ==> i < self.functions.len(),
            match r {
                Some(i) => find_function(self.input(), name@, 0) == Some(i as int),
                None => find_function(self.input(), name@, 0) is None,
            },
    {
        let target = chars_of(name.as_str());
        let mut i: usize = 0;
        while i < self.functions.len()
            invariant
                0 <= i <= self.functions.len(),
                target@ == name@,
                find_function(self.input(), name@, 0) == find_function(self.input(), name@, i as int),
            decreases self.functions.len() - i,
        {
            let candidate = chars_of(self.functions[i].name.as_str());
            let same = candidate.len() == target.len() && is_char_prefix(&candidate, 0, &target);
            proof {
                assert(candidate@.skip(0) == candidate@);
                if same {
                    assert(candidate@ =~= target@);
                }
            }
            if same {
                return Some(i);
            }
            i += 1;
        }
        None
    }

    /// The names of the callable functions, in order.
    fn names(&self) -> (r: Vec<String>)
        ensures
            r@.map_values(|s: String| s@) == function_names(self.input()),
    {
        let mut out: Vec<String> = Vec::new();
        let mut i: usize = 0;
        while i < self.functions.len()
            invariant
                0 <= i <= self.functions.len(),
                out@.map_values(|s: String| s@) == function_names(self.input()).take(i as int),
            decreases self.functions.len() - i,
        {
            let ghost before = out@;
            let name = self.functions[i].name.clone();
            out.push(name);
            i += 1;
            proof {
                assert(out@ == before.push(name));
                assert(out@.map_values(|s: String| s@) =~= before.map_values(|s: String| s@).push(name@));
                assert(function_names(self.input())[i - 1] == self.functions@[i - 1].name@);
                assert(function_names(self.input()).take(i as int) =~= function_names(self.input()).take(i - 1).push(name@));
            }
        }
        proof {
            assert(function_names(self.input()).take(i as int) == function_names(self.input()));
        }
        out
    }

    /// A call of `name` at `loc` with `args`, ending just before `q` (see [`p_resolve`]).
    fn resolve(&self, name: &String, loc: Loc, args: Vec<Expr>, q: usize) -> (r: Result<(Expr, usize), ParseError>)
        requires
            forall|k: int| 0 <= k < args.len() ==> parse_checked(#[trigger] trees(args@)[k], self.input().functions),
        ensures
            parsed_view(r) == p_resolve(self.input(), name@, loc, trees(args@), q as int),
            r matches Ok((_, q2)) ==> q2 == q,
            r matches Ok((e, _)) ==> parse_checked(e@, self.input().functions),
    {
        match self.find_function(name) {
            Some(i) => {
                proof {
                    lemma_find_function(self.input(), name@, 0);
                }
                let arity = self.functions[i].arity;
                if arity == args.len() {
                    let ghost v = trees(args@);
                    let e = Expr::FunctionCall(name.clone(), args);
                    proof {
                        lemma_call_view(e);
                        assert(self.input().functions[i as int] == (name@, v.len()));
                    }
                    Ok((e, q))
                } else {
                    Err(ParseError::WrongArity(name.clone(), loc, arity, args.len()))
                }
            },
            None => Err(ParseError::UnknownFunction(name.clone(), loc, self.names())),
        }
    }

    /// A call of `name` at `loc` whose arguments start at `p` (see [`p_call`]).
    fn call(&self, name: &String, loc: Loc, p: usize) -> (r: Result<(Expr, usize), ParseError>)
        requires
            p <= self.len(),
        ensures
            parsed_view(r) == p_call(self.input(), name@, loc, p as int),
            r matches Ok((_, q)) ==> p < q <= self.len(),
            r matches Ok((e, _)) ==> parse_checked(e@, self.input().functions),
        decreases self.len() - p, 23int,
    {
        if self.is_at(p, TokenKind::RightParen) {
            let none: Vec<Expr> = Vec::new();
            proof {
                assert(trees(none@) =~= Seq::<ExprView>::empty());
            }
            return self.resolve(name, loc, none, p + 1);
        }
        let mut args: Vec<Expr> = Vec::new();
        let mut q = p;
        proof {
            assert(trees(args@) =~= Seq::<ExprView>::empty());
        }
        loop
            invariant
                p <= q <= self.len(),
                !at(self.input(), p as int, TokenKind::RightParen),
                p_call(self.input(), name@, loc, p as int) == p_args(self.input(), name@, loc, trees(args@), q as int),
                forall|k: int| 0 <= k < args.len() ==> parse_checked(#[trigger] trees(args@)[k], self.input().functions),
            decreases self.len() - q,
        {
            match self.or(q) {
                Ok((a, q1)) => {
                    let ghost before = trees(args@);
                    let ghost av = a@;
                    args.push(a);
                    proof {
                        assert(trees(args@) =~= before.push(av));
                        assert forall|k: int| 0 <= k < args.len() implies parse_checked(#[trigger] trees(args@)[k], self.input().functions) by {
                            if k < args.len() - 1 {
                                assert(trees(args@)[k] == before[k]);
                            }
                        }
                    }
                    if self.is_at(q1, TokenKind::Comma) {
                        q = q1 + 1;
                    } else if q1 < self.tokens.len() {
                        if self.is_at(q1, TokenKind::RightParen) {
                            return self.resolve(name, loc, args, q1 + 1);
                        } else {
                            return Err(ParseError::UnclosedCall(name.clone(), loc));
                        }
                    } else {
                        return match self.error {
                            Some(e) => Err(ParseError::Lex(e)),
                            None => Err(ParseError::UnclosedCall(name.clone(), loc)),
                        };
                    }
                },
                Err(e) => return Err(e),
            }
        }
    }
}

/// A tuple literal is seen as the tuple of its items' views.
proof fn lemma_tuple_view(items: Vec<Literal>)
    ensures
        Expr::Literal(Literal::Tuple(items))@ == ExprView::Literal(LiteralView::Tuple(literal_views(items@))),
{
    let e = Expr::Literal(Literal::Tuple(items));
    assert(e@ matches ExprView::Literal(LiteralView::Tuple(s)) && s =~= literal_views(items@));
}

/// A function call is seen as its name and its arguments' views.
proof fn lemma_call_view(e: Expr)
    requires
        e is FunctionCall,
    ensures
        e@ == ExprView::FunctionCall(e->FunctionCall_0@, trees(e->FunctionCall_1@)),
{
    assert(e@ matches ExprView::FunctionCall(n, a) && a =~= trees(e->FunctionCall_1@));
}

/// The parser's input built from the scanner's tokens, the error ending
/// them, and the callable functions.
pub open spec fn parse_input(tokens: Seq<Token>, error: Option<LexError>, functions: Seq<FunctionSignature>) -> ParseInput {
    ParseInput {
        tokens: tokens.map_values(|t: Token| t@),
        error,
        functions: functions.map_values(|f: FunctionSignature| (f.name@, f.arity as nat)),
    }
}

} // verus!
