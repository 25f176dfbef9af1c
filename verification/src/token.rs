//! Lexical tokens produced by the scanner.

use vstd::prelude::*;

use crate::location::Loc;
use crate::operator::{BinaryOperator, LogicalOperator, UnaryOperator};
use crate::unicode::{chars_of, string_from_chars, append_chars};

verus! {

/// A lexical token produced by the scanner.
///
/// Every variant carries the source [`Loc`] at which it was found. The
/// operator tokens are converted into [`BinaryOperator`], [`LogicalOperator`],
/// and [`UnaryOperator`] before being stored in a parsed expression tree.
#[derive(Debug, Clone, PartialEq)]
pub enum Token {
    /// An opening parenthesis `(`.
    LeftParen(Loc),
    /// A closing parenthesis `)`.
    RightParen(Loc),
    /// An opening bracket `[` (start of a tuple literal).
    LeftBracket(Loc),
    /// A closing bracket `]` (end of a tuple literal).
    RightBracket(Loc),
    /// A comma `,` separating tuple elements or function arguments.
    Comma(Loc),
    /// A property reference, carrying the property's name.
    Property(Loc, String),
    /// The `null` literal.
    Null(Loc),
    /// The `true` literal.
    True(Loc),
    /// The `false` literal.
    False(Loc),
    /// A double-quoted string literal, carrying its contents as written
    /// (escape sequences are processed by the parser).
    String(Loc, String),
    /// A raw string literal `r"..."`, carrying its verbatim contents.
    RawString(Loc, String),
    /// A numeric literal, carrying its source text.
    Number(Loc, String),
    /// A duration literal such as `5m` or `1h30m`, carrying its source text.
    Duration(Loc, String),
    /// The equality operator `==`.
    Equals(Loc),
    /// The inequality operator `!=`.
    NotEquals(Loc),
    /// The `contains` operator (case-insensitive).
    Contains(Loc),
    /// The `contains_cs` operator (case-sensitive).
    ContainsCs(Loc),
    /// The `in` operator (case-insensitive).
    In(Loc),
    /// The `in_cs` operator (case-sensitive).
    InCs(Loc),
    /// The `startswith` operator (case-insensitive).
    StartsWith(Loc),
    /// The `startswith_cs` operator (case-sensitive).
    StartsWithCs(Loc),
    /// The `endswith` operator (case-insensitive).
    EndsWith(Loc),
    /// The `endswith_cs` operator (case-sensitive).
    EndsWithCs(Loc),
    /// The `like` glob-match operator (case-insensitive).
    Like(Loc),
    /// The `like_cs` glob-match operator (case-sensitive).
    LikeCs(Loc),
    /// The `matches` regular-expression operator.
    Matches(Loc),
    /// The greater-than operator `>`.
    GreaterThan(Loc),
    /// The less-than operator `<`.
    SmallerThan(Loc),
    /// The greater-than-or-equal operator `>=`.
    GreaterEqual(Loc),
    /// The less-than-or-equal operator `<=`.
    SmallerEqual(Loc),
    /// The addition operator `+`.
    Plus(Loc),
    /// The subtraction operator `-`.
    Minus(Loc),
    /// The logical NOT operator `!`.
    Not(Loc),
    /// The logical AND operator `&&`.
    And(Loc),
    /// The logical OR operator `||`.
    Or(Loc),
}

/// The kind of a token, without its location or text.
#[derive(Debug, Clone, Copy, PartialEq, Eq, Structural)]
pub enum TokenKind {
    LeftParen,
    RightParen,
    LeftBracket,
    RightBracket,
    Comma,
    Property,
    Null,
    True,
    False,
    String,
    RawString,
    Number,
    Duration,
    Equals,
    NotEquals,
    Contains,
    ContainsCs,
    In,
    InCs,
    StartsWith,
    StartsWithCs,
    EndsWith,
    EndsWithCs,
    Like,
    LikeCs,
    Matches,
    GreaterThan,
    SmallerThan,
    GreaterEqual,
    SmallerEqual,
    Plus,
    Minus,
    Not,
    And,
    Or,
}

/// The mathematical view of a token: its kind, location, and text (empty
/// for the kinds which carry no text).
pub struct TokenView {
    pub kind: TokenKind,
    pub loc: Loc,
    pub text: Seq<char>,
}

impl TokenKind {
    /// Whether tokens of this kind carry text of their own.
    pub open spec fn has_text(self) -> bool {
        match self {
            TokenKind::Property | TokenKind::String | TokenKind::RawString | TokenKind::Number
            | TokenKind::Duration => true,
            _ => false,
        }
    }

    /// The fixed text of the kinds which carry none of their own.
    pub open spec fn fixed_text(self) -> Seq<char> {
        match self {
            TokenKind::LeftParen => "("@,
            TokenKind::RightParen => ")"@,
            TokenKind::LeftBracket => "["@,
            TokenKind::RightBracket => "]"@,
            TokenKind::Comma => ","@,
            TokenKind::Null => "null"@,
            TokenKind::True => "true"@,
            TokenKind::False => "false"@,
            TokenKind::Equals => "=="@,
            TokenKind::NotEquals => "!="@,
            TokenKind::Contains => "contains"@,
            TokenKind::ContainsCs => "contains_cs"@,
            TokenKind::In => "in"@,
            TokenKind::InCs => "in_cs"@,
            TokenKind::StartsWith => "startswith"@,
            TokenKind::StartsWithCs => "startswith_cs"@,
            TokenKind::EndsWith => "endswith"@,
            TokenKind::EndsWithCs => "endswith_cs"@,
            TokenKind::Like => "like"@,
            TokenKind::LikeCs => "like_cs"@,
            TokenKind::Matches => "matches"@,
            TokenKind::GreaterThan => ">"@,
            TokenKind::GreaterEqual => ">="@,
            TokenKind::SmallerThan => "<"@,
            TokenKind::SmallerEqual => "<="@,
            TokenKind::Plus => "+"@,
            TokenKind::Minus => "-"@,
            TokenKind::Not => "!"@,
            TokenKind::And => "&&"@,
            TokenKind::Or => "||"@,
            _ => Seq::empty(),
        }
    }

    /// The binary operator a token of this kind stands for, if any.
    pub open spec fn binary_operator(self) -> Option<BinaryOperator> {
        match self {
            TokenKind::Equals => Some(BinaryOperator::Equals),
            TokenKind::NotEquals => Some(BinaryOperator::NotEquals),
            TokenKind::GreaterThan => Some(BinaryOperator::GreaterThan),
            TokenKind::SmallerThan => Some(BinaryOperator::SmallerThan),
            TokenKind::GreaterEqual => Some(BinaryOperator::GreaterEqual),
            TokenKind::SmallerEqual => Some(BinaryOperator::SmallerEqual),
            TokenKind::Contains => Some(BinaryOperator::Contains),
            TokenKind::ContainsCs => Some(BinaryOperator::ContainsCs),
            TokenKind::In => Some(BinaryOperator::In),
            TokenKind::InCs => Some(BinaryOperator::InCs),
            TokenKind::StartsWith => Some(BinaryOperator::StartsWith),
            TokenKind::StartsWithCs => Some(BinaryOperator::StartsWithCs),
            TokenKind::EndsWith => Some(BinaryOperator::EndsWith),
            TokenKind::EndsWithCs => Some(BinaryOperator::EndsWithCs),
            TokenKind::Plus => Some(BinaryOperator::Plus),
            TokenKind::Minus => Some(BinaryOperator::Minus),
            _ => None,
        }
    }

    /// The logical operator a token of this kind stands for, if any.
    pub open spec fn logical_operator(self) -> Option<LogicalOperator> {
        match self {
            TokenKind::And => Some(LogicalOperator::And),
            TokenKind::Or => Some(LogicalOperator::Or),
            _ => None,
        }
    }
}

impl TokenView {
    /// The text a token was written as: its own text, or its kind's fixed text.
    pub open spec fn lexeme(self) -> Seq<char> {
        if self.kind.has_text() {
            self.text
        } else {
            self.kind.fixed_text()
        }
    }
}

impl View for Token {
    type V = TokenView;

    open spec fn view(&self) -> TokenView {
        match self {
            Token::LeftParen(l) => TokenView { kind: TokenKind::LeftParen, loc: *l, text: Seq::empty() },
            Token::RightParen(l) => TokenView { kind: TokenKind::RightParen, loc: *l, text: Seq::empty() },
            Token::LeftBracket(l) => TokenView { kind: TokenKind::LeftBracket, loc: *l, text: Seq::empty() },
            Token::RightBracket(l) => TokenView { kind: TokenKind::RightBracket, loc: *l, text: Seq::empty() },
            Token::Comma(l) => TokenView { kind: TokenKind::Comma, loc: *l, text: Seq::empty() },
            Token::Property(l, s) => TokenView { kind: TokenKind::Property, loc: *l, text: s@ },
            Token::Null(l) => TokenView { kind: TokenKind::Null, loc: *l, text: Seq::empty() },
            Token::True(l) => TokenView { kind: TokenKind::True, loc: *l, text: Seq::empty() },
            Token::False(l) => TokenView { kind: TokenKind::False, loc: *l, text: Seq::empty() },
            Token::String(l, s) => TokenView { kind: TokenKind::String, loc: *l, text: s@ },
            Token::RawString(l, s) => TokenView { kind: TokenKind::RawString, loc: *l, text: s@ },
            Token::Number(l, s) => TokenView { kind: TokenKind::Number, loc: *l, text: s@ },
            Token::Duration(l, s) => TokenView { kind: TokenKind::Duration, loc: *l, text: s@ },
            Token::Equals(l) => TokenView { kind: TokenKind::Equals, loc: *l, text: Seq::empty() },
            Token::NotEquals(l) => TokenView { kind: TokenKind::NotEquals, loc: *l, text: Seq::empty() },
            Token::Contains(l) => TokenView { kind: TokenKind::Contains, loc: *l, text: Seq::empty() },
            Token::ContainsCs(l) => TokenView { kind: TokenKind::ContainsCs, loc: *l, text: Seq::empty() },
            Token::In(l) => TokenView { kind: TokenKind::In, loc: *l, text: Seq::empty() },
            Token::InCs(l) => TokenView { kind: TokenKind::InCs, loc: *l, text: Seq::empty() },
            Token::StartsWith(l) => TokenView { kind: TokenKind::StartsWith, loc: *l, text: Seq::empty() },
            Token::StartsWithCs(l) => TokenView { kind: TokenKind::StartsWithCs, loc: *l, text: Seq::empty() },
            Token::EndsWith(l) => TokenView { kind: TokenKind::EndsWith, loc: *l, text: Seq::empty() },
            Token::EndsWithCs(l) => TokenView { kind: TokenKind::EndsWithCs, loc: *l, text: Seq::empty() },
            Token::Like(l) => TokenView { kind: TokenKind::Like, loc: *l, text: Seq::empty() },
            Token::LikeCs(l) => TokenView { kind: TokenKind::LikeCs, loc: *l, text: Seq::empty() },
            Token::Matches(l) => TokenView { kind: TokenKind::Matches, loc: *l, text: Seq::empty() },
            Token::GreaterThan(l) => TokenView { kind: TokenKind::GreaterThan, loc: *l, text: Seq::empty() },
            Token::SmallerThan(l) => TokenView { kind: TokenKind::SmallerThan, loc: *l, text: Seq::empty() },
            Token::GreaterEqual(l) => TokenView { kind: TokenKind::GreaterEqual, loc: *l, text: Seq::empty() },
            Token::SmallerEqual(l) => TokenView { kind: TokenKind::SmallerEqual, loc: *l, text: Seq::empty() },
            Token::Plus(l) => TokenView { kind: TokenKind::Plus, loc: *l, text: Seq::empty() },
            Token::Minus(l) => TokenView { kind: TokenKind::Minus, loc: *l, text: Seq::empty() },
            Token::Not(l) => TokenView { kind: TokenKind::Not, loc: *l, text: Seq::empty() },
            Token::And(l) => TokenView { kind: TokenKind::And, loc: *l, text: Seq::empty() },
            Token::Or(l) => TokenView { kind: TokenKind::Or, loc: *l, text: Seq::empty() },
        }
    }
}

/// An operator token is written as the symbol of the operator it stands for:
/// the parser's operators print back as the text they were read from.
pub proof fn operator_tokens_read_as_their_symbols(t: TokenView)
    ensures
        t.kind.binary_operator() matches Some(op) ==> op.text() == t.lexeme(),
        t.kind.logical_operator() matches Some(op) ==> op.text() == t.lexeme(),
        t.kind == TokenKind::Not ==> UnaryOperator::Not.text() == t.lexeme(),
{
}

/// The number of consecutive `#` characters in `s` starting at index `i`.
pub open spec fn hash_run(s: Seq<char>, i: int) -> nat
    decreases s.len() - i,
{
    if 0 <= i < s.len() && s[i] == '#' {
        1 + hash_run(s, i + 1)
    } else {
        0
    }
}

/// `h` copies of `#`.
pub open spec fn hashes(h: nat) -> Seq<char> {
    Seq::new(h, |_i: int| '#')
}

impl Token {
    /// A copy of this token.
    pub fn duplicate(&self) -> (t: Token)
        ensures
            t@ == self@,
    {
        match self {
            Token::LeftParen(l) => Token::LeftParen(*l),
            Token::RightParen(l) => Token::RightParen(*l),
            Token::LeftBracket(l) => Token::LeftBracket(*l),
            Token::RightBracket(l) => Token::RightBracket(*l),
            Token::Comma(l) => Token::Comma(*l),
            Token::Property(l, s) => Token::Property(*l, s.clone()),
            Token::Null(l) => Token::Null(*l),
            Token::True(l) => Token::True(*l),
            Token::False(l) => Token::False(*l),
            Token::String(l, s) => Token::String(*l, s.clone()),
            Token::RawString(l, s) => Token::RawString(*l, s.clone()),
            Token::Number(l, s) => Token::Number(*l, s.clone()),
            Token::Duration(l, s) => Token::Duration(*l, s.clone()),
            Token::Equals(l) => Token::Equals(*l),
            Token::NotEquals(l) => Token::NotEquals(*l),
            Token::Contains(l) => Token::Contains(*l),
            Token::ContainsCs(l) => Token::ContainsCs(*l),
            Token::In(l) => Token::In(*l),
            Token::InCs(l) => Token::InCs(*l),
            Token::StartsWith(l) => Token::StartsWith(*l),
            Token::StartsWithCs(l) => Token::StartsWithCs(*l),
            Token::EndsWith(l) => Token::EndsWith(*l),
            Token::EndsWithCs(l) => Token::EndsWithCs(*l),
            Token::Like(l) => Token::Like(*l),
            Token::LikeCs(l) => Token::LikeCs(*l),
            Token::Matches(l) => Token::Matches(*l),
            Token::GreaterThan(l) => Token::GreaterThan(*l),
            Token::SmallerThan(l) => Token::SmallerThan(*l),
            Token::GreaterEqual(l) => Token::GreaterEqual(*l),
            Token::SmallerEqual(l) => Token::SmallerEqual(*l),
            Token::Plus(l) => Token::Plus(*l),
            Token::Minus(l) => Token::Minus(*l),
            Token::Not(l) => Token::Not(*l),
            Token::And(l) => Token::And(*l),
            Token::Or(l) => Token::Or(*l),
        }
    }

    /// The text this token carries, for the kinds which carry text.
    pub fn text(&self) -> (s: &String)
        requires
            self@.kind.has_text(),
        ensures
            s@ == self@.text,
    {
        match self {
            Token::Property(_, s) => s,
            Token::String(_, s) => s,
            Token::RawString(_, s) => s,
            Token::Number(_, s) => s,
            Token::Duration(_, s) => s,
            _ => vstd::pervasive::unreached(),
        }
    }

    /// The kind of this token.
    pub fn kind(&self) -> (k: TokenKind)
        ensures
            k == self@.kind,
    {
        match self {
            Token::LeftParen(..) => TokenKind::LeftParen,
            Token::RightParen(..) => TokenKind::RightParen,
            Token::LeftBracket(..) => TokenKind::LeftBracket,
            Token::RightBracket(..) => TokenKind::RightBracket,
            Token::Comma(..) => TokenKind::Comma,
            Token::Property(..) => TokenKind::Property,
            Token::Null(..) => TokenKind::Null,
            Token::True(..) => TokenKind::True,
            Token::False(..) => TokenKind::False,
            Token::String(..) => TokenKind::String,
            Token::RawString(..) => TokenKind::RawString,
            Token::Number(..) => TokenKind::Number,
            Token::Duration(..) => TokenKind::Duration,
            Token::Equals(..) => TokenKind::Equals,
            Token::NotEquals(..) => TokenKind::NotEquals,
            Token::Contains(..) => TokenKind::Contains,
            Token::ContainsCs(..) => TokenKind::ContainsCs,
            Token::In(..) => TokenKind::In,
            Token::InCs(..) => TokenKind::InCs,
            Token::StartsWith(..) => TokenKind::StartsWith,
            Token::StartsWithCs(..) => TokenKind::StartsWithCs,
            Token::EndsWith(..) => TokenKind::EndsWith,
            Token::EndsWithCs(..) => TokenKind::EndsWithCs,
            Token::Like(..) => TokenKind::Like,
            Token::LikeCs(..) => TokenKind::LikeCs,
            Token::Matches(..) => TokenKind::Matches,
            Token::GreaterThan(..) => TokenKind::GreaterThan,
            Token::SmallerThan(..) => TokenKind::SmallerThan,
            Token::GreaterEqual(..) => TokenKind::GreaterEqual,
            Token::SmallerEqual(..) => TokenKind::SmallerEqual,
            Token::Plus(..) => TokenKind::Plus,
            Token::Minus(..) => TokenKind::Minus,
            Token::Not(..) => TokenKind::Not,
            Token::And(..) => TokenKind::And,
            Token::Or(..) => TokenKind::Or,
        }
    }

    /// Returns the textual lexeme this token was parsed from (e.g. `"=="` for
    /// [`Token::Equals`], or the property name for [`Token::Property`]).
    pub fn lexeme(&self) -> (r: &str)
        ensures
            r@ == self@.lexeme(),
    {
        match self {
            Token::LeftParen(..) => "(",
            Token::RightParen(..) => ")",
            Token::LeftBracket(..) => "[",
            Token::RightBracket(..) => "]",
            Token::Comma(..) => ",",
            Token::Property(.., s) => s.as_str(),
            Token::Null(..) => "null",
            Token::True(..) => "true",
            Token::False(..) => "false",
            Token::String(.., s) => s.as_str(),
            Token::RawString(.., s) => s.as_str(),
            Token::Number(.., s) => s.as_str(),
            Token::Duration(.., s) => s.as_str(),
            Token::Equals(..) => "==",
            Token::NotEquals(..) => "!=",
            Token::Contains(..) => "contains",
            Token::ContainsCs(..) => "contains_cs",
            Token::In(..) => "in",
            Token::InCs(..) => "in_cs",
            Token::StartsWith(..) => "startswith",
            Token::StartsWithCs(..) => "startswith_cs",
            Token::EndsWith(..) => "endswith",
            Token::EndsWithCs(..) => "endswith_cs",
            Token::Like(..) => "like",
            Token::LikeCs(..) => "like_cs",
            Token::Matches(..) => "matches",
            Token::GreaterThan(..) => ">",
            Token::GreaterEqual(..) => ">=",
            Token::SmallerThan(..) => "<",
            Token::SmallerEqual(..) => "<=",
            Token::Plus(..) => "+",
            Token::Minus(..) => "-",
            Token::Not(..) => "!",
            Token::And(..) => "&&",
            Token::Or(..) => "||",
        }
    }

    /// Converts a binary-operator token into its [`BinaryOperator`].
    pub fn as_binary_operator(&self) -> (op: BinaryOperator)
        requires
            self@.kind.binary_operator() is Some,
        ensures
            self@.kind.binary_operator() == Some(op),
    {
        match self {
            Token::Equals(..) => BinaryOperator::Equals,
            Token::NotEquals(..) => BinaryOperator::NotEquals,
            Token::GreaterThan(..) => BinaryOperator::GreaterThan,
            Token::SmallerThan(..) => BinaryOperator::SmallerThan,
            Token::GreaterEqual(..) => BinaryOperator::GreaterEqual,
            Token::SmallerEqual(..) => BinaryOperator::SmallerEqual,
            Token::Contains(..) => BinaryOperator::Contains,
            Token::ContainsCs(..) => BinaryOperator::ContainsCs,
            Token::In(..) => BinaryOperator::In,
            Token::InCs(..) => BinaryOperator::InCs,
            Token::StartsWith(..) => BinaryOperator::StartsWith,
            Token::StartsWithCs(..) => BinaryOperator::StartsWithCs,
            Token::EndsWith(..) => BinaryOperator::EndsWith,
            Token::EndsWithCs(..) => BinaryOperator::EndsWithCs,
            Token::Plus(..) => BinaryOperator::Plus,
            _ => BinaryOperator::Minus,
        }
    }

    /// Converts a logical-operator token into its [`LogicalOperator`].
    pub fn as_logical_operator(&self) -> (op: LogicalOperator)
        requires
            self@.kind.logical_operator() is Some,
        ensures
            self@.kind.logical_operator() == Some(op),
    {
        match self {
            Token::And(..) => LogicalOperator::And,
            _ => LogicalOperator::Or,
        }
    }

    /// Converts a unary-operator token (`!`) into its [`UnaryOperator`].
    pub fn as_unary_operator(&self) -> (op: UnaryOperator)
        requires
            self@.kind == TokenKind::Not,
        ensures
            op == UnaryOperator::Not,
    {
        UnaryOperator::Not
    }

    /// Returns the source [`Loc`] at which this token appears.
    pub fn location(&self) -> (l: Loc)
        ensures
            l == self@.loc,
    {
        match self {
            Token::LeftParen(loc) => *loc,
            Token::RightParen(loc) => *loc,
            Token::LeftBracket(loc) => *loc,
            Token::RightBracket(loc) => *loc,
            Token::Comma(loc) => *loc,
            Token::Property(loc, ..) => *loc,
            Token::Null(loc) => *loc,
            Token::True(loc) => *loc,
            Token::False(loc) => *loc,
            Token::String(loc, ..) => *loc,
            Token::RawString(loc, ..) => *loc,
            Token::Number(loc, ..) => *loc,
            Token::Duration(loc, ..) => *loc,
            Token::Equals(loc) => *loc,
            Token::NotEquals(loc) => *loc,
            Token::Contains(loc) => *loc,
            Token::ContainsCs(loc) => *loc,
            Token::In(loc) => *loc,
            Token::InCs(loc) => *loc,
            Token::StartsWith(loc) => *loc,
            Token::StartsWithCs(loc) => *loc,
            Token::EndsWith(loc) => *loc,
            Token::EndsWithCs(loc) => *loc,
            Token::Like(loc) => *loc,
            Token::LikeCs(loc) => *loc,
            Token::Matches(loc) => *loc,
            Token::GreaterThan(loc) => *loc,
            Token::SmallerThan(loc) => *loc,
            Token::GreaterEqual(loc) => *loc,
            Token::SmallerEqual(loc) => *loc,
            Token::Plus(loc) => *loc,
            Token::Minus(loc) => *loc,
            Token::Not(loc) => *loc,
            Token::And(loc) => *loc,
            Token::Or(loc) => *loc,
        }
    }

    /// How the token is shown in messages: string literals in double quotes,
    /// raw strings with their `r` prefix, quotes and the fewest `#`
    /// delimiters that can hold their content, and every other token as its lexeme.
    pub open spec fn shown(v: TokenView) -> Seq<char> {
        if v.kind == TokenKind::String {
            seq!['"'] + v.text + seq!['"']
        } else if v.kind == TokenKind::RawString {
            let h = hashes(raw_string_hashes(v.text));
            seq!['r'] + h + seq!['"'] + v.text + seq!['"'] + h
        } else {
            v.lexeme()
        }
    }

    /// The token as it is shown in messages (see [`Token::shown`]).
    pub fn display_text(&self) -> (r: String)
        ensures
            r@ == Token::shown(self@),
    {
        match self {
            Token::String(.., s) => {
                let mut out: Vec<char> = Vec::new();
                out.push('"');
                let body = chars_of(s.as_str());
                append_chars(&mut out, &body);
                out.push('"');
                proof {
                    assert(out@ == seq!['"'] + s@ + seq!['"']);
                }
                string_from_chars(&out)
            },
            Token::RawString(.., s) => {
                let h = required_raw_string_hashes(s.as_str());
                let mut delim: Vec<char> = Vec::new();
                let mut k: usize = 0;
                while k < h
                    invariant
                        0 <= k <= h,
                        delim@ == hashes(k as nat),
                    decreases h - k,
                {
                    delim.push('#');
                    k += 1;
                    proof {
                        assert(delim@ =~= hashes(k as nat));
                    }
                }
                let mut out: Vec<char> = Vec::new();
                out.push('r');
                append_chars(&mut out, &delim);
                out.push('"');
                let body = chars_of(s.as_str());
                append_chars(&mut out, &body);
                out.push('"');
                append_chars(&mut out, &delim);
                proof {
                    assert(out@ =~= seq!['r'] + hashes(h as nat) + seq!['"'] + s@ + seq!['"'] + hashes(h as nat));
                }
                string_from_chars(&out)
            },
            _ => {
                let lex = chars_of(self.lexeme());
                string_from_chars(&lex)
            },
        }
    }
}

/// The largest value, over the positions `i < n` holding a `"`, of one more
/// than the run of `#` after position `i` (0 when there is none).
pub open spec fn raw_hashes_upto(s: Seq<char>, n: int) -> nat
    decreases n,
{
    if n <= 0 {
        0
    } else {
        let rest = raw_hashes_upto(s, n - 1);
        let here = if s[n - 1] == '"' { 1 + hash_run(s, n) } else { 0 };
        if here > rest { here } else { rest }
    }
}

/// The smallest number of `#` delimiters with which `content` can be written
/// as a raw string: 0 when it holds no `"`, and otherwise one more than the
/// longest run of `#` directly after a `"`.
pub open spec fn raw_string_hashes(content: Seq<char>) -> nat {
    raw_hashes_upto(content, content.len() as int)
}

/// The delimiter count bounds every run of `#` after a `"`, and is attained
/// by one of them unless it is zero.
pub proof fn lemma_raw_hashes_upto(s: Seq<char>, n: int)
    requires
        0 <= n <= s.len(),
    ensures
        forall|i: int| 0 <= i < n && s[i] == '"' ==> hash_run(s, i + 1) < raw_hashes_upto(s, n),
        raw_hashes_upto(s, n) == 0 || exists|i: int|
            0 <= i < n && s[i] == '"' && hash_run(s, i + 1) + 1 == raw_hashes_upto(s, n),
    decreases n,
{
    if n > 0 {
        lemma_raw_hashes_upto(s, n - 1);
        if raw_hashes_upto(s, n) != 0 && raw_hashes_upto(s, n) != raw_hashes_upto(s, n - 1) {
            assert(s[n - 1] == '"' && hash_run(s, n - 1 + 1) + 1 == raw_hashes_upto(s, n));
        }
    }
}

/// Returns the smallest number of `#` delimiters needed to write `content` as a
/// raw string without it terminating early: `0` when the content has no `"`, and
/// otherwise one more than the longest run of `#` immediately following a `"`.
pub fn required_raw_string_hashes(content: &str) -> (h: usize)
    ensures
        h == raw_string_hashes(content@),
        forall|i: int| 0 <= i < content@.len() && content@[i] == '"' ==> hash_run(content@, i + 1) < h,
        h == 0 || exists|i: int| 0 <= i < content@.len() && content@[i] == '"' && hash_run(content@, i + 1) + 1 == h,
{
    let chars = chars_of(content);
    let n = chars.len();
    let mut h: usize = 0;
    let mut i: usize = 0;
    while i < n
        invariant
            n == chars@.len(),
            chars@ == content@,
            0 <= i <= n,
            h <= n,
            h == raw_hashes_upto(chars@, i as int),
        decreases n - i,
    {
        if chars[i] == '"' {
            let mut run: usize = 0;
            while i + 1 + run < n && chars[i + 1 + run] == '#'
                invariant
                    n == chars@.len(),
                    0 <= i < n,
                    i + 1 + run <= n,
                    hash_run(chars@, i + 1) == run + hash_run(chars@, (i + 1 + run) as int),
                decreases n - (i + 1 + run),
            {
                run += 1;
            }
            proof {
                assert(hash_run(chars@, (i + 1 + run) as int) == 0);
            }
            if run + 1 > h {
                h = run + 1;
            }
        }
        i += 1;
    }
    proof {
        lemma_raw_hashes_upto(chars@, n as int);
    }
    h
}

} // verus!
