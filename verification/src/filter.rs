//! A parsed filter: the text it was written as and its expression tree.

use vstd::prelude::*;

use crate::expr::{Expr, ExprView, ExprVisitor, Literal, LiteralView};
use crate::functions::{base_functions, base_signatures};
use crate::lexer::{byte_offset, initial_state, loc_of, scan_all, scan_next, scan_string, tokenize, ScanState};
use crate::location::Loc;
use crate::parser::{
    p_and, p_comparison, p_equality, p_filter, p_literal, p_or, p_primary, p_term, p_unary, parse_checked, replace_all,
    unescape, FunctionSignature, ParseError, ParseErrorView, ParseInput, Parser,
};
use crate::token::{TokenKind, TokenView};
use crate::unicode::utf8_len_of;

verus! {

/// The name and arity of each of `functions`, in order.
pub open spec fn signatures(functions: Seq<FunctionSignature>) -> Seq<(Seq<char>, nat)> {
    functions.map_values(|f: FunctionSignature| (f.name@, f.arity as nat))
}

/// What the parser reads for the filter text `src` when `functions` may be called:
/// the tokens which scanning `src` gives, and the scanning error which ends them.
pub open spec fn filter_input(src: Seq<char>, functions: Seq<(Seq<char>, nat)>) -> ParseInput {
    ParseInput {
        tokens: scan_all(src, initial_state()).0,
        error: scan_all(src, initial_state()).1,
        functions,
    }
}

/// The expression tree of the filter text `src`, or the error which rejects it,
/// when `functions` may be called.
pub open spec fn filter_result(src: Seq<char>, functions: Seq<(Seq<char>, nat)>) -> Result<ExprView, ParseErrorView> {
    p_filter(filter_input(src, functions))
}

/// A parsed filter expression: the text it was written as, and its tree.
pub struct Filter {
    filter: String,
    ast: Expr,
}

impl Filter {
    /// The text this filter was written as.
    pub closed spec fn spec_raw(&self) -> Seq<char> {
        self.filter@
    }

    /// The expression tree of this filter.
    pub closed spec fn spec_expr(&self) -> ExprView {
        self.ast@
    }

    /// Parses `filter`, whose calls may name the built-in functions (see
    /// [`base_signatures`]). The filter keeps its text; parsing fails exactly
    /// when [`filter_result`] is an error, and with that error. A filter which
    /// parses has no scanning error, every call in it names a known function
    /// with the right number of arguments, and every `matches` pattern in it
    /// compiles. The UTF-8 length of `filter` fits in a `usize`.
    pub fn new(filter: &str) -> (r: Result<Filter, ParseError>)
        requires
            utf8_len_of(filter@) < usize::MAX,
        ensures
            match r {
                Ok(f) => f.spec_raw() == filter@ && filter_result(filter@, base_signatures()) == Ok::<ExprView, ParseErrorView>(f.spec_expr()),
                Err(e) => filter_result(filter@, base_signatures()) == Err::<ExprView, ParseErrorView>(e@),
            },
            r is Ok ==> scan_all(filter@, initial_state()).1 is None,
            r matches Ok(f) ==> parse_checked(f.spec_expr(), base_signatures()),
    {
        let r = Self::with_functions(filter, Vec::new());
        proof {
            assert(base_signatures() + signatures(Seq::<FunctionSignature>::empty()) =~= base_signatures());
        }
        r
    }

    /// Parses `filter`, whose calls may name the built-in functions and then
    /// `functions` (a call resolves to the first function of its name). The
    /// filter keeps its text; parsing fails exactly when [`filter_result`] is an
    /// error, and with that error; what [`Filter::new`] states of a filter which
    /// parses holds here too. The UTF-8 length of `filter` fits in a `usize`.
    pub fn with_functions(filter: &str, functions: Vec<FunctionSignature>) -> (r: Result<Filter, ParseError>)
        requires
            utf8_len_of(filter@) < usize::MAX,
        ensures
            match r {
                Ok(f) => f.spec_raw() == filter@
                    && filter_result(filter@, base_signatures() + signatures(functions@)) == Ok::<ExprView, ParseErrorView>(f.spec_expr()),
                Err(e) => filter_result(filter@, base_signatures() + signatures(functions@)) == Err::<ExprView, ParseErrorView>(e@),
            },
            r is Ok ==> scan_all(filter@, initial_state()).1 is None,
            r matches Ok(f) ==> parse_checked(f.spec_expr(), base_signatures() + signatures(functions@)),
    {
        let (tokens, error) = tokenize(filter);
        let mut all = base_functions();
        let mut extra = functions;
        let ghost base = all@;
        let ghost given = extra@;
        all.append(&mut extra);
        proof {
            assert(signatures(all@) =~= signatures(base) + signatures(given));
        }
        match Parser::parse(tokens, error, all) {
            Ok(ast) => Ok(Filter { filter: filter.to_owned(), ast }),
            Err(e) => Err(e),
        }
    }

    /// The text this filter was written as.
    pub fn raw(&self) -> (r: &str)
        ensures
            r@ == self.spec_raw(),
    {
        self.filter.as_str()
    }

    /// The expression tree of this filter.
    pub fn expr(&self) -> (r: &Expr)
        ensures
            r@ == self.spec_expr(),
    {
        &self.ast
    }

    /// This filter's expression tree itself (its view is [`Filter::spec_expr`]).
    pub closed spec fn syntax_tree<'a>(&'a self) -> &'a Expr {
        &self.ast
    }

    /// Runs `visitor` over this filter's expression tree, starting at its
    /// root, and gives back what the visitor produces: what the visitor's
    /// `visit_expr` returns on this filter's own tree, run on the visitor
    /// from its state before the call to its state after it.
    pub fn visit<'a, T, V: ExprVisitor<'a, T>>(&'a self, visitor: &mut V) -> (r: T)
        ensures
            self.syntax_tree()@ == self.spec_expr(),
            exists|m: &mut V|
                #[trigger] call_ensures(V::visit_expr, (m, self.syntax_tree()), r) && mut_ref_current(m)
                    == *old(visitor) && mut_ref_future(m) == *final(visitor),
    {
        let f = V::visit_expr;
        f(visitor, &self.ast)
    }
}

impl Default for Filter {
    /// The filter `true`, which matches everything.
    fn default() -> (f: Filter)
        ensures
            f.spec_raw() == "true"@,
            f.spec_expr() == ExprView::Literal(LiteralView::Bool(true)),
    {
        Filter { filter: "true".to_owned(), ast: Expr::Literal(Literal::Bool(true)) }
    }
}

/// The characters of a string literal's body for the character `c`: a double
/// quote is preceded by a backslash, and every other character stands as it is.
pub open spec fn escaped_char(c: char) -> Seq<char> {
    if c == '"' {
        seq!['\\', '"']
    } else {
        seq![c]
    }
}

/// `s` with each of its double quotes preceded by a backslash.
pub open spec fn escape_quotes(s: Seq<char>) -> Seq<char> {
    s.map_values(|c: char| escaped_char(c)).flatten()
}

/// `s` written as a string literal: between double quotes, its own quotes escaped.
pub open spec fn string_literal(s: Seq<char>) -> Seq<char> {
    seq!['"'] + escape_quotes(s) + seq!['"']
}

/// No character of `s` is a backslash.
pub open spec fn backslash_free(s: Seq<char>) -> bool {
    forall|i: int| 0 <= i < s.len() ==> #[trigger] s[i] != '\\'
}

/// Escaping works character by character.
proof fn lemma_escape_first(s: Seq<char>)
    requires
        s.len() > 0,
    ensures
        escape_quotes(s) == escaped_char(s[0]) + escape_quotes(s.drop_first()),
{
    let f = |c: char| escaped_char(c);
    let m = s.map_values(f);
    assert(m.first() == escaped_char(s[0]));
    assert(m.drop_first() =~= s.drop_first().map_values(f));
}

/// Escaping the empty string gives the empty string.
proof fn lemma_escape_empty()
    ensures
        escape_quotes(Seq::<char>::empty()) == Seq::<char>::empty(),
{
    assert(Seq::<char>::empty().map_values(|c: char| escaped_char(c)) =~= Seq::<Seq<char>>::empty());
}

/// Reading the body of a string literal from position `p`, where the rest of
/// the input is the escaped `t` and the closing quote, gives the whole body.
proof fn lemma_scan_escaped(src: Seq<char>, t: Seq<char>, p: int, line: int, line_start: int, start_loc: Loc)
    requires
        1 <= p < src.len(),
        src.subrange(p, src.len() as int) == escape_quotes(t) + seq!['"'],
        backslash_free(t),
    ensures
        scan_string(src, p, line, line_start, start_loc, 1, false, 0).0 == Some(
            Ok::<TokenView, crate::lexer::LexError>(
                TokenView { kind: TokenKind::String, loc: start_loc, text: src.subrange(1, src.len() - 1) },
            ),
        ),
        scan_string(src, p, line, line_start, start_loc, 1, false, 0).1.pos == src.len(),
    decreases t.len(),
{
    let rest = src.subrange(p, src.len() as int);
    if t.len() == 0 {
        lemma_escape_empty();
        assert(rest =~= seq!['"']);
        assert(src[p] == rest[0]);
    } else {
        lemma_escape_first(t);
        let c = t[0];
        let t2 = t.drop_first();
        assert(backslash_free(t2)) by {
            assert forall|i: int| 0 <= i < t2.len() implies #[trigger] t2[i] != '\\' by {
                assert(t2[i] == t[i + 1]);
            }
        }
        assert(c != '\\');
        assert(src[p] == rest[0]);
        if c == '"' {
            assert(rest =~= seq!['\\', '"'] + (escape_quotes(t2) + seq!['"']));
            assert(src[p + 1] == rest[1]);
            assert(rest.skip(2) =~= escape_quotes(t2) + seq!['"']);
            assert(src.subrange(p + 2, src.len() as int) =~= rest.skip(2));
            lemma_scan_escaped(src, t2, p + 2, line, line_start, start_loc);
        } else {
            assert(rest =~= seq![c] + (escape_quotes(t2) + seq!['"']));
            assert(rest.skip(1) =~= escape_quotes(t2) + seq!['"']);
            assert(src.subrange(p + 1, src.len() as int) =~= rest.skip(1));
            if c == '\n' {
                lemma_scan_escaped(src, t2, p + 1, line + 1, byte_offset(src, p) + 1, start_loc);
            } else {
                lemma_scan_escaped(src, t2, p + 1, line, line_start, start_loc);
            }
        }
    }
}

/// Scanning a string literal gives one string token, at the first line and
/// column, whose text is the escaped string.
proof fn lemma_scan_string_literal(s: Seq<char>)
    requires
        backslash_free(s),
    ensures
        scan_all(string_literal(s), initial_state()) == (
            seq![TokenView { kind: TokenKind::String, loc: Loc { line: 1, column: 1 }, text: escape_quotes(s) }],
            None::<crate::lexer::LexError>,
        ),
{
    let src = string_literal(s);
    let st = initial_state();
    assert(src[0] == '"');
    assert(src.take(0) =~= Seq::<char>::empty());
    assert(byte_offset(src, 0) == 0);
    let loc = loc_of(st, byte_offset(src, 0));
    assert(loc == Loc { line: 1, column: 1 });
    assert(src.subrange(1, src.len() as int) =~= escape_quotes(s) + seq!['"']);
    lemma_scan_escaped(src, s, 1, 1, 0, loc);
    assert(src.subrange(1, src.len() - 1) =~= escape_quotes(s));
    let (r, next) = scan_next(src, st);
    assert(r == Some(Ok::<TokenView, crate::lexer::LexError>(TokenView { kind: TokenKind::String, loc, text: escape_quotes(s) })));
    assert(next.pos == src.len());
    assert(scan_next(src, next).0 is None);
    assert(scan_all(src, next).0 =~= Seq::<TokenView>::empty());
    assert(seq![TokenView { kind: TokenKind::String, loc, text: escape_quotes(s) }] + Seq::<TokenView>::empty()
        =~= seq![TokenView { kind: TokenKind::String, loc, text: escape_quotes(s) }]);
}

/// Turning each `\"` of an escaped string back into `"` gives the string.
proof fn lemma_unescape_quotes(s: Seq<char>)
    requires
        backslash_free(s),
    ensures
        replace_all(escape_quotes(s), seq!['\\', '"'], seq!['"']) == s,
    decreases s.len(),
{
    let from = seq!['\\', '"'];
    let to = seq!['"'];
    if s.len() == 0 {
        lemma_escape_empty();
    } else {
        lemma_escape_first(s);
        let c = s[0];
        let s2 = s.drop_first();
        assert(backslash_free(s2)) by {
            assert forall|i: int| 0 <= i < s2.len() implies #[trigger] s2[i] != '\\' by {
                assert(s2[i] == s[i + 1]);
            }
        }
        lemma_unescape_quotes(s2);
        let e = escape_quotes(s);
        assert(c != '\\');
        if c == '"' {
            assert(e =~= from + escape_quotes(s2));
            assert(from.is_prefix_of(e));
            assert(e.skip(2) =~= escape_quotes(s2));
            assert(s =~= to + s2);
        } else {
            assert(e =~= seq![c] + escape_quotes(s2));
            assert(e[0] == c);
            assert(!from.is_prefix_of(e)) by {
                assert(from[0] != e[0]);
            }
            assert(e.skip(1) =~= escape_quotes(s2));
            assert(s =~= seq![c] + s2);
        }
    }
}

/// A string without backslashes has no `\\` to turn into `\`.
proof fn lemma_no_double_backslash(s: Seq<char>)
    requires
        backslash_free(s),
    ensures
        replace_all(s, seq!['\\', '\\'], seq!['\\']) == s,
    decreases s.len(),
{
    if s.len() > 0 {
        let s2 = s.skip(1);
        assert(backslash_free(s2)) by {
            assert forall|i: int| 0 <= i < s2.len() implies #[trigger] s2[i] != '\\' by {
                assert(s2[i] == s[i + 1]);
            }
        }
        lemma_no_double_backslash(s2);
        assert(!seq!['\\', '\\'].is_prefix_of(s)) by {
            assert(s[0] != '\\');
        }
        assert(s =~= seq![s[0]] + s2);
    }
}

/// A string without backslashes, written between double quotes with each of
/// its own double quotes escaped as `\"`, is read back as that string: the
/// filter made of it alone is that string literal, whatever functions may be
/// called.
pub proof fn string_literals_read_back(s: Seq<char>, functions: Seq<(Seq<char>, nat)>)
    requires
        backslash_free(s),
    ensures
        filter_result(string_literal(s), functions) == Ok::<ExprView, ParseErrorView>(
            ExprView::Literal(LiteralView::String(s)),
        ),
{
    lemma_scan_string_literal(s);
    lemma_unescape_quotes(s);
    lemma_no_double_backslash(s);
    assert(unescape(escape_quotes(s)) == s);
    let inp = filter_input(string_literal(s), functions);
    let t = TokenView { kind: TokenKind::String, loc: Loc { line: 1, column: 1 }, text: escape_quotes(s) };
    assert(inp.tokens == seq![t]);
    assert(inp.error is None);
    let e = ExprView::Literal(LiteralView::String(s));
    assert(p_literal(inp, 0) == Ok::<LiteralView, ParseErrorView>(LiteralView::String(s)));
    assert(p_primary(inp, 0) == Ok::<(ExprView, int), ParseErrorView>((e, 1)));
    assert(p_unary(inp, 0) == Ok::<(ExprView, int), ParseErrorView>((e, 1)));
    assert(p_term(inp, 0) == Ok::<(ExprView, int), ParseErrorView>((e, 1)));
    assert(p_comparison(inp, 0) == Ok::<(ExprView, int), ParseErrorView>((e, 1)));
    assert(p_equality(inp, 0) == Ok::<(ExprView, int), ParseErrorView>((e, 1)));
    assert(p_and(inp, 0) == Ok::<(ExprView, int), ParseErrorView>((e, 1)));
    assert(p_or(inp, 0) == Ok::<(ExprView, int), ParseErrorView>((e, 1)));
}

/// `s` written as a raw string literal: `r"`, then `s` as it is, then `"`.
pub open spec fn raw_string_literal(s: Seq<char>) -> Seq<char> {
    seq!['r', '"'] + s + seq!['"']
}

/// Reading the body of a raw string from position `p`, where the rest of the
/// input is `t` and the closing quote, gives the whole body.
proof fn lemma_scan_raw(src: Seq<char>, t: Seq<char>, p: int, line: int, line_start: int, start_loc: Loc)
    requires
        2 <= p < src.len(),
        src.subrange(p, src.len() as int) == t + seq!['"'],
        !t.contains('"'),
    ensures
        scan_string(src, p, line, line_start, start_loc, 2, true, 0).0 == Some(
            Ok::<TokenView, crate::lexer::LexError>(
                TokenView { kind: TokenKind::RawString, loc: start_loc, text: src.subrange(2, src.len() - 1) },
            ),
        ),
        scan_string(src, p, line, line_start, start_loc, 2, true, 0).1.pos == src.len(),
    decreases t.len(),
{
    let rest = src.subrange(p, src.len() as int);
    assert(src[p] == rest[0]);
    if t.len() == 0 {
        assert(rest =~= seq!['"']);
    } else {
        let t2 = t.drop_first();
        assert(rest[0] == t[0]);
        assert(t[0] != '"') by {
            if t[0] == '"' {
                assert(t.contains('"'));
            }
        }
        assert(!t2.contains('"')) by {
            if t2.contains('"') {
                let j = choose|j: int| 0 <= j < t2.len() && t2[j] == '"';
                assert(t[j + 1] == '"');
            }
        }
        assert(rest.skip(1) =~= t2 + seq!['"']);
        assert(src.subrange(p + 1, src.len() as int) =~= rest.skip(1));
        if t[0] == '\n' {
            lemma_scan_raw(src, t2, p + 1, line + 1, byte_offset(src, p) + 1, start_loc);
        } else {
            lemma_scan_raw(src, t2, p + 1, line, line_start, start_loc);
        }
    }
}

/// Any text without a double quote, written as a raw string literal, is read
/// back exactly, backslashes and all: the filter made of it alone is that
/// string literal, whatever functions may be called.
pub proof fn raw_string_literals_read_back(s: Seq<char>, functions: Seq<(Seq<char>, nat)>)
    requires
        !s.contains('"'),
    ensures
        filter_result(raw_string_literal(s), functions) == Ok::<ExprView, ParseErrorView>(
            ExprView::Literal(LiteralView::String(s)),
        ),
{
    let src = raw_string_literal(s);
    let st = initial_state();
    assert(src[0] == 'r' && src[1] == '"');
    assert(src.take(0) =~= Seq::<char>::empty());
    let loc = loc_of(st, byte_offset(src, 0));
    assert(loc == Loc { line: 1, column: 1 });
    assert(src.subrange(2, src.len() as int) =~= s + seq!['"']);
    lemma_scan_raw(src, s, 2, 1, 0, loc);
    assert(src.subrange(2, src.len() - 1) =~= s);
    let t = TokenView { kind: TokenKind::RawString, loc, text: s };
    let (r, next) = scan_next(src, st);
    assert(r == Some(Ok::<TokenView, crate::lexer::LexError>(t)));
    assert(next.pos == src.len());
    assert(scan_next(src, next).0 is None);
    assert(scan_all(src, next).0 =~= Seq::<TokenView>::empty());
    assert(seq![t] + Seq::<TokenView>::empty() =~= seq![t]);
    let inp = filter_input(src, functions);
    assert(inp.tokens == seq![t]);
    let e = ExprView::Literal(LiteralView::String(s));
    assert(p_literal(inp, 0) == Ok::<LiteralView, ParseErrorView>(LiteralView::String(s)));
    assert(p_primary(inp, 0) == Ok::<(ExprView, int), ParseErrorView>((e, 1)));
    assert(p_unary(inp, 0) == Ok::<(ExprView, int), ParseErrorView>((e, 1)));
    assert(p_term(inp, 0) == Ok::<(ExprView, int), ParseErrorView>((e, 1)));
    assert(p_comparison(inp, 0) == Ok::<(ExprView, int), ParseErrorView>((e, 1)));
    assert(p_equality(inp, 0) == Ok::<(ExprView, int), ParseErrorView>((e, 1)));
    assert(p_and(inp, 0) == Ok::<(ExprView, int), ParseErrorView>((e, 1)));
    assert(p_or(inp, 0) == Ok::<(ExprView, int), ParseErrorView>((e, 1)));
}

} // verus!
