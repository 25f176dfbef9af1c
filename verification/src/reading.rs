//! Laws of how the parser reads filters: what `!` applies to, the order of
//! a call's arguments, and the text that string literals and glob patterns
//! stand for.

use vstd::prelude::*;

use crate::expr::{ExprView, LiteralView};
use crate::operator::UnaryOperator;
use crate::parser::{
    at, binding_level, joined, lemma_find_function, lemma_joins, lemma_operand_stops, lemma_passes_through,
    find_function, p_and, p_and_rest, p_args, p_call, p_close_call, p_comparison, p_equality, p_filter, p_literal,
    p_or, p_or_rest, p_pattern, p_primary, p_resolve, p_term, p_term_rest, p_unary, parse_at_level, peek,
    property_at, replace_all, unescape, ParseErrorView, ParseInput,
};
use crate::filter::{filter_input, filter_result};
use crate::lexer::{byte_offset, initial_state, loc_of, scan_all, scan_next, scan_string};
use crate::location::Loc;
use crate::pattern::{escape_char, quoted, regex_compiles};
use crate::token::TokenKind;

verus! {

/// `!` applies to the operand right after it: with property operands and
/// any binary or logical operator `⊕`, `! x ⊕ y` groups as `(! x) ⊕ y`.
pub proof fn not_applies_to_the_next_operand(inp: ParseInput)
    requires
        inp.tokens.len() == 4,
        inp.error is None,
        inp.tokens[0].kind == TokenKind::Not,
        inp.tokens[1].kind == TokenKind::Property,
        1 <= binding_level(inp.tokens[2].kind),
        inp.tokens[3].kind == TokenKind::Property,
    ensures
        p_filter(inp) == Ok::<ExprView, ParseErrorView>(
            joined(
                inp.tokens[2].kind,
                ExprView::Unary(UnaryOperator::Not, Box::new(property_at(inp, 1))),
                property_at(inp, 3),
            ),
        ),
{
    let top = binding_level(inp.tokens[2].kind);
    let x = property_at(inp, 1);
    let nx = ExprView::Unary(UnaryOperator::Not, Box::new(x));
    lemma_operand_stops(inp, 1, 6);
    assert(p_unary(inp, 1) == Ok::<(ExprView, int), ParseErrorView>((x, 2)));
    assert(p_unary(inp, 0) == Ok::<(ExprView, int), ParseErrorView>((nx, 2)));
    assert(parse_at_level(inp, 6, 0) == Ok::<(ExprView, int), ParseErrorView>((nx, 2)));
    lemma_passes_through(inp, 0, 2, nx, top + 1, 6);
    lemma_operand_stops(inp, 3, top + 1);
    lemma_joins(inp, 0, 2, 4, nx, property_at(inp, 3), 1);
    assert(parse_at_level(inp, 1, 0) == p_or(inp, 0));
}

/// The body of a string literal written for the text `s`: each backslash
/// doubled and each double quote preceded by a backslash.
pub open spec fn literal_body(s: Seq<char>) -> Seq<char> {
    s.map_values(|c: char| escape_char(c)).flatten()
}

/// `s` with each backslash doubled.
spec fn doubled_backslashes(s: Seq<char>) -> Seq<char> {
    s.map_values(
        |c: char|
            if c == '\\' {
                seq!['\\', '\\']
            } else {
                seq![c]
            },
    ).flatten()
}

/// A literal body is written character by character.
proof fn lemma_body_step(s: Seq<char>)
    ensures
        s.len() == 0 ==> literal_body(s) == Seq::<char>::empty(),
        s.len() > 0 ==> literal_body(s) == escape_char(s[0]) + literal_body(s.drop_first()),
        s.len() == 0 ==> doubled_backslashes(s) == Seq::<char>::empty(),
        s.len() > 0 ==> doubled_backslashes(s) == (if s[0] == '\\' {
            seq!['\\', '\\']
        } else {
            seq![s[0]]
        }) + doubled_backslashes(s.drop_first()),
        literal_body(s).len() > 0 ==> literal_body(s)[0] != '"',
{
    let f = |c: char| escape_char(c);
    let g = |c: char|
        if c == '\\' {
            seq!['\\', '\\']
        } else {
            seq![c]
        };
    if s.len() == 0 {
        assert(s.map_values(f) =~= Seq::<Seq<char>>::empty());
        assert(s.map_values(g) =~= Seq::<Seq<char>>::empty());
    } else {
        assert(s.map_values(f).first() == escape_char(s[0]));
        assert(s.map_values(f).drop_first() =~= s.drop_first().map_values(f));
        assert(s.map_values(g).first() == g(s[0]));
        assert(s.map_values(g).drop_first() =~= s.drop_first().map_values(g));
        assert((escape_char(s[0]) + literal_body(s.drop_first()))[0] == escape_char(s[0])[0]);
    }
}

/// `from` is not at the start of `s` when their characters differ somewhere
/// within both, or when `s` is too short.
proof fn lemma_not_prefix(from: Seq<char>, s: Seq<char>, k: int)
    requires
        0 <= k < from.len(),
        k >= s.len() || s[k] != from[k],
    ensures
        !from.is_prefix_of(s),
{
    if from.is_prefix_of(s) {
        assert(s.subrange(0, from.len() as int)[k] == s[k]);
    }
}

/// Turning each `\"` of a literal body into `"` leaves the text with its
/// backslashes still doubled.
proof fn lemma_unescape_quotes(s: Seq<char>)
    ensures
        replace_all(literal_body(s), seq!['\\', '"'], seq!['"']) == doubled_backslashes(s),
    decreases s.len(),
{
    let from = seq!['\\', '"'];
    let to = seq!['"'];
    lemma_body_step(s);
    if s.len() > 0 {
        let c = s[0];
        let rest = s.drop_first();
        let b = literal_body(rest);
        lemma_unescape_quotes(rest);
        lemma_body_step(rest);
        let body = literal_body(s);
        if c == '"' {
            assert(body =~= from + b);
            assert(from.is_prefix_of(body)) by {
                assert(body.subrange(0, 2) =~= from);
            }
            assert(body.skip(2) =~= b);
            assert(doubled_backslashes(s) =~= to + doubled_backslashes(rest));
        } else if c == '\\' {
            assert(body =~= seq!['\\', '\\'] + b);
            lemma_not_prefix(from, body, 1);
            let tail = body.skip(1);
            assert(tail =~= seq!['\\'] + b);
            lemma_not_prefix(from, tail, 1);
            assert(tail.skip(1) =~= b);
            assert(replace_all(tail, from, to) == seq!['\\'] + replace_all(b, from, to));
            assert(doubled_backslashes(s) =~= seq!['\\', '\\'] + doubled_backslashes(rest));
            assert(replace_all(body, from, to) == seq![body[0]] + replace_all(tail, from, to));
            assert(seq![body[0]] + (seq!['\\'] + doubled_backslashes(rest)) =~= doubled_backslashes(s));
        } else {
            assert(body =~= seq![c] + b);
            lemma_not_prefix(from, body, 0);
            assert(body.skip(1) =~= b);
            assert(doubled_backslashes(s) =~= seq![c] + doubled_backslashes(rest));
        }
    }
}

/// Turning each `\\` of a text with doubled backslashes into `\` gives the text.
proof fn lemma_undouble(s: Seq<char>)
    ensures
        replace_all(doubled_backslashes(s), seq!['\\', '\\'], seq!['\\']) == s,
    decreases s.len(),
{
    let from = seq!['\\', '\\'];
    let to = seq!['\\'];
    lemma_body_step(s);
    if s.len() > 0 {
        let c = s[0];
        let rest = s.drop_first();
        let d = doubled_backslashes(rest);
        let whole = doubled_backslashes(s);
        lemma_undouble(rest);
        if c == '\\' {
            assert(whole =~= from + d);
            assert(from.is_prefix_of(whole)) by {
                assert(whole.subrange(0, 2) =~= from);
            }
            assert(whole.skip(2) =~= d);
            assert(s =~= to + rest);
        } else {
            assert(whole =~= seq![c] + d);
            lemma_not_prefix(from, whole, 0);
            assert(whole.skip(1) =~= d);
            assert(s =~= seq![c] + rest);
        }
    }
}

/// A literal body reads back as the text it was written for.
pub proof fn literal_bodies_unescape_to_their_text(s: Seq<char>)
    ensures
        unescape(literal_body(s)) == s,
{
    lemma_unescape_quotes(s);
    lemma_undouble(s);
}

/// A string literal reads back as its text: for every text `s`, the filter
/// made of one string token whose body is `s` written with each backslash
/// doubled and each double quote preceded by a backslash is the string `s`,
/// whatever functions may be called.
pub proof fn string_bodies_read_back(inp: ParseInput, s: Seq<char>)
    requires
        inp.tokens.len() == 1,
        inp.error is None,
        inp.tokens[0].kind == TokenKind::String,
        inp.tokens[0].text == literal_body(s),
    ensures
        p_filter(inp) == Ok::<ExprView, ParseErrorView>(ExprView::Literal(LiteralView::String(s))),
{
    literal_bodies_unescape_to_their_text(s);
    let e = ExprView::Literal(LiteralView::String(s));
    assert(p_literal(inp, 0) == Ok::<LiteralView, ParseErrorView>(LiteralView::String(s)));
    assert(p_primary(inp, 0) == Ok::<(ExprView, int), ParseErrorView>((e, 1)));
    assert(p_unary(inp, 0) == Ok::<(ExprView, int), ParseErrorView>((e, 1)));
    assert(p_term(inp, 0) == Ok::<(ExprView, int), ParseErrorView>((e, 1)));
    assert(p_comparison(inp, 0) == Ok::<(ExprView, int), ParseErrorView>((e, 1)));
    assert(p_equality(inp, 0) == Ok::<(ExprView, int), ParseErrorView>((e, 1)));
    assert(p_and(inp, 0) == Ok::<(ExprView, int), ParseErrorView>((e, 1)));
    assert(p_or(inp, 0) == Ok::<(ExprView, int), ParseErrorView>((e, 1)));
}

/// A pattern is the text its literal stands for: in `x like S`, `x like_cs S`
/// and `x matches S`, with `S` a string literal whose body is the text `s`
/// written with each backslash doubled and each double quote preceded by a
/// backslash, or a raw string literal holding `s` itself, the pattern is `s`
/// (for `matches`, when `s` compiles as a regular expression).
pub proof fn patterns_read_back(inp: ParseInput, s: Seq<char>)
    requires
        inp.tokens.len() == 3,
        inp.error is None,
        inp.tokens[0].kind == TokenKind::Property,
        inp.tokens[1].kind == TokenKind::Like || inp.tokens[1].kind == TokenKind::LikeCs || inp.tokens[1].kind
            == TokenKind::Matches,
        (inp.tokens[2].kind == TokenKind::String && inp.tokens[2].text == literal_body(s)) || (inp.tokens[2].kind
            == TokenKind::RawString && inp.tokens[2].text == s),
    ensures
        inp.tokens[1].kind != TokenKind::Matches ==> p_filter(inp) == Ok::<ExprView, ParseErrorView>(
            ExprView::Like(Box::new(property_at(inp, 0)), s, inp.tokens[1].kind == TokenKind::LikeCs),
        ),
        inp.tokens[1].kind == TokenKind::Matches && regex_compiles(s) ==> p_filter(inp) == Ok::<
            ExprView,
            ParseErrorView,
        >(ExprView::Matches(Box::new(property_at(inp, 0)), s)),
{
    literal_bodies_unescape_to_their_text(s);
    let x = property_at(inp, 0);
    let t = inp.tokens[1];
    assert(p_pattern(inp, 2, t) == Ok::<Seq<char>, ParseErrorView>(s));
    assert(p_primary(inp, 0) == Ok::<(ExprView, int), ParseErrorView>((x, 1)));
    assert(p_unary(inp, 0) == Ok::<(ExprView, int), ParseErrorView>((x, 1)));
    assert(p_term_rest(inp, x, 1) == Ok::<(ExprView, int), ParseErrorView>((x, 1)));
    assert(p_term(inp, 0) == Ok::<(ExprView, int), ParseErrorView>((x, 1)));
    let e = if t.kind == TokenKind::Matches {
        ExprView::Matches(Box::new(x), s)
    } else {
        ExprView::Like(Box::new(x), s, t.kind == TokenKind::LikeCs)
    };
    if t.kind != TokenKind::Matches || regex_compiles(s) {
        assert(p_comparison(inp, 0) == Ok::<(ExprView, int), ParseErrorView>((e, 3)));
        assert(p_equality(inp, 0) == Ok::<(ExprView, int), ParseErrorView>((e, 3)));
        assert(p_and_rest(inp, e, 3) == Ok::<(ExprView, int), ParseErrorView>((e, 3)));
        assert(p_and(inp, 0) == Ok::<(ExprView, int), ParseErrorView>((e, 3)));
        assert(p_or_rest(inp, e, 3) == Ok::<(ExprView, int), ParseErrorView>((e, 3)));
        assert(p_or(inp, 0) == Ok::<(ExprView, int), ParseErrorView>((e, 3)));
        assert(peek(inp, 3) is None);
    }
}

/// A property token followed by a comma or a closing parenthesis is a
/// whole operand at every level.
proof fn lemma_operand_before_separator(inp: ParseInput, p: int, level: int)
    requires
        0 <= p,
        p + 1 < inp.tokens.len(),
        inp.tokens[p].kind == TokenKind::Property,
        inp.tokens[p + 1].kind == TokenKind::Comma || inp.tokens[p + 1].kind == TokenKind::RightParen,
        1 <= level <= 6,
    ensures
        parse_at_level(inp, level, p) == Ok::<(ExprView, int), ParseErrorView>((property_at(inp, p), p + 1)),
    decreases 6 - level,
{
    let x = property_at(inp, p);
    if level == 6 {
        assert(!at(inp, p + 1, TokenKind::LeftParen));
        assert(p_primary(inp, p) == Ok::<(ExprView, int), ParseErrorView>((x, p + 1)));
    } else {
        lemma_operand_before_separator(inp, p, level + 1);
        if level == 5 {
            assert(p_term_rest(inp, x, p + 1) == Ok::<(ExprView, int), ParseErrorView>((x, p + 1)));
        } else if level == 2 {
            assert(p_and_rest(inp, x, p + 1) == Ok::<(ExprView, int), ParseErrorView>((x, p + 1)));
        } else if level == 1 {
            assert(p_or_rest(inp, x, p + 1) == Ok::<(ExprView, int), ParseErrorView>((x, p + 1)));
        }
    }
}

/// The property operands of a call `f(a1, ..., an)` whose tokens are `inp`:
/// the `k`-th is the property at position `2 + 2k`.
pub open spec fn written_arguments(inp: ParseInput, n: nat) -> Seq<ExprView> {
    Seq::new(n, |k: int| property_at(inp, 2 + 2 * k))
}

/// Whether `inp` is a call `f(a1, ..., an)` of `n` property arguments: the
/// name, `(`, the properties separated by commas, and `)`.
pub open spec fn is_property_call(inp: ParseInput, n: nat) -> bool {
    &&& n >= 1
    &&& inp.tokens.len() == 2 * n + 2
    &&& inp.tokens[0].kind == TokenKind::Property
    &&& inp.tokens[1].kind == TokenKind::LeftParen
    &&& forall|k: int| 0 <= k < n ==> (#[trigger] inp.tokens[2 + 2 * k]).kind == TokenKind::Property
    &&& forall|k: int| 0 <= k < n - 1 ==> (#[trigger] inp.tokens[3 + 2 * k]).kind == TokenKind::Comma
    &&& inp.tokens[2 * n + 1 as int].kind == TokenKind::RightParen
}

/// The arguments from the `k`-th on are read in order and closed by `)`.
proof fn lemma_arguments(inp: ParseInput, n: nat, k: int)
    requires
        is_property_call(inp, n),
        0 <= k < n,
    ensures
        p_args(inp, inp.tokens[0].text, inp.tokens[0].loc, written_arguments(inp, n).take(k), 2 + 2 * k)
            == p_resolve(inp, inp.tokens[0].text, inp.tokens[0].loc, written_arguments(inp, n), 2 * n + 2 as int),
    decreases n - k,
{
    let name = inp.tokens[0].text;
    let loc = inp.tokens[0].loc;
    let all = written_arguments(inp, n);
    let q = 2 + 2 * k;
    assert(inp.tokens[q].kind == TokenKind::Property);
    if k < n - 1 {
        assert(inp.tokens[3 + 2 * k].kind == TokenKind::Comma);
    }
    lemma_operand_before_separator(inp, q, 1);
    assert(p_or(inp, q) == Ok::<(ExprView, int), ParseErrorView>((all[k], q + 1)));
    assert(all.take(k).push(all[k]) =~= all.take(k + 1));
    if k < n - 1 {
        assert(at(inp, q + 1, TokenKind::Comma));
        lemma_arguments(inp, n, k + 1);
    } else {
        assert(all.take(k + 1) =~= all);
        assert(!at(inp, q + 1, TokenKind::Comma));
        assert(p_close_call(inp, name, loc, all, q + 1) == p_resolve(inp, name, loc, all, 2 * n + 2 as int));
    }
}

/// A function named `name` is found when one of the functions from `j` on has that name.
proof fn lemma_find_existing(inp: ParseInput, name: Seq<char>, j: int, i: int)
    requires
        0 <= j <= i < inp.functions.len(),
        inp.functions[i].0 == name,
    ensures
        find_function(inp, name, j) is Some,
    decreases i - j,
{
    if inp.functions[j].0 != name {
        lemma_find_existing(inp, name, j + 1, i);
    }
}

/// A call of a function which exists, and of which every one of that name
/// takes as many arguments as given, resolves to that call.
proof fn lemma_resolves(inp: ParseInput, name: Seq<char>, loc: Loc, args: Seq<ExprView>, q: int)
    requires
        exists|i: int| 0 <= i < inp.functions.len() && (#[trigger] inp.functions[i]).0 == name,
        forall|i: int| 0 <= i < inp.functions.len() && (#[trigger] inp.functions[i]).0 == name ==> inp.functions[i].1
            == args.len(),
    ensures
        p_resolve(inp, name, loc, args, q) == Ok::<(ExprView, int), ParseErrorView>(
            (ExprView::FunctionCall(name, args), q),
        ),
{
    let i = choose|i: int| 0 <= i < inp.functions.len() && (#[trigger] inp.functions[i]).0 == name;
    lemma_find_existing(inp, name, 0, i);
    lemma_find_function(inp, name, 0);
}

/// A call's arguments keep the order they are written in: when every
/// callable function named `f` takes `n` arguments and there is one, the call
/// `f(a1, ..., an)` of `n` properties parses to the call of `f` whose `k`-th
/// argument is the property `ak`.
#[verifier::rlimit(40)]
pub proof fn call_arguments_keep_their_order(inp: ParseInput, n: nat)
    requires
        is_property_call(inp, n),
        inp.error is None,
        exists|i: int| 0 <= i < inp.functions.len() && (#[trigger] inp.functions[i]).0 == inp.tokens[0].text,
        forall|i: int|
            0 <= i < inp.functions.len() && (#[trigger] inp.functions[i]).0 == inp.tokens[0].text ==> inp.functions[i].1
                == n,
    ensures
        p_filter(inp) == Ok::<ExprView, ParseErrorView>(
            ExprView::FunctionCall(inp.tokens[0].text, written_arguments(inp, n)),
        ),
{
    let name = inp.tokens[0].text;
    let loc = inp.tokens[0].loc;
    let all = written_arguments(inp, n);
    let len = 2 * n + 2 as int;
    let call = ExprView::FunctionCall(name, all);
    lemma_resolves(inp, name, loc, all, len);
    let first: int = 0;
    assert(inp.tokens[2 + 2 * first].kind == TokenKind::Property);
    lemma_arguments(inp, n, 0);
    assert(all.take(0) =~= Seq::<ExprView>::empty());
    assert(!at(inp, 2, TokenKind::RightParen));
    assert(p_call(inp, name, loc, 2) == Ok::<(ExprView, int), ParseErrorView>((call, len)));
    assert(p_primary(inp, 0) == Ok::<(ExprView, int), ParseErrorView>((call, len)));
    assert(parse_at_level(inp, 6, 0) == Ok::<(ExprView, int), ParseErrorView>((call, len)));
    lemma_passes_through(inp, 0, len, call, 1, 6);
    assert(peek(inp, len) is None);
}

/// Whether the text `s` ends with a backslash.
pub open spec fn ends_with_backslash(s: Seq<char>) -> bool {
    s.len() > 0 && s.last() == '\\'
}

/// Reading a string literal's body from position `p`, where the rest of the
/// input is the body written for `t` and the closing quote, gives the whole body.
proof fn lemma_scan_body(src: Seq<char>, t: Seq<char>, p: int, line: int, line_start: int, start_loc: Loc)
    requires
        1 <= p < src.len(),
        src.subrange(p, src.len() as int) == literal_body(t) + seq!['"'],
        !ends_with_backslash(t),
    ensures
        scan_string(src, p, line, line_start, start_loc, 1, false, 0).0 == Some(
            Ok::<crate::token::TokenView, crate::lexer::LexError>(
                crate::token::TokenView {
                    kind: TokenKind::String,
                    loc: start_loc,
                    text: src.subrange(1, src.len() - 1),
                },
            ),
        ),
        scan_string(src, p, line, line_start, start_loc, 1, false, 0).1.pos == src.len(),
    decreases t.len(),
{
    let rest = src.subrange(p, src.len() as int);
    lemma_body_step(t);
    assert(src[p] == rest[0]);
    if t.len() == 0 {
        assert(rest =~= seq!['"']);
    } else {
        let c = t[0];
        let t2 = t.drop_first();
        lemma_body_step(t2);
        assert(!ends_with_backslash(t2)) by {
            if t2.len() > 0 {
                assert(t2.last() == t.last());
            }
        }
        if c == '"' {
            assert(rest =~= seq!['\\', '"'] + (literal_body(t2) + seq!['"']));
            assert(src[p + 1] == rest[1]);
            assert(rest.skip(2) =~= literal_body(t2) + seq!['"']);
            assert(src.subrange(p + 2, src.len() as int) =~= rest.skip(2));
            lemma_scan_body(src, t2, p + 2, line, line_start, start_loc);
        } else if c == '\\' {
            assert(t2.len() > 0) by {
                if t2.len() == 0 {
                    assert(t.len() == 1 && t.last() == c);
                }
            }
            assert(rest =~= seq!['\\', '\\'] + (literal_body(t2) + seq!['"']));
            assert(src[p + 1] == rest[1]);
            assert(src[p + 2] == rest[2]);
            assert(rest[2] == literal_body(t2)[0]);
            assert(rest.skip(2) =~= literal_body(t2) + seq!['"']);
            assert(src.subrange(p + 2, src.len() as int) =~= rest.skip(2));
            lemma_scan_body(src, t2, p + 2, line, line_start, start_loc);
            assert(scan_string(src, p + 1, line, line_start, start_loc, 1, false, 0) == scan_string(
                src,
                p + 2,
                line,
                line_start,
                start_loc,
                1,
                false,
                0,
            ));
        } else {
            assert(rest =~= seq![c] + (literal_body(t2) + seq!['"']));
            assert(rest.skip(1) =~= literal_body(t2) + seq!['"']);
            assert(src.subrange(p + 1, src.len() as int) =~= rest.skip(1));
            if c == '\n' {
                lemma_scan_body(src, t2, p + 1, line + 1, byte_offset(src, p) + 1, start_loc);
            } else {
                lemma_scan_body(src, t2, p + 1, line, line_start, start_loc);
            }
        }
    }
}

/// A string literal reads back as its text from the filter's own text: for
/// every text `s` which does not end with a backslash, the filter made of
/// `s` written between double quotes, each backslash doubled and each double
/// quote preceded by a backslash, is the string `s`, whatever functions may
/// be called. (A text ending with a backslash cannot be written this way: the
/// doubled backslash before the closing quote reads as an escaped quote.)
pub proof fn string_literals_with_escapes_read_back(s: Seq<char>, functions: Seq<(Seq<char>, nat)>)
    requires
        !ends_with_backslash(s),
    ensures
        filter_result(quoted(s), functions) == Ok::<ExprView, ParseErrorView>(
            ExprView::Literal(LiteralView::String(s)),
        ),
{
    let src = quoted(s);
    let st = initial_state();
    let body = literal_body(s);
    assert(src =~= seq!['"'] + body + seq!['"']);
    assert(src[0] == '"');
    assert(src.take(0) =~= Seq::<char>::empty());
    assert(byte_offset(src, 0) == 0);
    let loc = loc_of(st, byte_offset(src, 0));
    assert(loc == Loc { line: 1, column: 1 });
    assert(src.subrange(1, src.len() as int) =~= body + seq!['"']);
    lemma_scan_body(src, s, 1, 1, 0, loc);
    assert(src.subrange(1, src.len() - 1) =~= body);
    let tok = crate::token::TokenView { kind: TokenKind::String, loc, text: body };
    let (r, next) = scan_next(src, st);
    assert(r == Some(Ok::<crate::token::TokenView, crate::lexer::LexError>(tok)));
    assert(next.pos == src.len());
    assert(scan_next(src, next).0 is None);
    assert(scan_all(src, next).0 =~= Seq::<crate::token::TokenView>::empty());
    assert(seq![tok] + Seq::<crate::token::TokenView>::empty() =~= seq![tok]);
    let inp = filter_input(src, functions);
    assert(inp.tokens == seq![tok]);
    string_bodies_read_back(inp, s);
}

} // verus!
