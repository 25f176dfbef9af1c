//! The messages with which rejected filters are reported.

use vstd::prelude::*;

use crate::lexer::LexError;
use crate::parser::{ParseError, ParseErrorView};
use crate::location::{decimal, decimal_chars, loc_text, Loc};
use crate::token::{Token, TokenKind};
use crate::unicode::{append_chars, chars_of, string_from_chars};

verus! {

/// The message with which a scanning error is reported.
pub open spec fn lex_message(e: LexError) -> Seq<char> {
    match e {
        LexError::OrphanedAmpersand(l) => "Filter included an orphaned '&' at "@ + loc_text(l)
            + " which is not a valid operator."@,
        LexError::OrphanedPipe(l) => "Filter included an orphaned '|' at "@ + loc_text(l)
            + " which is not a valid operator."@,
        LexError::OrphanedEquals(l) => "Filter included an orphaned '=' at "@ + loc_text(l)
            + " which is not a valid operator."@,
        LexError::UnterminatedString(l) =>
            "Reached the end of the filter without finding the closing quote for a string starting at "@
            + loc_text(l) + "."@,
        LexError::UnterminatedRawString(l) =>
            "Reached the end of the filter without finding the closing quote for a raw string starting at "@
            + loc_text(l) + "."@,
    }
}

/// An example of how the pattern operator of kind `kind` is written.
pub open spec fn pattern_example(kind: TokenKind) -> Seq<char> {
    if kind == TokenKind::LikeCs {
        "branch.name like_cs \"feat/*\""@
    } else if kind == TokenKind::Matches {
        "branch.name matches r\"^feat/.+$\""@
    } else {
        "branch.name like \"feat/*\""@
    }
}

/// The function names `names`, each followed by `()`, separated by `, `.
pub open spec fn call_list(names: Seq<Seq<char>>) -> Seq<char>
    decreases names.len(),
{
    if names.len() == 0 {
        Seq::empty()
    } else if names.len() == 1 {
        names[0] + "()"@
    } else {
        call_list(names.drop_last()) + ", "@ + names.last() + "()"@
    }
}

/// The message with which a parsing error is reported.
pub open spec fn parse_message(e: ParseErrorView) -> Seq<char> {
    match e {
        ParseErrorView::Lex(l) => lex_message(l),
        ParseErrorView::TrailingToken(t) => "Your filter expression contained an unexpected '"@ + Token::shown(t)
            + "' at "@ + loc_text(t.loc) + "."@,
        ParseErrorView::UnexpectedEnd =>
            "We reached the end of your filter expression while waiting for a [true, false, \"string\", number, (group), or property.name]."@,
        ParseErrorView::UnexpectedToken(t) => "While parsing your filter, we found an unexpected '"@ + Token::shown(t)
            + "' at "@ + loc_text(t.loc) + "."@,
        ParseErrorView::UnclosedGroup(l) => "When attempting to parse a grouped filter expression starting at "@
            + loc_text(l) + ", we didn't find the closing ')' where we expected to."@,
        ParseErrorView::UnclosedList(l) => "When attempting to parse a list filter expression starting at "@
            + loc_text(l) + ", we didn't find the closing ']' where we expected to."@,
        ParseErrorView::PatternNotLiteral(op, found) => "The '"@ + op.lexeme() + "' operator at "@ + loc_text(op.loc)
            + " must be followed by its pattern as a string literal, but we found '"@ + Token::shown(found)
            + "' at "@ + loc_text(found.loc) + " instead (for example: "@ + pattern_example(op.kind) + ")."@,
        ParseErrorView::PatternMissing(op) =>
            "We reached the end of your filter expression while looking for the string pattern of the '"@
            + op.lexeme() + "' operator at "@ + loc_text(op.loc) + " (for example: "@ + pattern_example(op.kind)
            + ")."@,
        ParseErrorView::InvalidRegex(l, pattern, _) => "Failed to compile the regular expression pattern \""@
            + pattern + "\" for the 'matches' operator at "@ + loc_text(l) + "."@,
        ParseErrorView::UnclosedCall(name, l) => "When attempting to parse the arguments to the '"@ + name
            + "()' function call at "@ + loc_text(l) + ", we didn't find the closing ')' where we expected to."@,
        ParseErrorView::WrongArity(name, l, expected, actual) => "The '"@ + name + "()' function at "@ + loc_text(l)
            + " expects "@ + decimal(expected) + (if expected == 1 { " argument"@ } else { " arguments"@ })
            + ", but your filter provided "@ + decimal(actual) + "."@,
        ParseErrorView::UnknownFunction(name, l, available) => "Your filter called an unknown function '"@ + name
            + "()' at "@ + loc_text(l) + ". The functions available in this filter are: "@ + call_list(available)
            + "."@,
        ParseErrorView::InvalidNumber(l, n) => "Failed to parse the number '"@ + n + "' which you provided at "@
            + loc_text(l) + "."@,
        ParseErrorView::InvalidDuration(l, d) => "Failed to parse the duration '"@ + d + "' which you provided at "@
            + loc_text(l) + "."@,
        ParseErrorView::UnknownDurationUnit(l, d, u) => "The duration '"@ + d + "' at "@ + loc_text(l)
            + " used the unit '"@ + u + "', which is not a recognized duration unit."@,
    }
}

/// Appends the characters of `s` to `out`.
fn push_str(out: &mut Vec<char>, s: &str)
    ensures
        final(out)@ == old(out)@ + s@,
{
    let v = chars_of(s);
    append_chars(out, &v);
}

/// Appends how `l` reads in messages to `out`.
fn push_loc(out: &mut Vec<char>, l: Loc)
    ensures
        final(out)@ == old(out)@ + loc_text(l),
{
    let text = l.display_text();
    push_str(out, text.as_str());
}

/// The text `before`, then the location `l`, then `after`.
fn around_loc(before: &str, l: Loc, after: &str) -> (r: String)
    ensures
        r@ == before@ + loc_text(l) + after@,
{
    let mut out = chars_of(before);
    push_loc(&mut out, l);
    push_str(&mut out, after);
    string_from_chars(&out)
}

/// Appends the decimal digits of `n` to `out`.
fn push_decimal(out: &mut Vec<char>, n: usize)
    ensures
        final(out)@ == old(out)@ + decimal(n as nat),
{
    let digits = decimal_chars(n);
    append_chars(out, &digits);
}

/// Appends how `t` is shown in messages to `out`.
fn push_shown(out: &mut Vec<char>, t: &Token)
    ensures
        final(out)@ == old(out)@ + Token::shown(t@),
{
    let text = t.display_text();
    push_str(out, text.as_str());
}

/// The example of how the pattern operator of kind `kind` is written.
fn example_text(kind: TokenKind) -> (r: &'static str)
    ensures
        r@ == pattern_example(kind),
{
    match kind {
        TokenKind::LikeCs => "branch.name like_cs \"feat/*\"",
        TokenKind::Matches => "branch.name matches r\"^feat/.+$\"",
        _ => "branch.name like \"feat/*\"",
    }
}

/// Appends the names `names`, each followed by `()`, separated by `, `, to `out`.
fn push_call_list(out: &mut Vec<char>, names: &Vec<String>)
    ensures
        final(out)@ == old(out)@ + call_list(names@.map_values(|s: String| s@)),
{
    let ghost all = names@.map_values(|s: String| s@);
    let mut i: usize = 0;
    while i < names.len()
        invariant
            0 <= i <= names.len(),
            all == names@.map_values(|s: String| s@),
            out@ == old(out)@ + call_list(all.take(i as int)),
        decreases names.len() - i,
    {
        let ghost before = out@;
        let ghost listed = all.take(i as int);
        let ghost grown = all.take(i + 1);
        proof {
            assert(grown.drop_last() =~= listed);
            assert(grown.last() == names@[i as int]@);
        }
        if i > 0 {
            push_str(out, ", ");
        }
        push_str(out, names[i].as_str());
        push_str(out, "()");
        proof {
            if i == 0 {
                assert(listed =~= Seq::<Seq<char>>::empty());
                assert(grown.len() == 1);
                assert(out@ =~= old(out)@ + call_list(grown));
            } else {
                assert(out@ =~= old(out)@ + call_list(grown));
            }
        }
        i += 1;
    }
    proof {
        assert(all.take(names.len() as int) =~= all);
    }
}

impl LexError {
    /// The message with which this error is reported (see [`lex_message`]).
    pub fn message(&self) -> (r: String)
        ensures
            r@ == lex_message(*self),
    {
        match self {
            LexError::OrphanedAmpersand(l) => around_loc(
                "Filter included an orphaned '&' at ",
                *l,
                " which is not a valid operator.",
            ),
            LexError::OrphanedPipe(l) => around_loc(
                "Filter included an orphaned '|' at ",
                *l,
                " which is not a valid operator.",
            ),
            LexError::OrphanedEquals(l) => around_loc(
                "Filter included an orphaned '=' at ",
                *l,
                " which is not a valid operator.",
            ),
            LexError::UnterminatedString(l) => around_loc(
                "Reached the end of the filter without finding the closing quote for a string starting at ",
                *l,
                ".",
            ),
            LexError::UnterminatedRawString(l) => around_loc(
                "Reached the end of the filter without finding the closing quote for a raw string starting at ",
                *l,
                ".",
            ),
        }
    }
}

impl ParseError {
    /// The message with which this error is reported (see [`parse_message`]).
    pub fn message(&self) -> (r: String)
        ensures
            r@ == parse_message(self@),
    {
        match self {
            ParseError::Lex(e) => e.message(),
            ParseError::TrailingToken(t) => {
                let mut out = chars_of("Your filter expression contained an unexpected '");
                push_shown(&mut out, t);
                push_str(&mut out, "' at ");
                push_loc(&mut out, t.location());
                push_str(&mut out, ".");
                string_from_chars(&out)
            },
            ParseError::UnexpectedEnd => {
                let out = chars_of(
                    "We reached the end of your filter expression while waiting for a [true, false, \"string\", number, (group), or property.name].",
                );
                string_from_chars(&out)
            },
            ParseError::UnexpectedToken(t) => {
                let mut out = chars_of("While parsing your filter, we found an unexpected '");
                push_shown(&mut out, t);
                push_str(&mut out, "' at ");
                push_loc(&mut out, t.location());
                push_str(&mut out, ".");
                string_from_chars(&out)
            },
            ParseError::UnclosedGroup(l) => around_loc(
                "When attempting to parse a grouped filter expression starting at ",
                *l,
                ", we didn't find the closing ')' where we expected to.",
            ),
            ParseError::UnclosedList(l) => around_loc(
                "When attempting to parse a list filter expression starting at ",
                *l,
                ", we didn't find the closing ']' where we expected to.",
            ),
            ParseError::PatternNotLiteral(op, found) => {
                let mut out = chars_of("The '");
                push_str(&mut out, op.lexeme());
                push_str(&mut out, "' operator at ");
                push_loc(&mut out, op.location());
                push_str(&mut out, " must be followed by its pattern as a string literal, but we found '");
                push_shown(&mut out, found);
                push_str(&mut out, "' at ");
                push_loc(&mut out, found.location());
                push_str(&mut out, " instead (for example: ");
                push_str(&mut out, example_text(op.kind()));
                push_str(&mut out, ").");
                string_from_chars(&out)
            },
            ParseError::PatternMissing(op) => {
                let mut out = chars_of(
                    "We reached the end of your filter expression while looking for the string pattern of the '",
                );
                push_str(&mut out, op.lexeme());
                push_str(&mut out, "' operator at ");
                push_loc(&mut out, op.location());
                push_str(&mut out, " (for example: ");
                push_str(&mut out, example_text(op.kind()));
                push_str(&mut out, ").");
                string_from_chars(&out)
            },
            ParseError::InvalidRegex(l, pattern, _) => {
                let mut out = chars_of("Failed to compile the regular expression pattern \"");
                push_str(&mut out, pattern.as_str());
                push_str(&mut out, "\" for the 'matches' operator at ");
                push_loc(&mut out, *l);
                push_str(&mut out, ".");
                string_from_chars(&out)
            },
            ParseError::UnclosedCall(name, l) => {
                let mut out = chars_of("When attempting to parse the arguments to the '");
                push_str(&mut out, name.as_str());
                push_str(&mut out, "()' function call at ");
                push_loc(&mut out, *l);
                push_str(&mut out, ", we didn't find the closing ')' where we expected to.");
                string_from_chars(&out)
            },
            ParseError::WrongArity(name, l, expected, actual) => {
                let mut out = chars_of("The '");
                push_str(&mut out, name.as_str());
                push_str(&mut out, "()' function at ");
                push_loc(&mut out, *l);
                push_str(&mut out, " expects ");
                push_decimal(&mut out, *expected);
                if *expected == 1 {
                    push_str(&mut out, " argument");
                } else {
                    push_str(&mut out, " arguments");
                }
                push_str(&mut out, ", but your filter provided ");
                push_decimal(&mut out, *actual);
                push_str(&mut out, ".");
                string_from_chars(&out)
            },
            ParseError::UnknownFunction(name, l, available) => {
                let mut out = chars_of("Your filter called an unknown function '");
                push_str(&mut out, name.as_str());
                push_str(&mut out, "()' at ");
                push_loc(&mut out, *l);
                push_str(&mut out, ". The functions available in this filter are: ");
                push_call_list(&mut out, available);
                push_str(&mut out, ".");
                string_from_chars(&out)
            },
            ParseError::InvalidNumber(l, n) => {
                let mut out = chars_of("Failed to parse the number '");
                push_str(&mut out, n.as_str());
                push_str(&mut out, "' which you provided at ");
                push_loc(&mut out, *l);
                push_str(&mut out, ".");
                string_from_chars(&out)
            },
            ParseError::InvalidDuration(l, d) => {
                let mut out = chars_of("Failed to parse the duration '");
                push_str(&mut out, d.as_str());
                push_str(&mut out, "' which you provided at ");
                push_loc(&mut out, *l);
                push_str(&mut out, ".");
                string_from_chars(&out)
            },
            ParseError::UnknownDurationUnit(l, d, u) => {
                let mut out = chars_of("The duration '");
                push_str(&mut out, d.as_str());
                push_str(&mut out, "' at ");
                push_loc(&mut out, *l);
                push_str(&mut out, " used the unit '");
                push_str(&mut out, u.as_str());
                push_str(&mut out, "', which is not a recognized duration unit.");
                string_from_chars(&out)
            },
        }
    }
}

} // verus!

verus! {

/// The advice which goes with a scanning error.
pub open spec fn lex_advice(e: LexError) -> Seq<Seq<char>> {
    match e {
        LexError::OrphanedAmpersand(_) => seq!["Ensure that you are using the \'&&\' operator to implement a logical AND within your filter."@],
        LexError::OrphanedPipe(_) => seq!["Ensure that you are using the \'||\' operator to implement a logical OR within your filter."@],
        LexError::OrphanedEquals(_) => seq!["Ensure that you are using the \'==\' operator to implement a logical equality within your filter."@],
        LexError::UnterminatedString(_) => seq!["Make sure that you have terminated your string with a \'\"\' character."@],
        LexError::UnterminatedRawString(_) => seq!["Make sure that you have terminated your raw string with a \'\"\' character."@, "Raw strings do not support escape sequences, so they cannot contain \'\"\' characters."@],
    }
}

/// The advice which goes with a parsing error.
pub open spec fn parse_advice(e: ParseErrorView) -> Seq<Seq<char>> {
    match e {
        ParseErrorView::Lex(e) => lex_advice(e),
        ParseErrorView::TrailingToken(_) => seq!["Make sure that you have written a valid filter query."@],
        ParseErrorView::UnexpectedToken(_) => seq!["Make sure that you have written a valid filter query."@],
        ParseErrorView::UnexpectedEnd => seq!["Make sure that you have written a valid filter query and that you haven\'t forgotten part of it."@],
        ParseErrorView::PatternMissing(_) => seq!["Make sure that you have written a valid filter query and that you haven\'t forgotten part of it."@],
        ParseErrorView::UnclosedGroup(_) => seq!["Make sure that you have balanced your parentheses correctly."@],
        ParseErrorView::UnclosedList(_) => seq!["Make sure that you have closed your tuple brackets correctly."@],
        ParseErrorView::PatternNotLiteral(..) => seq!["Provide the pattern as a string literal, since patterns are compiled when the filter is parsed and cannot be computed from properties."@],
        ParseErrorView::InvalidRegex(..) => seq!["Make sure that your pattern is a valid regular expression as understood by the Rust regex crate (https://docs.rs/regex)."@, "Remember that within a normal \"...\" string you need to escape backslashes (\\\\d); raw strings (r\"^v\\d+$\") avoid this."@],
        ParseErrorView::UnclosedCall(..) => seq!["Make sure that you have closed your function call\'s parentheses correctly."@],
        ParseErrorView::WrongArity(_, _, expected, _) if expected == 0 => seq!["The function does not accept any arguments: call it with empty parentheses."@],
        ParseErrorView::WrongArity(..) => seq!["Adjust the call so that it passes the number of arguments the function expects."@],
        ParseErrorView::UnknownFunction(..) => seq!["Make sure you are calling one of the supported functions, or register your own with Filter::with_functions."@],
        ParseErrorView::InvalidDuration(..) => seq!["Please make sure that the duration is well formatted. It should be in the form 90s, 1h30m, or 500ms."@],
        ParseErrorView::UnknownDurationUnit(..) => seq!["Use one of the supported duration units: \'ms\' (milliseconds), \'s\' (seconds), \'m\' (minutes), \'h\' (hours), \'d\' (days), or \'w\' (weeks)."@],
        ParseErrorView::InvalidNumber(..) => seq!["Please make sure that the number is well formatted. It should be in the form 123, or 123.45."@],
    }
}

impl LexError {
    /// The advice which goes with this error (see [`lex_advice`]).
    pub fn advice(&self) -> (r: &'static [&'static str])
        ensures
            r@.map_values(|s: &str| s@) == lex_advice(*self),
    {
        match self {
            LexError::OrphanedAmpersand(..) => {
                let a: &'static [&'static str] = &["Ensure that you are using the \'&&\' operator to implement a logical AND within your filter."];
                proof {
                    assert(a@.map_values(|s: &str| s@) =~= seq!["Ensure that you are using the \'&&\' operator to implement a logical AND within your filter."@]);
                }
                a
            },
            LexError::OrphanedPipe(..) => {
                let a: &'static [&'static str] = &["Ensure that you are using the \'||\' operator to implement a logical OR within your filter."];
                proof {
                    assert(a@.map_values(|s: &str| s@) =~= seq!["Ensure that you are using the \'||\' operator to implement a logical OR within your filter."@]);
                }
                a
            },
            LexError::OrphanedEquals(..) => {
                let a: &'static [&'static str] = &["Ensure that you are using the \'==\' operator to implement a logical equality within your filter."];
                proof {
                    assert(a@.map_values(|s: &str| s@) =~= seq!["Ensure that you are using the \'==\' operator to implement a logical equality within your filter."@]);
                }
                a
            },
            LexError::UnterminatedString(..) => {
                let a: &'static [&'static str] = &["Make sure that you have terminated your string with a \'\"\' character."];
                proof {
                    assert(a@.map_values(|s: &str| s@) =~= seq!["Make sure that you have terminated your string with a \'\"\' character."@]);
                }
                a
            },
            LexError::UnterminatedRawString(..) => {
                let a: &'static [&'static str] = &["Make sure that you have terminated your raw string with a \'\"\' character.", "Raw strings do not support escape sequences, so they cannot contain \'\"\' characters."];
                proof {
                    assert(a@.map_values(|s: &str| s@) =~= seq!["Make sure that you have terminated your raw string with a \'\"\' character."@, "Raw strings do not support escape sequences, so they cannot contain \'\"\' characters."@]);
                }
                a
            },
        }
    }
}

impl ParseError {
    /// The advice which goes with this error (see [`parse_advice`]).
    pub fn advice(&self) -> (r: &'static [&'static str])
        ensures
            r@.map_values(|s: &str| s@) == parse_advice(self@),
    {
        match self {
            ParseError::Lex(e) => e.advice(),
            ParseError::TrailingToken(..) => {
                let a: &'static [&'static str] = &["Make sure that you have written a valid filter query."];
                proof {
                    assert(a@.map_values(|s: &str| s@) =~= seq!["Make sure that you have written a valid filter query."@]);
                }
                a
            },
            ParseError::UnexpectedToken(..) => {
                let a: &'static [&'static str] = &["Make sure that you have written a valid filter query."];
                proof {
                    assert(a@.map_values(|s: &str| s@) =~= seq!["Make sure that you have written a valid filter query."@]);
                }
                a
            },
            ParseError::UnexpectedEnd => {
                let a: &'static [&'static str] = &["Make sure that you have written a valid filter query and that you haven\'t forgotten part of it."];
                proof {
                    assert(a@.map_values(|s: &str| s@) =~= seq!["Make sure that you have written a valid filter query and that you haven\'t forgotten part of it."@]);
                }
                a
            },
            ParseError::PatternMissing(..) => {
                let a: &'static [&'static str] = &["Make sure that you have written a valid filter query and that you haven\'t forgotten part of it."];
                proof {
                    assert(a@.map_values(|s: &str| s@) =~= seq!["Make sure that you have written a valid filter query and that you haven\'t forgotten part of it."@]);
                }
                a
            },
            ParseError::UnclosedGroup(..) => {
                let a: &'static [&'static str] = &["Make sure that you have balanced your parentheses correctly."];
                proof {
                    assert(a@.map_values(|s: &str| s@) =~= seq!["Make sure that you have balanced your parentheses correctly."@]);
                }
                a
            },
            ParseError::UnclosedList(..) => {
                let a: &'static [&'static str] = &["Make sure that you have closed your tuple brackets correctly."];
                proof {
                    assert(a@.map_values(|s: &str| s@) =~= seq!["Make sure that you have closed your tuple brackets correctly."@]);
                }
                a
            },
            ParseError::PatternNotLiteral(..) => {
                let a: &'static [&'static str] = &["Provide the pattern as a string literal, since patterns are compiled when the filter is parsed and cannot be computed from properties."];
                proof {
                    assert(a@.map_values(|s: &str| s@) =~= seq!["Provide the pattern as a string literal, since patterns are compiled when the filter is parsed and cannot be computed from properties."@]);
                }
                a
            },
            ParseError::InvalidRegex(..) => {
                let a: &'static [&'static str] = &["Make sure that your pattern is a valid regular expression as understood by the Rust regex crate (https://docs.rs/regex).", "Remember that within a normal \"...\" string you need to escape backslashes (\\\\d); raw strings (r\"^v\\d+$\") avoid this."];
                proof {
                    assert(a@.map_values(|s: &str| s@) =~= seq!["Make sure that your pattern is a valid regular expression as understood by the Rust regex crate (https://docs.rs/regex)."@, "Remember that within a normal \"...\" string you need to escape backslashes (\\\\d); raw strings (r\"^v\\d+$\") avoid this."@]);
                }
                a
            },
            ParseError::UnclosedCall(..) => {
                let a: &'static [&'static str] = &["Make sure that you have closed your function call\'s parentheses correctly."];
                proof {
                    assert(a@.map_values(|s: &str| s@) =~= seq!["Make sure that you have closed your function call\'s parentheses correctly."@]);
                }
                a
            },
            ParseError::WrongArity(_, _, 0, _) => {
                let a: &'static [&'static str] = &["The function does not accept any arguments: call it with empty parentheses."];
                proof {
                    assert(a@.map_values(|s: &str| s@) =~= seq!["The function does not accept any arguments: call it with empty parentheses."@]);
                }
                a
            },
            ParseError::WrongArity(..) => {
                let a: &'static [&'static str] = &["Adjust the call so that it passes the number of arguments the function expects."];
                proof {
                    assert(a@.map_values(|s: &str| s@) =~= seq!["Adjust the call so that it passes the number of arguments the function expects."@]);
                }
                a
            },
            ParseError::UnknownFunction(..) => {
                let a: &'static [&'static str] = &["Make sure you are calling one of the supported functions, or register your own with Filter::with_functions."];
                proof {
                    assert(a@.map_values(|s: &str| s@) =~= seq!["Make sure you are calling one of the supported functions, or register your own with Filter::with_functions."@]);
                }
                a
            },
            ParseError::InvalidDuration(..) => {
                let a: &'static [&'static str] = &["Please make sure that the duration is well formatted. It should be in the form 90s, 1h30m, or 500ms."];
                proof {
                    assert(a@.map_values(|s: &str| s@) =~= seq!["Please make sure that the duration is well formatted. It should be in the form 90s, 1h30m, or 500ms."@]);
                }
                a
            },
            ParseError::UnknownDurationUnit(..) => {
                let a: &'static [&'static str] = &["Use one of the supported duration units: \'ms\' (milliseconds), \'s\' (seconds), \'m\' (minutes), \'h\' (hours), \'d\' (days), or \'w\' (weeks)."];
                proof {
                    assert(a@.map_values(|s: &str| s@) =~= seq!["Use one of the supported duration units: \'ms\' (milliseconds), \'s\' (seconds), \'m\' (minutes), \'h\' (hours), \'d\' (days), or \'w\' (weeks)."@]);
                }
                a
            },
            ParseError::InvalidNumber(..) => {
                let a: &'static [&'static str] = &["Please make sure that the number is well formatted. It should be in the form 123, or 123.45."];
                proof {
                    assert(a@.map_values(|s: &str| s@) =~= seq!["Please make sure that the number is well formatted. It should be in the form 123, or 123.45."@]);
                }
                a
            },
        }
    }
}

} // verus!
