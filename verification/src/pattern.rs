//! Compiled pattern representations used by the `like` operator.
//!
//! Patterns are compiled once at parse time so that evaluating a filter
//! against an object only walks the compiled form.

use vstd::prelude::*;

use crate::case_sensitivity::{casefold_char, casefold_chars, fold_char, fold_seq, occurs_in};
use crate::unicode::{chars_of, string_from_chars};

verus! {

/// A single element of a compiled glob pattern.
#[derive(Debug, Clone, Copy, PartialEq, Eq, Structural)]
pub enum GlobToken {
    /// Matches exactly the given character. For case-insensitive globs the
    /// pattern's literals are folded at compile time, so a multi-character
    /// fold (`ß` → `ss`) becomes several of these.
    Literal(char),
    /// `?`: matches exactly one character.
    AnyChar,
    /// `*`: matches any sequence of characters, including the empty one.
    AnySequence,
}

/// Whether the token sequence `p` from index `i` matches the characters `s`
/// from index `j` to the end: `*` matches any run of characters, `?` one
/// character, and a literal exactly its character.
pub open spec fn matches_from(p: Seq<GlobToken>, s: Seq<char>, i: int, j: int) -> bool
    decreases p.len() - i, s.len() - j,
    when 0 <= i <= p.len() && 0 <= j <= s.len()
{
    if i == p.len() {
        j == s.len()
    } else {
        match p[i] {
            GlobToken::AnySequence => matches_from(p, s, i + 1, j) || (j < s.len()
                && matches_from(p, s, i, j + 1)),
            GlobToken::AnyChar => j < s.len() && matches_from(p, s, i + 1, j + 1),
            GlobToken::Literal(c) => j < s.len() && s[j] == c && matches_from(p, s, i + 1, j + 1),
        }
    }
}

/// Whether the whole of `s` matches the whole token sequence `p`.
pub open spec fn glob_matches(p: Seq<GlobToken>, s: Seq<char>) -> bool {
    matches_from(p, s, 0, 0)
}

/// The tokens standing for the literal character `c`: the character itself
/// when matching case-sensitively, its case fold otherwise.
pub open spec fn literal_tokens(c: char, case_sensitive: bool) -> Seq<GlobToken> {
    if case_sensitive {
        seq![GlobToken::Literal(c)]
    } else {
        fold_char(c).map_values(|f: char| literal_token(f))
    }
}

/// The tokens of the pattern characters from index `i` on, before runs of
/// `*` are collapsed: `*` and `?` are wildcards, a backslash makes the next
/// character literal (a trailing backslash is itself literal), and every
/// other character is a literal.
pub open spec fn lex_glob(p: Seq<char>, i: int, case_sensitive: bool) -> Seq<GlobToken>
    decreases p.len() - i,
{
    if i < 0 || i >= p.len() {
        Seq::empty()
    } else if p[i] == '*' {
        seq![GlobToken::AnySequence] + lex_glob(p, i + 1, case_sensitive)
    } else if p[i] == '?' {
        seq![GlobToken::AnyChar] + lex_glob(p, i + 1, case_sensitive)
    } else if p[i] == '\\' {
        if i + 1 < p.len() {
            literal_tokens(p[i + 1], case_sensitive) + lex_glob(p, i + 2, case_sensitive)
        } else {
            literal_tokens('\\', case_sensitive)
        }
    } else {
        literal_tokens(p[i], case_sensitive) + lex_glob(p, i + 1, case_sensitive)
    }
}

/// Drops every `*` token which directly follows another `*` (`after_star`
/// says whether the token before `ts` was a `*`).
pub open spec fn collapse_stars(ts: Seq<GlobToken>, after_star: bool) -> Seq<GlobToken>
    decreases ts.len(),
{
    if ts.len() == 0 {
        Seq::empty()
    } else if ts[0] == GlobToken::AnySequence {
        if after_star {
            collapse_stars(ts.skip(1), true)
        } else {
            seq![GlobToken::AnySequence] + collapse_stars(ts.skip(1), true)
        }
    } else {
        seq![ts[0]] + collapse_stars(ts.skip(1), false)
    }
}

/// The compiled form of a glob pattern.
pub open spec fn compile_glob(p: Seq<char>, case_sensitive: bool) -> Seq<GlobToken> {
    collapse_stars(lex_glob(p, 0, case_sensitive), false)
}

/// Whether a glob written as `pattern` accepts `input`: case-sensitive globs
/// match the input as written, case-insensitive ones match its case fold.
pub open spec fn glob_accepts(pattern: Seq<char>, case_sensitive: bool, input: Seq<char>) -> bool {
    glob_matches(
        compile_glob(pattern, case_sensitive),
        if case_sensitive {
            input
        } else {
            fold_seq(input)
        },
    )
}

/// Whether the last token of `ts` is a `*`.
pub open spec fn ends_with_star(ts: Seq<GlobToken>) -> bool {
    ts.len() > 0 && ts.last() == GlobToken::AnySequence
}

/// No token of `ts` is a `*`.
pub open spec fn star_free(ts: Seq<GlobToken>) -> bool {
    forall|x: int| 0 <= x < ts.len() ==> ts[x] != GlobToken::AnySequence
}

/// A glob pattern, compiled for matching.
///
/// The supported syntax is intentionally small:
///
/// - `*` matches any sequence of characters (including none).
/// - `?` matches exactly one character.
/// - `\*`, `\?`, and `\\` match a literal `*`, `?`, and `\`. A backslash
///   followed by any other character matches that character literally, and a
///   trailing backslash matches a literal `\`.
/// - Every other character matches itself, ignoring case.
///
/// Character classes (`[a-z]`) and alternation (`{a,b}`) are not supported.
///
/// Matching is case-insensitive by default ([`Glob::compile`]): the
/// pattern's literals (at compile time) and the input (at match time) are
/// both case-folded, and the pattern is matched against the folded input, so
/// `?` consumes exactly one folded character (an input `ß` counts as `ss`).
/// Case-sensitive globs ([`Glob::compile_cs`]) skip folding entirely.
#[derive(Debug, PartialEq)]
pub struct Glob {
    pattern: String,
    tokens: Vec<GlobToken>,
    case_sensitive: bool,
}

impl Glob {
    /// The tokens are the compiled form of the pattern.
    #[verifier::type_invariant]
    spec fn well_formed(self) -> bool {
        self.tokens@ == compile_glob(self.pattern@, self.case_sensitive)
    }

    /// The pattern this glob was compiled from.
    pub closed spec fn spec_pattern(self) -> Seq<char> {
        self.pattern@
    }

    /// Whether this glob matches case-sensitively.
    pub closed spec fn spec_case_sensitive(self) -> bool {
        self.case_sensitive
    }

    /// Compiles the provided pattern for case-insensitive matching.
    /// Compilation cannot fail: every string is a valid glob pattern.
    pub fn compile(pattern: &str) -> (g: Self)
        ensures
            g.spec_pattern() == pattern@,
            !g.spec_case_sensitive(),
    {
        Self::compile_with(pattern, false)
    }

    /// Compiles the provided pattern for case-sensitive matching, in which
    /// literal characters match exactly and no case folding takes place.
    pub fn compile_cs(pattern: &str) -> (g: Self)
        ensures
            g.spec_pattern() == pattern@,
            g.spec_case_sensitive(),
    {
        Self::compile_with(pattern, true)
    }

    /// Compiles `pattern`, matching case-sensitively or not.
    fn compile_with(pattern: &str, case_sensitive: bool) -> (g: Self)
        ensures
            g.spec_pattern() == pattern@,
            g.spec_case_sensitive() == case_sensitive,
    {
        let chars = chars_of(pattern);
        let tokens = compile_tokens(&chars, case_sensitive);
        Glob { pattern: string_from_chars(&chars), tokens, case_sensitive }
    }

    /// The pattern this glob was compiled from, as written.
    pub fn pattern(&self) -> (r: &str)
        ensures
            r@ == self.spec_pattern(),
    {
        self.pattern.as_str()
    }

    /// Whether this glob matches case-sensitively (see [`Glob::compile_cs`]).
    pub fn is_case_sensitive(&self) -> (r: bool)
        ensures
            r == self.spec_case_sensitive(),
    {
        self.case_sensitive
    }

    /// Tests whether the entire input matches this pattern (after case
    /// folding, unless this glob was compiled with [`Glob::compile_cs`]).
    pub fn is_match(&self, input: &str) -> (r: bool)
        ensures
            r == glob_accepts(self.spec_pattern(), self.spec_case_sensitive(), input@),
    {
        proof {
            use_type_invariant(self);
        }
        let chars = chars_of(input);
        if self.case_sensitive {
            self.matches_stream(&chars)
        } else {
            let folded = casefold_chars(&chars);
            self.matches_stream(&folded)
        }
    }

    /// Tests whether the entire character sequence matches the compiled
    /// tokens, with an iterative two-pointer walk which backtracks only to
    /// the most recent `*`.
    fn matches_stream(&self, chars: &Vec<char>) -> (r: bool)
        ensures
            r == glob_matches(self.tokens@, chars@),
    {
        let tokens = &self.tokens;
        let ghost p = tokens@;
        let ghost s = chars@;
        let n = chars.len();
        let mut t: usize = 0;
        let mut pos: usize = 0;
        let mut has_star = false;
        let mut star_t: usize = 0;
        let mut star_pos: usize = 0;
        loop
            invariant
                p == tokens@,
                p == self.tokens@,
                s == chars@,
                n == s.len(),
                t <= p.len(),
                pos <= n,
                !has_star ==> walk_ok(p, s, 0, 0, t as int),
                !has_star ==> glob_matches(p, s) == matches_from(p, s, t as int, pos as int),
                !has_star ==> pos == t,
                has_star ==> 1 <= star_t <= t,
                has_star ==> p[star_t - 1] == GlobToken::AnySequence,
                has_star ==> star_pos <= pos,
                has_star ==> pos - star_pos == t - star_t,
                has_star ==> walk_ok(p, s, star_t as int, star_pos as int, t as int),
                has_star ==> (glob_matches(p, s) == exists|k: int|
                    star_pos <= k <= n && #[trigger] matches_from(p, s, star_t as int, k)),
            decreases n + 1 - (if has_star { star_pos as int } else { 0int }), p.len() - t,
        {
            let ghost t0 = t as int;
            let ghost pos0 = pos as int;
            let progressed: bool;
            if t < tokens.len() {
                match tokens[t] {
                    GlobToken::AnySequence => {
                        proof {
                            lemma_star_unfold(p, s, t0, pos0);
                            if has_star {
                                lemma_walk(p, s, star_t as int, star_pos as int, t0);
                                assert forall|k: int|
                                    star_pos <= k <= n && #[trigger] matches_from(
                                        p,
                                        s,
                                        star_t as int,
                                        k,
                                    ) implies exists|m: int|
                                    pos0 <= m <= n && #[trigger] matches_from(p, s, t0 + 1, m) by {
                                    lemma_segment(p, s, star_t as int, k, t0);
                                    lemma_star_unfold(p, s, t0, k + t0 - star_t);
                                }
                                assert(matches_from(p, s, star_t as int, star_pos as int)
                                    == matches_from(p, s, t0, pos0));
                            } else {
                                lemma_walk(p, s, 0, 0, t0);
                            }
                        }
                        t += 1;
                        has_star = true;
                        star_t = t;
                        star_pos = pos;
                        progressed = true;
                        proof {
                            lemma_walk_empty(p, s, star_t as int, star_pos as int);
                        }
                    },
                    GlobToken::AnyChar => {
                        t += 1;
                        if pos < n {
                            pos += 1;
                            progressed = true;
                            proof {
                                lemma_walk_extend(p, s, if has_star { star_t as int } else { 0 }, if has_star { star_pos as int } else { 0 }, t0);
                            }
                        } else {
                            progressed = false;
                        }
                    },
                    GlobToken::Literal(c) => {
                        if pos < n && chars[pos] == c {
                            t += 1;
                            pos += 1;
                            progressed = true;
                            proof {
                                lemma_walk_extend(p, s, if has_star { star_t as int } else { 0 }, if has_star { star_pos as int } else { 0 }, t0);
                            }
                        } else {
                            progressed = false;
                        }
                    },
                }
            } else if pos == n {
                proof {
                    assert(t0 == p.len());
                    assert(matches_from(p, s, t0, pos0));
                    if has_star {
                        lemma_walk(p, s, star_t as int, star_pos as int, t0);
                        assert(matches_from(p, s, star_t as int, star_pos as int));
                    }
                }
                return true;
            } else {
                progressed = false;
            }
            if !progressed {
                proof {
                    assert(!matches_from(p, s, t0, pos0));
                }
                if !has_star {
                    return false;
                }
                proof {
                    lemma_walk(p, s, star_t as int, star_pos as int, t0);
                    assert(!matches_from(p, s, star_t as int, star_pos as int));
                }
                if star_pos == n {
                    proof {
                        if glob_matches(p, s) {
                            let k = choose|k: int|
                                star_pos <= k <= n && #[trigger] matches_from(p, s, star_t as int, k);
                            assert(k == star_pos);
                        }
                    }
                    return false;
                }
                star_pos += 1;
                t = star_t;
                pos = star_pos;
                proof {
                    lemma_walk_empty(p, s, star_t as int, star_pos as int);
                    assert forall|k: int|
                        star_pos - 1 <= k <= n && #[trigger] matches_from(
                            p,
                            s,
                            star_t as int,
                            k,
                        ) implies star_pos <= k <= n && matches_from(p, s, star_t as int, k) by {
                        if k == star_pos - 1 {
                        }
                    }
                }
            }
        }
    }

    /// The pattern as a quoted string literal, escaping backslashes and quotes.
    pub fn display_text(&self) -> (r: String)
        ensures
            r@ == quoted(self.spec_pattern()),
    {
        let chars = chars_of(self.pattern.as_str());
        quote(&chars)
    }
}

/// Whether the regular-expression pattern `pattern` compiles with the
/// default settings of the `regex` crate's `Regex::new`.
pub uninterp spec fn regex_compiles(pattern: Seq<char>) -> bool;

/// Whether the regular expression compiled from `pattern` by `Regex::new`
/// finds a match anywhere in `haystack`.
pub uninterp spec fn regex_matches(pattern: Seq<char>, haystack: Seq<char>) -> bool;

#[verifier::external_type_specification]
#[verifier::external_body]
pub struct ExRegex(regex::Regex);

#[verifier::external_type_specification]
#[verifier::external_body]
pub struct ExRegexError(regex::Error);

/// Calls `regex::Regex::new`, which compiles `pattern` with the default
/// settings. Whether it succeeds is a function of the pattern alone, named
/// by [`regex_compiles`].
#[verifier::external_body]
fn regex_new(pattern: &str) -> (r: Result<regex::Regex, regex::Error>)
    ensures
        r is Ok <==> regex_compiles(pattern@),
{
    regex::Regex::new(pattern)
}

/// The text with which the `regex` crate describes why `pattern` does not
/// compile: the `Display` form of the error `Regex::new` returns for it.
pub uninterp spec fn regex_error_message(pattern: Seq<char>) -> Seq<char>;

/// Calls `regex::Regex::new` on a pattern which does not compile and formats
/// the error it returns through its `Display` implementation; the text is a
/// function of the pattern alone, named by [`regex_error_message`].
#[verifier::external_body]
pub(crate) fn regex_error_of(pattern: &str) -> (r: String)
    requires
        !regex_compiles(pattern@),
    ensures
        r@ == regex_error_message(pattern@),
{
    match regex::Regex::new(pattern) {
        Err(e) => format!("{}", e),
        Ok(_) => String::new(),
    }
}

/// Calls `regex::Regex::is_match` on the regex held by `re`. That regex was
/// compiled from `re`'s pattern (the only way to build a [`CompiledRegex`] is
/// [`CompiledRegex::compile`]), so the answer is a function of that pattern
/// and the haystack, named by [`regex_matches`].
#[verifier::external_body]
fn regex_is_match(re: &CompiledRegex, haystack: &str) -> (r: bool)
    ensures
        r == regex_matches(re.spec_pattern(), haystack@),
{
    re.regex.is_match(haystack)
}

/// A regular expression, compiled once at parse time.
///
/// Unlike globs, regular expressions are unanchored (use `^`/`$` to anchor)
/// and case-sensitive (use `(?i)` to ignore case).
#[derive(Debug)]
pub struct CompiledRegex {
    regex: regex::Regex,
    pattern: String,
}

impl CompiledRegex {
    /// The pattern this regular expression was compiled from.
    pub closed spec fn spec_pattern(self) -> Seq<char> {
        self.pattern@
    }

    /// Compiles the provided regular expression pattern.
    pub fn compile(pattern: &str) -> (r: Result<Self, regex::Error>)
        ensures
            r is Ok <==> regex_compiles(pattern@),
            r matches Ok(re) ==> re.spec_pattern() == pattern@,
    {
        match regex_new(pattern) {
            Ok(regex) => {
                let chars = chars_of(pattern);
                Ok(CompiledRegex { regex, pattern: string_from_chars(&chars) })
            },
            Err(e) => Err(e),
        }
    }

    /// The pattern this regular expression was compiled from, as written.
    pub fn pattern(&self) -> (r: &str)
        ensures
            r@ == self.spec_pattern(),
    {
        self.pattern.as_str()
    }

    /// Tests whether the input contains a match for this regular expression.
    pub fn is_match(&self, input: &str) -> (r: bool)
        ensures
            r == regex_matches(self.spec_pattern(), input@),
    {
        regex_is_match(self, input)
    }

    /// Two compiled regular expressions are equal when their patterns are.
    pub fn same_as(&self, other: &CompiledRegex) -> (r: bool)
        ensures
            r == (self.spec_pattern() == other.spec_pattern()),
    {
        let a = chars_of(self.pattern.as_str());
        let b = chars_of(other.pattern.as_str());
        if a.len() != b.len() {
            return false;
        }
        let r = crate::case_sensitivity::is_char_prefix(&a, 0, &b);
        proof {
            assert(a@.skip(0) == a@);
            if r {
                assert(a@ =~= b@);
            }
        }
        r
    }

    /// The pattern as a quoted string literal, escaping backslashes and quotes.
    pub fn display_text(&self) -> (r: String)
        ensures
            r@ == quoted(self.spec_pattern()),
    {
        let chars = chars_of(self.pattern.as_str());
        quote(&chars)
    }
}

/// Whether the glob token `tok` matches the character `c`, assuming it is not a `*`.
pub open spec fn token_accepts(tok: GlobToken, c: char) -> bool {
    match tok {
        GlobToken::Literal(l) => l == c,
        _ => true,
    }
}

/// The tokens `p[i..t)` contain no `*` and match the characters of `s` from `j` on, one each.
pub open spec fn walk_ok(p: Seq<GlobToken>, s: Seq<char>, i: int, j: int, t: int) -> bool {
    &&& 0 <= i <= t <= p.len()
    &&& 0 <= j
    &&& j + (t - i) <= s.len()
    &&& forall|x: int|
        i <= x < t ==> #[trigger] p[x] != GlobToken::AnySequence && token_accepts(
            p[x],
            s[j + (x - i)],
        )
}

proof fn lemma_walk_empty(p: Seq<GlobToken>, s: Seq<char>, i: int, j: int)
    requires
        0 <= i <= p.len(),
        0 <= j <= s.len(),
    ensures
        walk_ok(p, s, i, j, i),
{
}

proof fn lemma_walk_extend(p: Seq<GlobToken>, s: Seq<char>, i: int, j: int, t: int)
    requires
        walk_ok(p, s, i, j, t),
        t < p.len(),
        j + (t - i) < s.len(),
        p[t] != GlobToken::AnySequence,
        token_accepts(p[t], s[j + (t - i)]),
    ensures
        walk_ok(p, s, i, j, t + 1),
{
    assert forall|x: int| i <= x < t + 1 implies p[x] != GlobToken::AnySequence
        && #[trigger] token_accepts(p[x], s[j + (x - i)]) by {
        if x < t {
        }
    }
}

/// A star-free walk does not change whether the rest matches.
proof fn lemma_walk(p: Seq<GlobToken>, s: Seq<char>, i: int, j: int, t: int)
    requires
        walk_ok(p, s, i, j, t),
    ensures
        matches_from(p, s, i, j) == matches_from(p, s, t, j + (t - i)),
    decreases t - i,
{
    if i < t {
        assert(token_accepts(p[i], s[j]));
        assert(walk_ok(p, s, i + 1, j + 1, t)) by {
            assert forall|x: int| i + 1 <= x < t implies p[x] != GlobToken::AnySequence
                && #[trigger] token_accepts(p[x], s[(j + 1) + (x - (i + 1))]) by {
                assert(token_accepts(p[x], s[j + (x - i)]));
            }
        }
        lemma_walk(p, s, i + 1, j + 1, t);
    }
}

/// If the star-free tokens `p[i..b)` match from `j`, they match one character each.
proof fn lemma_segment(p: Seq<GlobToken>, s: Seq<char>, i: int, j: int, b: int)
    requires
        0 <= i <= b <= p.len(),
        0 <= j <= s.len(),
        forall|x: int| i <= x < b ==> p[x] != GlobToken::AnySequence,
        matches_from(p, s, i, j),
    ensures
        walk_ok(p, s, i, j, b),
        matches_from(p, s, b, j + (b - i)),
    decreases b - i,
{
    if i < b {
        assert(p[i] != GlobToken::AnySequence);
        lemma_segment(p, s, i + 1, j + 1, b);
        assert forall|x: int| i <= x < b implies p[x] != GlobToken::AnySequence
            && #[trigger] token_accepts(p[x], s[j + (x - i)]) by {
            if x > i {
                assert(token_accepts(p[x], s[(j + 1) + (x - (i + 1))]));
            }
        }
    }
}

/// A `*` at index `i` matches from `j` exactly when the rest matches from some later position.
proof fn lemma_star_unfold(p: Seq<GlobToken>, s: Seq<char>, i: int, j: int)
    requires
        0 <= i < p.len(),
        0 <= j <= s.len(),
        p[i] == GlobToken::AnySequence,
    ensures
        matches_from(p, s, i, j) == exists|k: int| j <= k <= s.len() && #[trigger] matches_from(p, s, i + 1, k),
    decreases s.len() - j,
{
    assert(matches_from(p, s, i, j) == (matches_from(p, s, i + 1, j) || (j < s.len()
        && matches_from(p, s, i, j + 1))));
    if j < s.len() {
        lemma_star_unfold(p, s, i, j + 1);
        if matches_from(p, s, i, j) && !matches_from(p, s, i + 1, j) {
            let k = choose|k: int| j + 1 <= k <= s.len() && #[trigger] matches_from(p, s, i + 1, k);
            assert(j <= k <= s.len() && matches_from(p, s, i + 1, k));
        }
        if exists|k: int| j <= k <= s.len() && #[trigger] matches_from(p, s, i + 1, k) {
            let k = choose|k: int| j <= k <= s.len() && #[trigger] matches_from(p, s, i + 1, k);
            if k > j {
                assert(j + 1 <= k <= s.len() && matches_from(p, s, i + 1, k));
            }
        }
    } else {
        if exists|k: int| j <= k <= s.len() && #[trigger] matches_from(p, s, i + 1, k) {
            let k = choose|k: int| j <= k <= s.len() && #[trigger] matches_from(p, s, i + 1, k);
            assert(k == j);
        }
    }
}

/// Compiles the pattern characters into glob tokens, collapsing runs of `*`.
fn compile_tokens(chars: &Vec<char>, case_sensitive: bool) -> (tokens: Vec<GlobToken>)
    ensures
        tokens@ == compile_glob(chars@, case_sensitive),
{
    let ghost p = chars@;
    let n = chars.len();
    let mut tokens: Vec<GlobToken> = Vec::new();
    let mut i: usize = 0;
    while i < n
        invariant
            p == chars@,
            n == p.len(),
            0 <= i <= n,
            compile_glob(p, case_sensitive) == tokens@ + collapse_stars(
                lex_glob(p, i as int, case_sensitive),
                ends_with_star(tokens@),
            ),
        decreases n - i,
    {
        let c = chars[i];
        i += 1;
        if c == '*' {
            proof {
                assert(lex_glob(p, i - 1, case_sensitive) == seq![GlobToken::AnySequence]
                    + lex_glob(p, i as int, case_sensitive));
                lemma_collapse_star(lex_glob(p, i as int, case_sensitive), ends_with_star(tokens@));
            }
            let last_is_star = tokens.len() > 0 && tokens[tokens.len() - 1] == GlobToken::AnySequence;
            if !last_is_star {
                let ghost old_tokens = tokens@;
                tokens.push(GlobToken::AnySequence);
                proof {
                    assert(tokens@ == old_tokens + seq![GlobToken::AnySequence]);
                    vstd::seq_lib::lemma_concat_associative(old_tokens, seq![GlobToken::AnySequence], collapse_stars(lex_glob(p, i as int, case_sensitive), true));
                }
            }
        } else if c == '?' {
            let ghost old_tokens = tokens@;
            proof {
                assert(lex_glob(p, i - 1, case_sensitive) == seq![GlobToken::AnyChar]
                    + lex_glob(p, i as int, case_sensitive));
                lemma_collapse_literals(seq![GlobToken::AnyChar], lex_glob(p, i as int, case_sensitive), ends_with_star(tokens@));
            }
            tokens.push(GlobToken::AnyChar);
            proof {
                assert(tokens@ == old_tokens + seq![GlobToken::AnyChar]);
                vstd::seq_lib::lemma_concat_associative(old_tokens, seq![GlobToken::AnyChar], collapse_stars(lex_glob(p, i as int, case_sensitive), false));
            }
        } else {
            let lit: char;
            if c == '\\' {
                if i < n {
                    lit = chars[i];
                    i += 1;
                    proof {
                        assert(lex_glob(p, i - 2, case_sensitive) == literal_tokens(lit, case_sensitive)
                            + lex_glob(p, i as int, case_sensitive));
                    }
                } else {
                    lit = '\\';
                    proof {
                        assert(lex_glob(p, i - 1, case_sensitive) == literal_tokens(lit, case_sensitive)
                            + lex_glob(p, i as int, case_sensitive));
                    }
                }
            } else {
                lit = c;
                proof {
                    assert(lex_glob(p, i - 1, case_sensitive) == literal_tokens(lit, case_sensitive)
                        + lex_glob(p, i as int, case_sensitive));
                }
            }
            push_literal(&mut tokens, lit, case_sensitive, Ghost(lex_glob(p, i as int, case_sensitive)));
        }
    }
    proof {
        assert(lex_glob(p, n as int, case_sensitive) == Seq::<GlobToken>::empty());
        assert(tokens@ + Seq::<GlobToken>::empty() == tokens@);
    }
    tokens
}

/// Appends the tokens for the literal `c`, keeping the compiled-form bookkeeping.
fn push_literal(tokens: &mut Vec<GlobToken>, c: char, case_sensitive: bool, Ghost(rest): Ghost<Seq<GlobToken>>)
    ensures
        final(tokens)@ + collapse_stars(rest, ends_with_star(final(tokens)@)) == old(tokens)@
            + collapse_stars(literal_tokens(c, case_sensitive) + rest, ends_with_star(old(tokens)@)),
{
    let ghost lits = literal_tokens(c, case_sensitive);
    let ghost start = tokens@;
    proof {
        lemma_literal_tokens_star_free(c, case_sensitive);
        lemma_collapse_literals(lits, rest, ends_with_star(start));
    }
    if case_sensitive {
        tokens.push(GlobToken::Literal(c));
        proof {
            assert(tokens@ == start + lits);
        }
    } else {
        let folded = casefold_char(c);
        proof {
            assert(lits == folded@.map_values(|f: char| literal_token(f)));
        }
        let mut k: usize = 0;
        while k < folded.len()
            invariant
                0 <= k <= folded.len(),
                folded@ == fold_char(c),
                lits == folded@.map_values(|f: char| literal_token(f)),
                tokens@ == start + lits.take(k as int),
            decreases folded.len() - k,
        {
            tokens.push(GlobToken::Literal(folded[k]));
            k += 1;
            proof {
                assert(lits.take(k as int) == lits.take(k - 1).push(lits[k - 1]));
            }
        }
        proof {
            assert(lits.take(folded.len() as int) == lits);
        }
    }
    proof {
        assert(tokens@ == start + lits);
        if lits.len() == 0 {
            assert(tokens@ == start);
        } else {
            assert(tokens@.last() == lits.last());
        }
        vstd::seq_lib::lemma_concat_associative(start, lits, collapse_stars(rest, ends_with_star(tokens@)));
    }
}

proof fn lemma_literal_tokens_star_free(c: char, case_sensitive: bool)
    ensures
        star_free(literal_tokens(c, case_sensitive)),
{
    let lits = literal_tokens(c, case_sensitive);
    assert forall|x: int| 0 <= x < lits.len() implies lits[x] != GlobToken::AnySequence by {
        if !case_sensitive {
            assert(lits[x] == literal_token(fold_char(c)[x]));
        }
    }
}

/// The token for the literal character `f`.
pub open spec fn literal_token(f: char) -> GlobToken {
    GlobToken::Literal(f)
}

proof fn lemma_collapse_star(rest: Seq<GlobToken>, after_star: bool)
    ensures
        collapse_stars(seq![GlobToken::AnySequence] + rest, after_star) == if after_star {
            collapse_stars(rest, true)
        } else {
            seq![GlobToken::AnySequence] + collapse_stars(rest, true)
        },
{
    assert((seq![GlobToken::AnySequence] + rest).skip(1) == rest);
}

/// Star-free tokens pass through the collapsing unchanged.
proof fn lemma_collapse_literals(lits: Seq<GlobToken>, rest: Seq<GlobToken>, after_star: bool)
    requires
        star_free(lits),
    ensures
        collapse_stars(lits + rest, after_star) == lits + collapse_stars(
            rest,
            if lits.len() == 0 { after_star } else { false },
        ),
    decreases lits.len(),
{
    if lits.len() == 0 {
        assert(lits + rest == rest);
    } else {
        assert((lits + rest)[0] == lits[0]);
        assert((lits + rest).skip(1) == lits.skip(1) + rest);
        lemma_collapse_literals(lits.skip(1), rest, false);
        assert(lits == seq![lits[0]] + lits.skip(1));
    }
}

/// The pattern has no wildcard (`*`, `?`) and no backslash: every character is literal.
pub open spec fn plain_pattern(pattern: Seq<char>) -> bool {
    forall|i: int| 0 <= i < pattern.len() ==> #[trigger] pattern[i] != '*' && pattern[i] != '?' && pattern[i] != '\\'
}

/// The tokens of a pattern whose characters are all literal, from index `i` on:
/// one literal per character, or per character of the case fold.
proof fn lemma_lex_plain(p: Seq<char>, i: int, case_sensitive: bool)
    requires
        plain_pattern(p),
        0 <= i <= p.len(),
    ensures
        lex_glob(p, i, case_sensitive) == (if case_sensitive { p.skip(i) } else { fold_seq(p.skip(i)) }).map_values(
            |c: char| literal_token(c),
        ),
    decreases p.len() - i,
{
    let f = |c: char| literal_token(c);
    if i == p.len() {
        assert(p.skip(i) =~= Seq::<char>::empty());
        assert(Seq::<char>::empty().map_values(|c: char| fold_char(c)) =~= Seq::<Seq<char>>::empty());
        assert(fold_seq(Seq::<char>::empty()) =~= Seq::<char>::empty());
        assert(Seq::<char>::empty().map_values(f) =~= Seq::<GlobToken>::empty());
    } else {
        lemma_lex_plain(p, i + 1, case_sensitive);
        let rest = p.skip(i + 1);
        assert(p.skip(i) =~= seq![p[i]] + rest);
        if case_sensitive {
            assert((seq![p[i]] + rest).map_values(f) =~= seq![f(p[i])] + rest.map_values(f));
        } else {
            crate::case_sensitivity::fold_of_concatenation(seq![p[i]], rest);
            assert(seq![p[i]].map_values(|c: char| fold_char(c)) =~= seq![fold_char(p[i])]);
            seq![fold_char(p[i])].lemma_flatten_one_element();
            assert(fold_seq(seq![p[i]]) =~= fold_char(p[i]));
            assert((fold_char(p[i]) + fold_seq(rest)).map_values(f) =~= fold_char(p[i]).map_values(f) + fold_seq(rest).map_values(f));
        }
    }
}

/// Tokens without `*` are left as they are by the collapsing of `*` runs.
proof fn lemma_collapse_star_free(ts: Seq<GlobToken>, after_star: bool)
    requires
        star_free(ts),
    ensures
        collapse_stars(ts, after_star) == ts,
{
    lemma_collapse_literals(ts, Seq::empty(), after_star);
    assert(ts + Seq::<GlobToken>::empty() =~= ts);
}

/// Literal tokens for the characters `t` match the characters of `s` from `j`
/// on exactly when those characters are `t` from `i` on.
proof fn lemma_match_literals(t: Seq<char>, s: Seq<char>, i: int, j: int)
    requires
        0 <= i <= t.len(),
        0 <= j <= s.len(),
    ensures
        matches_from(t.map_values(|c: char| literal_token(c)), s, i, j) == (s.skip(j) == t.skip(i)),
    decreases t.len() - i,
{
    let p = t.map_values(|c: char| literal_token(c));
    if i == t.len() {
        assert(t.skip(i) =~= Seq::<char>::empty());
        if j == s.len() {
            assert(s.skip(j) =~= Seq::<char>::empty());
        } else {
            assert(s.skip(j).len() > 0);
        }
    } else {
        assert(p[i] == GlobToken::Literal(t[i]));
        assert(t.skip(i) =~= seq![t[i]] + t.skip(i + 1));
        if j < s.len() {
            lemma_match_literals(t, s, i + 1, j + 1);
            assert(s.skip(j) =~= seq![s[j]] + s.skip(j + 1));
            if s.skip(j) == t.skip(i) {
                assert(s.skip(j)[0] == t.skip(i)[0]);
                assert(s.skip(j + 1) =~= s.skip(j).skip(1));
                assert(t.skip(i + 1) =~= t.skip(i).skip(1));
            }
        } else {
            assert(s.skip(j).len() == 0);
        }
    }
}

/// Matching literal tokens for `t` against the whole of `s`.
proof fn lemma_plain_matches(t: Seq<char>, s: Seq<char>)
    ensures
        glob_matches(t.map_values(|c: char| literal_token(c)), s) == (s == t),
{
    lemma_match_literals(t, s, 0, 0);
    assert(s.skip(0) =~= s);
    assert(t.skip(0) =~= t);
}

/// The tokens of a plain pattern are star free.
proof fn lemma_literals_star_free(t: Seq<char>)
    ensures
        star_free(t.map_values(|c: char| literal_token(c))),
{
}

/// A glob whose characters are all literal, matched case-sensitively, accepts
/// exactly the text it is written as.
pub proof fn plain_glob_accepts_only_itself(pattern: Seq<char>, input: Seq<char>)
    requires
        plain_pattern(pattern),
    ensures
        glob_accepts(pattern, true, input) == (input == pattern),
{
    lemma_lex_plain(pattern, 0, true);
    assert(pattern.skip(0) =~= pattern);
    lemma_literals_star_free(pattern);
    lemma_collapse_star_free(pattern.map_values(|c: char| literal_token(c)), false);
    lemma_plain_matches(pattern, input);
}

/// A glob whose characters are all literal, matched case-insensitively,
/// accepts exactly the texts which equal it under case folding, that is the
/// texts which `==` finds equal to it.
pub proof fn plain_glob_accepts_caseless_equals(pattern: Seq<char>, input: Seq<char>)
    requires
        plain_pattern(pattern),
    ensures
        glob_accepts(pattern, false, input) == (fold_seq(input) == fold_seq(pattern)),
{
    lemma_lex_plain(pattern, 0, false);
    assert(pattern.skip(0) =~= pattern);
    lemma_literals_star_free(fold_seq(pattern));
    lemma_collapse_star_free(fold_seq(pattern).map_values(|c: char| literal_token(c)), false);
    lemma_plain_matches(fold_seq(pattern), fold_seq(input));
}

/// A lone `*` matches every suffix of the input.
proof fn lemma_star_from(s: Seq<char>, j: int)
    requires
        0 <= j <= s.len(),
    ensures
        matches_from(seq![GlobToken::AnySequence], s, 0, j),
    decreases s.len() - j,
{
    let p = seq![GlobToken::AnySequence];
    assert(p.len() == 1 && p[0] == GlobToken::AnySequence);
    if j < s.len() {
        lemma_star_from(s, j + 1);
    } else {
        assert(matches_from(p, s, 1, j));
    }
}

/// The compiled form of a pattern of one wildcard character `w` (`*` or `?`).
proof fn lemma_compile_wildcard(w: char, case_sensitive: bool)
    requires
        w == '*' || w == '?',
    ensures
        compile_glob(seq![w], case_sensitive) == seq![if w == '*' { GlobToken::AnySequence } else { GlobToken::AnyChar }],
{
    let p = seq![w];
    assert(lex_glob(p, 1, case_sensitive) =~= Seq::<GlobToken>::empty());
    let t = if w == '*' { GlobToken::AnySequence } else { GlobToken::AnyChar };
    assert(lex_glob(p, 0, case_sensitive) =~= seq![t]);
    assert(seq![t].skip(1) =~= Seq::<GlobToken>::empty());
    assert(collapse_stars(Seq::<GlobToken>::empty(), true) =~= Seq::<GlobToken>::empty());
    assert(collapse_stars(Seq::<GlobToken>::empty(), false) =~= Seq::<GlobToken>::empty());
    assert(collapse_stars(seq![t], false) =~= seq![t]);
}

/// The pattern `*` accepts every input, whether matched case-sensitively or not.
pub proof fn star_glob_accepts_everything(case_sensitive: bool, input: Seq<char>)
    ensures
        glob_accepts(seq!['*'], case_sensitive, input),
{
    lemma_compile_wildcard('*', case_sensitive);
    lemma_star_from(if case_sensitive { input } else { fold_seq(input) }, 0);
}

/// The pattern `?`, matched case-sensitively, accepts exactly the inputs of one character.
pub proof fn question_glob_accepts_one_character(input: Seq<char>)
    ensures
        glob_accepts(seq!['?'], true, input) == (input.len() == 1),
{
    lemma_compile_wildcard('?', true);
    let p = seq![GlobToken::AnyChar];
    assert(p.len() == 1 && p[0] == GlobToken::AnyChar);
    if input.len() >= 1 {
        assert(matches_from(p, input, 1, 1) == (input.len() == 1));
    }
}

/// The case-insensitive operations cannot tell apart two texts which fold to
/// the same characters: equality, `contains`, `startswith`, `endswith` and
/// `like` (with any pattern) answer the same for either text, on either side.
pub proof fn case_insensitive_operations_ignore_case(a: Seq<char>, b: Seq<char>, other: Seq<char>, pattern: Seq<char>)
    requires
        fold_seq(a) == fold_seq(b),
    ensures
        (fold_seq(a) == fold_seq(other)) == (fold_seq(b) == fold_seq(other)),
        occurs_in(fold_seq(a), fold_seq(other)) == occurs_in(fold_seq(b), fold_seq(other)),
        occurs_in(fold_seq(other), fold_seq(a)) == occurs_in(fold_seq(other), fold_seq(b)),
        fold_seq(other).is_prefix_of(fold_seq(a)) == fold_seq(other).is_prefix_of(fold_seq(b)),
        fold_seq(a).is_prefix_of(fold_seq(other)) == fold_seq(b).is_prefix_of(fold_seq(other)),
        fold_seq(other).is_suffix_of(fold_seq(a)) == fold_seq(other).is_suffix_of(fold_seq(b)),
        fold_seq(a).is_suffix_of(fold_seq(other)) == fold_seq(b).is_suffix_of(fold_seq(other)),
        glob_accepts(pattern, false, a) == glob_accepts(pattern, false, b),
{
}

/// The tokens of `x + y` from index `x.len() + j` on are those of `y` from `j` on.
proof fn lemma_lex_suffix(x: Seq<char>, y: Seq<char>, j: int, case_sensitive: bool)
    requires
        0 <= j,
    ensures
        lex_glob(x + y, x.len() + j, case_sensitive) == lex_glob(y, j, case_sensitive),
    decreases y.len() - j,
{
    let p = x + y;
    let i = x.len() + j;
    if j < y.len() {
        assert(p[i] == y[j]);
        if i + 1 < p.len() {
            assert(p[i + 1] == y[j + 1]);
        }
        lemma_lex_suffix(x, y, j + 1, case_sensitive);
        if j + 2 <= y.len() {
            lemma_lex_suffix(x, y, j + 2, case_sensitive);
        }
    }
}

/// Before any backslash, the tokens of `a + t` are those of `a` followed by
/// those of `t`'s part.
proof fn lemma_lex_prefix(a: Seq<char>, t: Seq<char>, i: int, case_sensitive: bool)
    requires
        0 <= i <= a.len(),
        forall|k: int| 0 <= k < a.len() ==> #[trigger] a[k] != '\\',
    ensures
        lex_glob(a + t, i, case_sensitive) == lex_glob(a, i, case_sensitive) + lex_glob(a + t, a.len() as int, case_sensitive),
    decreases a.len() - i,
{
    let p = a + t;
    if i == a.len() {
        assert(lex_glob(a, i, case_sensitive) =~= Seq::<GlobToken>::empty());
        assert(Seq::<GlobToken>::empty() + lex_glob(p, i, case_sensitive) =~= lex_glob(p, i, case_sensitive));
    } else {
        assert(p[i] == a[i]);
        lemma_lex_prefix(a, t, i + 1, case_sensitive);
        let rest = lex_glob(p, a.len() as int, case_sensitive);
        if a[i] == '*' {
            vstd::seq_lib::lemma_concat_associative(seq![GlobToken::AnySequence], lex_glob(a, i + 1, case_sensitive), rest);
        } else if a[i] == '?' {
            vstd::seq_lib::lemma_concat_associative(seq![GlobToken::AnyChar], lex_glob(a, i + 1, case_sensitive), rest);
        } else {
            vstd::seq_lib::lemma_concat_associative(literal_tokens(a[i], case_sensitive), lex_glob(a, i + 1, case_sensitive), rest);
        }
    }
}

/// Collapsing `*` runs treats two `*` in a row as one.
proof fn lemma_collapse_double_star(p: Seq<GlobToken>, r: Seq<GlobToken>, after_star: bool)
    ensures
        collapse_stars(p + seq![GlobToken::AnySequence, GlobToken::AnySequence] + r, after_star) == collapse_stars(
            p + seq![GlobToken::AnySequence] + r,
            after_star,
        ),
    decreases p.len(),
{
    let s2 = seq![GlobToken::AnySequence, GlobToken::AnySequence];
    let s1 = seq![GlobToken::AnySequence];
    if p.len() == 0 {
        assert(p + s2 + r =~= seq![GlobToken::AnySequence] + (s1 + r));
        assert(p + s1 + r =~= s1 + r);
        lemma_collapse_star(s1 + r, after_star);
        lemma_collapse_star(r, true);
        lemma_collapse_star(r, after_star);
    } else {
        let q = p.drop_first();
        assert((p + s2 + r).skip(1) =~= q + s2 + r);
        assert((p + s1 + r).skip(1) =~= q + s1 + r);
        assert((p + s2 + r)[0] == p[0]);
        assert((p + s1 + r)[0] == p[0]);
        lemma_collapse_double_star(q, r, true);
        lemma_collapse_double_star(q, r, false);
    }
}

/// Two `*` in a row match as one: with `a` free of backslashes (so that no
/// `*` of the pair is escaped), `a ** b` and `a * b` accept the same inputs,
/// whether matched case-sensitively or not.
pub proof fn double_star_matches_as_single_star(a: Seq<char>, b: Seq<char>, case_sensitive: bool, input: Seq<char>)
    requires
        forall|k: int| 0 <= k < a.len() ==> #[trigger] a[k] != '\\',
    ensures
        glob_accepts(a + seq!['*', '*'] + b, case_sensitive, input) == glob_accepts(a + seq!['*'] + b, case_sensitive, input),
{
    let two = a + seq!['*', '*'] + b;
    let one = a + seq!['*'] + b;
    let n = a.len() as int;
    assert(two =~= a + (seq!['*', '*'] + b));
    assert(one =~= a + (seq!['*'] + b));
    lemma_lex_prefix(a, seq!['*', '*'] + b, 0, case_sensitive);
    lemma_lex_prefix(a, seq!['*'] + b, 0, case_sensitive);
    let la = lex_glob(a, 0, case_sensitive);
    let lb = lex_glob(b, 0, case_sensitive);
    assert(two =~= (a + seq!['*', '*']) + b);
    assert(one =~= (a + seq!['*']) + b);
    lemma_lex_suffix(a + seq!['*', '*'], b, 0, case_sensitive);
    lemma_lex_suffix(a + seq!['*'], b, 0, case_sensitive);
    assert(two[n] == '*' && two[n + 1] == '*');
    assert(one[n] == '*');
    assert(lex_glob(two, n + 2, case_sensitive) == lb);
    assert(lex_glob(one, n + 1, case_sensitive) == lb);
    assert(lex_glob(two, n + 1, case_sensitive) =~= seq![GlobToken::AnySequence] + lb);
    assert(lex_glob(two, n, case_sensitive) =~= seq![GlobToken::AnySequence, GlobToken::AnySequence] + lb);
    assert(lex_glob(one, n, case_sensitive) =~= seq![GlobToken::AnySequence] + lb);
    assert(lex_glob(two, 0, case_sensitive) =~= la + seq![GlobToken::AnySequence, GlobToken::AnySequence] + lb);
    assert(lex_glob(one, 0, case_sensitive) =~= la + seq![GlobToken::AnySequence] + lb);
    lemma_collapse_double_star(la, lb, false);
}

/// Whether the text `s` is in the set of texts which the token `t` stands
/// for: every text for `*`, every one-character text for `?`, and the text
/// of the character itself for a literal.
pub open spec fn token_language(t: GlobToken, s: Seq<char>) -> bool {
    match t {
        GlobToken::AnySequence => true,
        GlobToken::AnyChar => s.len() == 1,
        GlobToken::Literal(c) => s == seq![c],
    }
}

/// Whether `s` is the concatenation of one piece per token of `p`, each
/// piece in its token's set of texts.
pub open spec fn in_concatenation(p: Seq<GlobToken>, s: Seq<char>) -> bool {
    exists|parts: Seq<Seq<char>>|
        #![trigger parts.flatten()]
        parts.len() == p.len() && parts.flatten() == s && forall|k: int|
            0 <= k < p.len() ==> token_language(p[k], #[trigger] parts[k])
}

/// Matching from token `i` and character `j` is membership of the rest of
/// the text in the concatenation of the rest of the tokens' sets.
proof fn lemma_concatenation(p: Seq<GlobToken>, s: Seq<char>, i: int, j: int)
    requires
        0 <= i <= p.len(),
        0 <= j <= s.len(),
    ensures
        matches_from(p, s, i, j) == in_concatenation(p.skip(i), s.skip(j)),
    decreases p.len() - i + s.len() - j,
{
    let pt = p.skip(i);
    let st = s.skip(j);
    if i == p.len() {
        assert(pt.len() == 0);
        if j == s.len() {
            let parts = Seq::<Seq<char>>::empty();
            assert(parts.flatten() =~= st);
            assert(in_concatenation(pt, st));
        }
        if in_concatenation(pt, st) {
            let parts = choose|parts: Seq<Seq<char>>|
                #![trigger parts.flatten()]
                parts.len() == pt.len() && parts.flatten() == st && forall|k: int|
                    0 <= k < pt.len() ==> token_language(pt[k], #[trigger] parts[k]);
            assert(parts.flatten() =~= Seq::<char>::empty());
        }
    } else {
        let t = p[i];
        assert(pt[0] == t);
        assert(pt.drop_first() =~= p.skip(i + 1));
        if j < s.len() {
            assert(st[0] == s[j]);
            assert(st.drop_first() =~= s.skip(j + 1));
        }
        if j < s.len() {
            lemma_concatenation(p, s, i + 1, j + 1);
        }
        if t == GlobToken::AnySequence {
            lemma_concatenation(p, s, i + 1, j);
            if j < s.len() {
                lemma_concatenation(p, s, i, j + 1);
            }
        }
        // From a match to a split.
        if matches_from(p, s, i, j) {
            if t == GlobToken::AnySequence && matches_from(p, s, i + 1, j) {
                let rest = choose|parts: Seq<Seq<char>>|
                    #![trigger parts.flatten()]
                    parts.len() == p.skip(i + 1).len() && parts.flatten() == st && forall|k: int|
                        0 <= k < p.skip(i + 1).len() ==> token_language(p.skip(i + 1)[k], #[trigger] parts[k]);
                let parts = seq![Seq::<char>::empty()] + rest;
                assert(parts.drop_first() =~= rest);
                assert(parts.flatten() =~= st);
                assert forall|k: int| 0 <= k < pt.len() implies token_language(pt[k], #[trigger] parts[k]) by {
                    if k > 0 {
                        assert(parts[k] == rest[k - 1]);
                        assert(pt[k] == p.skip(i + 1)[k - 1]);
                    }
                }
                assert(in_concatenation(pt, st));
            } else if t == GlobToken::AnySequence {
                let tail = s.skip(j + 1);
                let more = choose|parts: Seq<Seq<char>>|
                    #![trigger parts.flatten()]
                    parts.len() == pt.len() && parts.flatten() == tail && forall|k: int|
                        0 <= k < pt.len() ==> token_language(pt[k], #[trigger] parts[k]);
                assert(more.len() > 0);
                let parts = more.update(0, seq![s[j]] + more[0]);
                assert(parts.len() > 0);
                assert(parts[0] == seq![s[j]] + more[0]);
                assert(parts.drop_first() =~= more.drop_first());
                assert(more.flatten() == more[0] + more.drop_first().flatten());
                assert(parts.flatten() == parts[0] + parts.drop_first().flatten());
                assert(parts.flatten() =~= seq![s[j]] + (more[0] + more.drop_first().flatten()));
                assert(st =~= seq![s[j]] + tail);
                assert(parts.flatten() =~= st);
                assert forall|k: int| 0 <= k < pt.len() implies token_language(pt[k], #[trigger] parts[k]) by {
                    if k > 0 {
                        assert(parts[k] == more[k]);
                    }
                }
                assert(in_concatenation(pt, st));
            } else {
                let rest = choose|parts: Seq<Seq<char>>|
                    #![trigger parts.flatten()]
                    parts.len() == p.skip(i + 1).len() && parts.flatten() == s.skip(j + 1) && forall|k: int|
                        0 <= k < p.skip(i + 1).len() ==> token_language(p.skip(i + 1)[k], #[trigger] parts[k]);
                let parts = seq![seq![s[j]]] + rest;
                assert(parts.drop_first() =~= rest);
                assert(parts.flatten() == parts[0] + parts.drop_first().flatten());
                assert(parts.flatten() =~= st);
                assert forall|k: int| 0 <= k < pt.len() implies token_language(pt[k], #[trigger] parts[k]) by {
                    if k > 0 {
                        assert(parts[k] == rest[k - 1]);
                        assert(pt[k] == p.skip(i + 1)[k - 1]);
                    } else {
                        assert(parts[0] =~= seq![s[j]]);
                    }
                }
                assert(in_concatenation(pt, st));
            }
        }
        // From a split to a match.
        if in_concatenation(pt, st) {
            let parts = choose|parts: Seq<Seq<char>>|
                #![trigger parts.flatten()]
                parts.len() == pt.len() && parts.flatten() == st && forall|k: int|
                    0 <= k < pt.len() ==> token_language(pt[k], #[trigger] parts[k]);
            let w = parts[0];
            let others = parts.drop_first();
            assert(parts.flatten() == w + others.flatten());
            assert(token_language(t, w));
            assert forall|k: int| 0 <= k < p.skip(i + 1).len() implies token_language(p.skip(i + 1)[k], #[trigger] others[k]) by {
                assert(others[k] == parts[k + 1]);
                assert(p.skip(i + 1)[k] == pt[k + 1]);
            }
            if w.len() == 0 {
                assert(st =~= others.flatten());
                assert(in_concatenation(p.skip(i + 1), s.skip(j)));
                assert(t == GlobToken::AnySequence);
            } else {
                assert(j < s.len());
                assert(st[0] == w[0]);
                if t == GlobToken::AnySequence {
                    let shorter = parts.update(0, w.drop_first());
                    assert(shorter.drop_first() =~= others);
                    assert(shorter.flatten() == shorter[0] + shorter.drop_first().flatten());
                    assert(shorter.flatten() =~= s.skip(j + 1));
                    assert forall|k: int| 0 <= k < pt.len() implies token_language(pt[k], #[trigger] shorter[k]) by {
                        if k > 0 {
                            assert(shorter[k] == parts[k]);
                        }
                    }
                    assert(in_concatenation(pt, s.skip(j + 1)));
                } else {
                    assert(w =~= seq![w[0]]);
                    assert(others.flatten() =~= s.skip(j + 1));
                    assert(in_concatenation(p.skip(i + 1), s.skip(j + 1)));
                }
            }
        }
    }
}

/// A compiled glob matches exactly the texts which split into one piece per
/// token, each piece in its token's set: any text for `*`, any single
/// character for `?`, the character itself for a literal. So the whole
/// input must be matched, and no tokens match only the empty input.
pub proof fn glob_matches_concatenations(p: Seq<GlobToken>, s: Seq<char>)
    ensures
        glob_matches(p, s) == in_concatenation(p, s),
{
    lemma_concatenation(p, s, 0, 0);
    assert(p.skip(0) =~= p);
    assert(s.skip(0) =~= s);
}

/// What [`Glob::is_match`] decides, read as a language: a glob written as
/// `pattern` accepts exactly the inputs (case-folded, unless it is
/// case-sensitive) which split into one piece per compiled token, each piece
/// in its token's set of texts.
pub proof fn glob_accepts_concatenations(pattern: Seq<char>, case_sensitive: bool, input: Seq<char>)
    ensures
        glob_accepts(pattern, case_sensitive, input) == in_concatenation(
            compile_glob(pattern, case_sensitive),
            if case_sensitive {
                input
            } else {
                fold_seq(input)
            },
        ),
{
    glob_matches_concatenations(
        compile_glob(pattern, case_sensitive),
        if case_sensitive {
            input
        } else {
            fold_seq(input)
        },
    );
}

/// The characters of `s` between double quotes, with each backslash doubled
/// and each double quote preceded by a backslash.
pub open spec fn quoted(s: Seq<char>) -> Seq<char> {
    seq!['"'] + s.map_values(|c: char| escape_char(c)).flatten() + seq!['"']
}

/// A character as it appears within a quoted string.
pub open spec fn escape_char(c: char) -> Seq<char> {
    if c == '\\' {
        seq!['\\', '\\']
    } else if c == '"' {
        seq!['\\', '"']
    } else {
        seq![c]
    }
}

/// Writes `s` as a quoted string (see [`quoted`]).
pub fn quote(s: &Vec<char>) -> (r: String)
    ensures
        r@ == quoted(s@),
{
    let mut out: Vec<char> = Vec::new();
    out.push('"');
    let mut i: usize = 0;
    while i < s.len()
        invariant
            0 <= i <= s.len(),
            out@ == seq!['"'] + s@.take(i as int).map_values(|c: char| escape_char(c)).flatten(),
        decreases s.len() - i,
    {
        let c = s[i];
        if c == '\\' {
            out.push('\\');
            out.push('\\');
        } else if c == '"' {
            out.push('\\');
            out.push('"');
        } else {
            out.push(c);
        }
        proof {
            crate::unicode::lemma_map_flatten_step(s@, |c: char| escape_char(c), i as int);
        }
        i += 1;
    }
    out.push('"');
    proof {
        assert(s@.take(s.len() as int) == s@);
    }
    string_from_chars(&out)
}

} // verus!
