//! Find-in-files search: what to look for, and which lines to report.
//!
//! Walking directories and reading files are left to the caller, who offers
//! each matching line.
use crate::text::{chars_of, string_of};
use grep_regex::{RegexMatcher, RegexMatcherBuilder};
use vstd::prelude::*;

verus! {

/// What to search for and how much to report.
#[derive(Debug, Clone, PartialEq, Eq)]
pub struct SearchOptions {
    pub query: String,
    pub case_sensitive: bool,
    /// Whether the query is a regular expression.
    pub regex: bool,
    pub whole_word: bool,
    /// How many lines are reported in all.
    pub max_matches: usize,
    /// How many lines are reported of one file.
    pub max_per_file: usize,
}

/// The bound on all lines where none is given.
pub fn default_max_matches() -> (r: usize)
    ensures
        r == 1024,
{
    1024
}

/// The bound on the lines of one file where none is given.
pub fn default_max_per_file() -> (r: usize)
    ensures
        r == 200,
{
    200
}

/// How many characters of a line are shown.
pub const PREVIEW_CHARS: usize = 240;

/// A line that matches. `P` is how files are named.
#[derive(Debug, Clone, PartialEq, Eq)]
pub struct ContentMatch<P> {
    pub path: P,
    pub line_number: u64,
    /// The line, cut where it is long.
    pub preview: String,
}

/// Compiled regular expressions.
#[verifier::external_type_specification]
#[verifier::external_body]
pub struct ExRegexMatcher(grep_regex::RegexMatcher);

/// Why an expression could not be compiled.
#[verifier::external_type_specification]
#[verifier::external_body]
pub struct ExRegexError(grep_regex::Error);

/// Why a search could not be set up.
#[derive(Debug)]
pub enum MatcherError {
    /// The expression could not be compiled.
    BadPattern(grep_regex::Error),
}

/// Whether a character means something other than itself in a regular
/// expression.
pub open spec fn is_meta(c: char) -> bool {
    ||| c == '\\' || c == '.' || c == '+' || c == '*' || c == '?' || c == '('
    ||| c == ')' || c == '|' || c == '[' || c == ']' || c == '{' || c == '}'
    ||| c == '^' || c == '$' || c == '#' || c == '&' || c == '-' || c == '~'
}

/// The text with a backslash in front of each character that means something
/// other than itself.
pub open spec fn escaped(s: Seq<char>) -> Seq<char>
    decreases s.len(),
{
    if s.len() == 0 {
        s
    } else if is_meta(s.last()) {
        escaped(s.drop_last()).push('\\').push(s.last())
    } else {
        escaped(s.drop_last()).push(s.last())
    }
}

/// Calls `regex::escape`, which puts a backslash in front of each
/// metacharacter and leaves the other characters as they are.
#[verifier::external_body]
fn escape(text: &str) -> (r: String)
    ensures
        r@ == escaped(text@),
{
    regex::escape(text)
}

/// What compiling a regular expression gives: the matcher, or why there is
/// none.
pub uninterp spec fn regex_matcher(
    pattern: Seq<char>,
    case_insensitive: bool,
) -> Result<RegexMatcher, grep_regex::Error>;

/// Calls `RegexMatcherBuilder::build` on a builder with every setting at its
/// default but for case. The matcher, or the error, depends on the expression
/// and that setting alone. Which lines a matcher finds is left unsaid.
#[verifier::external_body]
fn compile(pattern: &str, case_insensitive: bool) -> (r: Result<RegexMatcher, grep_regex::Error>)
    ensures
        r == regex_matcher(pattern@, case_insensitive),
{
    let mut builder = RegexMatcherBuilder::new();
    builder.case_insensitive(case_insensitive);
    builder.build(pattern)
}

/// The regular expression for a query.
pub open spec fn pattern_of(query: Seq<char>, regex: bool, whole_word: bool) -> Seq<char> {
    let text = if regex {
        query
    } else {
        escaped(query)
    };
    if whole_word {
        "\\b"@ + text + "\\b"@
    } else {
        text
    }
}

/// The regular expression for a query: the query itself or its characters
/// taken literally, between word boundaries where whole words are wanted.
pub fn search_pattern(query: &str, regex: bool, whole_word: bool) -> (r: String)
    ensures
        r@ == pattern_of(query@, regex, whole_word),
{
    let text = if regex {
        query.to_owned()
    } else {
        escape(query)
    };
    if whole_word {
        let mut out = "\\b".to_owned();
        out.append(text.as_str());
        out.append("\\b");
        out
    } else {
        text
    }
}

/// Compiles the expression for a query.
pub fn build_matcher(query: &str, case_sensitive: bool, regex: bool, whole_word: bool) -> (r: Result<
    RegexMatcher,
    MatcherError,
>)
    ensures
        match regex_matcher(pattern_of(query@, regex, whole_word), !case_sensitive) {
            Ok(matcher) => r == Ok::<RegexMatcher, MatcherError>(matcher),
            Err(err) => r == Err::<RegexMatcher, MatcherError>(MatcherError::BadPattern(err)),
        },
{
    let pattern = search_pattern(query, regex, whole_word);
    match compile(pattern.as_str(), !case_sensitive) {
        Ok(matcher) => Ok(matcher),
        Err(err) => Err(MatcherError::BadPattern(err)),
    }
}

/// The line without the line end.
pub open spec fn without_line_end(s: Seq<char>) -> Seq<char>
    decreases s.len(),
{
    if s.len() > 0 && (s.last() == '\r' || s.last() == '\n') {
        without_line_end(s.drop_last())
    } else {
        s
    }
}

/// What is shown of a line: at most `max` characters of it, and a mark where
/// it was cut.
pub open spec fn preview_of(line: Seq<char>, max: nat) -> Seq<char> {
    let text = without_line_end(line);
    if text.len() <= max {
        text
    } else {
        text.take(max as int).push('\u{2026}')
    }
}

/// What is shown of a line.
pub fn trim_line(line: &str, max: usize) -> (r: String)
    ensures
        r@ == preview_of(line@, max as nat),
{
    let chars = chars_of(line);
    let mut end: usize = chars.len();
    assert(chars@.take(end as int) =~= chars@);
    while end > 0 && (chars[end - 1] == '\r' || chars[end - 1] == '\n')
        invariant
            end <= chars.len(),
            chars@ == line@,
            without_line_end(chars@.take(end as int)) == without_line_end(line@),
        decreases end,
    {
        assert(chars@.take(end as int).drop_last() =~= chars@.take(end - 1));
        end = end - 1;
    }
    let ghost text = without_line_end(line@);
    assert(text == chars@.take(end as int));
    if end <= max {
        let r = string_of(&chars, 0, end);
        assert(r@ =~= text);
        r
    } else {
        let mut r = string_of(&chars, 0, max);
        r.push('\u{2026}');
        assert(r@ =~= text.take(max as int).push('\u{2026}'));
        r
    }
}

/// What is shown of a line has at most one character more than the bound, and
/// is the line itself where that is within the bound.
pub proof fn law_preview_length(line: Seq<char>, max: nat)
    ensures
        preview_of(line, max).len() <= max + 1,
        without_line_end(line).len() <= max ==> preview_of(line, max) == without_line_end(line),
        without_line_end(line).len() > max ==> preview_of(line, max).last() == '\u{2026}',
{
}

/// How many lines a search has reported.
pub struct SearchCaps {
    max_matches: usize,
    max_per_file: usize,
    total: usize,
    per_file: usize,
    capped: bool,
}

/// The state of a search: the two bounds, the lines reported in all and of
/// the file at hand, and whether the first bound was hit.
pub struct CapsView {
    pub max_matches: nat,
    pub max_per_file: nat,
    pub total: nat,
    pub per_file: nat,
    pub capped: bool,
}

impl SearchCaps {
    /// The state of the search.
    pub closed spec fn view(&self) -> CapsView {
        CapsView {
            max_matches: self.max_matches as nat,
            max_per_file: self.max_per_file as nat,
            total: self.total as nat,
            per_file: self.per_file as nat,
            capped: self.capped,
        }
    }

    /// No more is reported than the bounds allow, and a bound that was hit is
    /// marked.
    #[verifier::type_invariant]
    spec fn wf(self) -> bool {
        &&& self.total <= self.max_matches
        &&& self.per_file <= self.max_per_file
        &&& self.capped ==> self.total == self.max_matches
        &&& self.total > 0 && self.total == self.max_matches ==> self.capped
    }

    /// A search that has not reported anything.
    pub fn new(opts: &SearchOptions) -> (r: SearchCaps)
        ensures
            r@ == (CapsView {
                max_matches: opts.max_matches as nat,
                max_per_file: opts.max_per_file as nat,
                total: 0,
                per_file: 0,
                capped: false,
            }),
    {
        SearchCaps {
            max_matches: opts.max_matches,
            max_per_file: opts.max_per_file,
            total: 0,
            per_file: 0,
            capped: false,
        }
    }

    /// Goes on to the next file.
    pub fn begin_file(&mut self)
        ensures
            final(self)@ == (CapsView { per_file: 0, ..old(self)@ }),
    {
        proof {
            use_type_invariant(&*self);
        }
        self.per_file = 0;
    }

    /// Takes a matching line: the match to report, or none where the rest of
    /// the file is to be left.
    pub fn offer<P>(&mut self, path: P, line_number: u64, line: &str) -> (r: Option<
        ContentMatch<P>,
    >)
        ensures
            final(self)@ == (CapsView {
                capped: old(self)@.capped || old(self)@.total >= old(self)@.max_matches,
                ..old(self)@
            }),
            match r {
                Some(m) => {
                    &&& old(self)@.total < old(self)@.max_matches
                    &&& old(self)@.per_file < old(self)@.max_per_file
                    &&& m.path == path
                    &&& m.line_number == line_number
                    &&& m.preview@ == preview_of(line@, PREVIEW_CHARS as nat)
                },
                None => old(self)@.total >= old(self)@.max_matches || old(self)@.per_file >= old(
                    self,
                )@.max_per_file,
            },
    {
        proof {
            use_type_invariant(&*self);
        }
        if self.total >= self.max_matches {
            self.capped = true;
            return None;
        }
        if self.per_file >= self.max_per_file {
            return None;
        }
        Some(ContentMatch { path, line_number, preview: trim_line(line, PREVIEW_CHARS) })
    }

    /// A match was handed on. With the last one that the bound on all lines
    /// allows, the bound is hit.
    pub fn reported(&mut self)
        requires
            old(self)@.total < old(self)@.max_matches,
            old(self)@.per_file < old(self)@.max_per_file,
        ensures
            final(self)@ == (CapsView {
                total: old(self)@.total + 1,
                per_file: old(self)@.per_file + 1,
                capped: old(self)@.total + 1 == old(self)@.max_matches,
                ..old(self)@
            }),
    {
        proof {
            use_type_invariant(&*self);
        }
        *self = SearchCaps {
            max_matches: self.max_matches,
            max_per_file: self.max_per_file,
            total: self.total + 1,
            per_file: self.per_file + 1,
            capped: self.total + 1 == self.max_matches,
        };
    }

    /// Whether to go on to another file. After a file that could not be read
    /// the search always goes on.
    pub fn goes_on(&self, readable: bool) -> (r: bool)
        ensures
            r == (!readable || self@.total < self@.max_matches),
    {
        !readable || self.total < self.max_matches
    }

    /// Whether the bound on all lines was hit: as many lines were reported as
    /// it allows, or, where it allows none, a line matched.
    pub fn capped(&self) -> (r: bool)
        ensures
            r == self@.capped,
            self@.max_matches > 0 ==> r == (self@.total >= self@.max_matches),
    {
        proof {
            use_type_invariant(self);
        }
        self.capped
    }

    /// How many lines were reported, which is never more than the bound.
    pub fn total(&self) -> (r: usize)
        ensures
            r == self@.total,
            r <= self@.max_matches,
            self@.per_file <= self@.max_per_file,
    {
        proof {
            use_type_invariant(self);
        }
        self.total
    }
}

/// The pattern of a search: with the regex switch the query itself, without it
/// the query with its characters taken literally; the whole-word switch puts a
/// word boundary on both sides of whatever the pattern is without it.
pub proof fn law_search_pattern(query: Seq<char>, regex: bool)
    ensures
        pattern_of(query, regex, true) == "\\b"@ + pattern_of(query, regex, false) + "\\b"@,
        pattern_of(query, true, false) == query,
        pattern_of(query, false, false) == escaped(query),
{
}

/// Whether no character of a text means something other than itself.
pub open spec fn is_plain(s: Seq<char>) -> bool {
    forall|i: int| 0 <= i < s.len() ==> !is_meta(#[trigger] s[i])
}

/// What an escaped text stands for: a backslash stands for the character
/// behind it.
pub open spec fn unescaped(s: Seq<char>) -> Seq<char>
    decreases s.len(),
{
    if s.len() == 0 {
        s
    } else if s.len() >= 2 && s[s.len() - 2] == '\\' && is_meta(s.last()) {
        unescaped(s.drop_last().drop_last()).push(s.last())
    } else {
        unescaped(s.drop_last()).push(s.last())
    }
}

/// A query without the regex switch is searched literally: reading the
/// escaped query back gives the query. Letters, digits and blanks are not
/// escaped.
pub proof fn law_escape_is_literal(query: Seq<char>, c: char)
    ensures
        unescaped(escaped(query)) == query,
        is_meta(c) ==> escaped(query.push(c)) == escaped(query) + seq!['\\', c],
        !is_meta(c) ==> escaped(query.push(c)) == escaped(query).push(c),
        is_meta('.') && is_meta('*') && is_meta('(') && is_meta('[') && is_meta('\\'),
        'a' <= c && c <= 'z' || 'A' <= c && c <= 'Z' || '0' <= c && c <= '9' || c == ' ' ==> !is_meta(
            c,
        ),
    decreases query.len(),
{
    let longer = query.push(c);
    assert(longer.drop_last() =~= query);
    if is_meta(c) {
        assert(escaped(longer) =~= escaped(query) + seq!['\\', c]);
    }
    if query.len() > 0 {
        let front = query.drop_last();
        law_escape_is_literal(front, c);
        let whole = escaped(query);
        if is_meta(query.last()) {
            assert(whole.drop_last().drop_last() =~= escaped(front));
        } else {
            assert(whole.drop_last() =~= escaped(front));
        }
        assert(front.push(query.last()) =~= query);
    }
}

/// A query without characters of special meaning is searched as it stands
/// under either setting of the regex switch.
pub proof fn law_plain_query(query: Seq<char>, whole_word: bool)
    requires
        is_plain(query),
    ensures
        escaped(query) == query,
        pattern_of(query, true, whole_word) == pattern_of(query, false, whole_word),
    decreases query.len(),
{
    if query.len() > 0 {
        let front = query.drop_last();
        assert forall|i: int| 0 <= i < front.len() implies !is_meta(#[trigger] front[i]) by {
            assert(front[i] == query[i]);
        }
        law_plain_query(front, whole_word);
        assert(!is_meta(query[query.len() - 1]));
        assert(front.push(query.last()) =~= query);
    }
}

proof fn lemma_line_end_part(line: Seq<char>)
    ensures
        without_line_end(line).len() <= line.len(),
        line.take(without_line_end(line).len() as int) == without_line_end(line),
        forall|i: int|
            without_line_end(line).len() <= i < line.len() ==> #[trigger] line[i] == '\r' || line[i]
                == '\n',
        without_line_end(line).len() > 0 ==> without_line_end(line).last() != '\r'
            && without_line_end(line).last() != '\n',
    decreases line.len(),
{
    if line.len() > 0 && (line.last() == '\r' || line.last() == '\n') {
        let front = line.drop_last();
        lemma_line_end_part(front);
        assert(line.take(without_line_end(line).len() as int) =~= front.take(
            without_line_end(front).len() as int,
        ));
        assert forall|i: int| without_line_end(line).len() <= i < line.len() implies #[trigger] line[i]
            == '\r' || line[i] == '\n' by {
            if i < front.len() {
                assert(front[i] == line[i]);
            }
        }
    } else {
        assert(line.take(line.len() as int) =~= line);
    }
}

/// What is shown of a line is the line from its first character on, without
/// the line end: all of it where it is within the bound, else as many
/// characters as the bound allows and a mark.
pub proof fn law_preview_is_the_line(text: Seq<char>, end: Seq<char>, max: nat)
    requires
        text.len() > 0 ==> text.last() != '\r' && text.last() != '\n',
        forall|i: int| 0 <= i < end.len() ==> #[trigger] end[i] == '\r' || end[i] == '\n',
    ensures
        text.len() <= max ==> preview_of(text + end, max) == text,
        text.len() > max ==> preview_of(text + end, max) == text.take(max as int).push(
            '\u{2026}',
        ),
    decreases end.len(),
{
    let line = text + end;
    lemma_line_end_part(line);
    let kept = without_line_end(line);
    if kept.len() > text.len() {
        assert(line[kept.len() - 1] == end[kept.len() - 1 - text.len()]);
        assert(kept.last() == line[kept.len() - 1]);
        assert(false);
    }
    if kept.len() < text.len() {
        assert(line[text.len() - 1] == text.last());
        assert(false);
    }
    assert(kept =~= text);
}

/// The characters that are escaped, and no others; and how much of a line is
/// shown.
pub proof fn law_escaped_characters(c: char)
    ensures
        is_meta(c) <==> seq![
            '\\',
            '.',
            '+',
            '*',
            '?',
            '(',
            ')',
            '|',
            '[',
            ']',
            '{',
            '}',
            '^',
            '$',
            '#',
            '&',
            '-',
            '~',
        ].contains(c),
        PREVIEW_CHARS == 240,
{
    let metas = seq![
        '\\',
        '.',
        '+',
        '*',
        '?',
        '(',
        ')',
        '|',
        '[',
        ']',
        '{',
        '}',
        '^',
        '$',
        '#',
        '&',
        '-',
        '~',
    ];
    assert(metas[0] == '\\' && metas[1] == '.' && metas[2] == '+' && metas[3] == '*' && metas[4]
        == '?' && metas[5] == '(' && metas[6] == ')' && metas[7] == '|' && metas[8] == '['
        && metas[9] == ']' && metas[10] == '{' && metas[11] == '}' && metas[12] == '^' && metas[13]
        == '$' && metas[14] == '#' && metas[15] == '&' && metas[16] == '-' && metas[17] == '~');
    if metas.contains(c) {
        let w = choose|w: int| 0 <= w < metas.len() && metas[w] == c;
        assert(metas.len() == 18);
    }
}

} // verus!
