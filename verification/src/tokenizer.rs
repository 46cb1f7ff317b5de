//! From raw subtitle text to tokens: splitting into lines, dropping the
//! structural lines, stripping markup, splitting on whitespace.

use vstd::prelude::*;
use crate::io::Unit;
use crate::text::{chars_of, is_whitespace, string_of, views, whitespace, Token};

verus! {

/// Matches the lines that carry no text: a timestamp range, a bare
/// sequence index, an empty line.
pub const STRUCTURAL_PATTERN: &'static str =
    "(^\\d{2}:\\d{2}:\\d{2},\\d{3}\\s-->\\s\\d{2}:\\d{2}:\\d{2},\\d{3}$)|(^\\d+$)|(^()$)";

/// Matches what is stripped from a line of text: a quotation mark or a
/// tag with one whitespace character after it, a comma, a hyphen.
pub const MARKUP_PATTERN: &'static str = "\"\\s?|<.*>\\s?|,|-";

#[verifier::external_type_specification]
#[verifier::external_body]
pub struct ExRegex(regex::Regex);

/// Whether the expression engine accepts `pattern`.
pub uninterp spec fn regex_compiles(pattern: Seq<char>) -> bool;

/// The pattern text that a compiled expression was built from.
pub uninterp spec fn regex_text(re: regex::Regex) -> Seq<char>;

/// Whether a compiled expression matches anywhere in `haystack`.
pub uninterp spec fn regex_matches(re: regex::Regex, haystack: Seq<char>) -> bool;

/// `haystack` with every non-overlapping match of a compiled expression
/// replaced by the expansion of `replacement`.
pub uninterp spec fn regex_replaced(
    re: regex::Regex,
    haystack: Seq<char>,
    replacement: Seq<char>,
) -> Seq<char>;

/// Calls `regex::Regex::new`. The result is `None` exactly when the
/// engine rejects the pattern; a compiled expression reports the pattern
/// it was built from.
#[verifier::external_body]
fn compile(pattern: &str) -> (compiled: Option<regex::Regex>)
    ensures
        compiled is Some <==> regex_compiles(pattern@),
        compiled matches Some(re) ==> regex_text(re) == pattern@,
{
    regex::Regex::new(pattern).ok()
}

/// Calls `regex::Regex::as_str`, which returns the pattern that the
/// expression was built from, and copies it.
#[verifier::external_body]
fn pattern_of(re: &regex::Regex) -> (pattern: String)
    ensures
        pattern@ == regex_text(*re),
{
    re.as_str().to_string()
}

/// Calls `regex::Regex::is_match`: whether the expression matches
/// anywhere in `haystack`.
#[verifier::external_body]
fn is_match(re: &regex::Regex, haystack: &str) -> (found: bool)
    ensures
        found == regex_matches(*re, haystack@),
{
    re.is_match(haystack)
}

/// Calls `regex::Regex::replace_all` and takes ownership of what it
/// returns: `haystack` with every match replaced.
#[verifier::external_body]
fn replace_all(re: &regex::Regex, haystack: &str, replacement: &str) -> (replaced: String)
    ensures
        replaced@ == regex_replaced(*re, haystack@, replacement@),
{
    re.replace_all(haystack, replacement).into_owned()
}

/// The lines of `text`. A line ends at a line feed; the line feed is not
/// part of it, nor is a carriage return right before the line feed. What
/// follows the last line feed is a line if it is not empty.
pub open spec fn lines_of(text: Seq<char>) -> Seq<Seq<char>>
    decreases text.len(),
{
    if text.len() == 0 {
        seq![]
    } else {
        let before = lines_of(text.drop_last());
        let c = text.last();
        let open = text.len() >= 2 && text[text.len() - 2] != '\n';
        if c == '\n' {
            if open {
                before.drop_last().push(without_carriage_return(before.last()))
            } else {
                before.push(seq![])
            }
        } else {
            if open {
                before.drop_last().push(before.last().push(c))
            } else {
                before.push(seq![c])
            }
        }
    }
}

/// `line` without the carriage return at its end, if it has one.
pub open spec fn without_carriage_return(line: Seq<char>) -> Seq<char> {
    if line.len() > 0 && line.last() == '\r' {
        line.drop_last()
    } else {
        line
    }
}

/// The maximal runs of characters other than whitespace in `text`, from
/// left to right.
pub open spec fn split_whitespace(text: Seq<char>) -> Seq<Token>
    decreases text.len(),
{
    if text.len() == 0 {
        seq![]
    } else {
        let before = split_whitespace(text.drop_last());
        let c = text.last();
        if whitespace(c) {
            before
        } else if text.len() >= 2 && !whitespace(text[text.len() - 2]) {
            before.drop_last().push(before.last().push(c))
        } else {
            before.push(seq![c])
        }
    }
}

/// Every token that `split_whitespace` yields has at least one character
/// and no whitespace in it, and the last token runs up to the end of the
/// text when the text does not end in whitespace.
pub proof fn lemma_split_whitespace(text: Seq<char>)
    ensures
        forall|i: int|
            0 <= i < split_whitespace(text).len() ==> (#[trigger] split_whitespace(text)[i]).len()
                > 0,
        forall|i: int, j: int|
            0 <= i < split_whitespace(text).len() && 0 <= j < split_whitespace(text)[i].len()
                ==> !whitespace(#[trigger] split_whitespace(text)[i][j]),
        text.len() > 0 && !whitespace(text.last()) ==> split_whitespace(text).len() > 0,
    decreases text.len(),
{
    if text.len() > 0 {
        let front = text.drop_last();
        let before = split_whitespace(front);
        let now = split_whitespace(text);
        let c = text.last();
        lemma_split_whitespace(front);
        if !whitespace(c) {
            let extends = text.len() >= 2 && !whitespace(text[text.len() - 2]);
            if extends {
                assert(front.last() == text[text.len() - 2]);
            }
            assert forall|i: int| 0 <= i < now.len() implies (#[trigger] now[i]).len() > 0 by {
                if i < now.len() - 1 {
                    assert(now[i] == before[i]);
                }
            }
            assert forall|i: int, j: int| 0 <= i < now.len() && 0 <= j < now[i].len() implies !whitespace(
                #[trigger] now[i][j],
            ) by {
                if i < now.len() - 1 {
                    assert(now[i] == before[i]);
                    assert(!whitespace(before[i][j]));
                } else if j < now[i].len() - 1 {
                    assert(extends);
                    assert(now[i][j] == before[before.len() - 1][j]);
                    assert(!whitespace(before[before.len() - 1][j]));
                }
            }
        }
    }
}

/// The lines of `text`, each as a string of its own.
pub fn split_lines(text: &str) -> (lines: Vec<String>)
    ensures
        views(lines@) == lines_of(text@),
{
    let chars = chars_of(text);
    let mut lines: Vec<String> = Vec::new();
    let mut start: usize = 0;
    let mut i: usize = 0;
    while i < chars.len()
        invariant
            chars@ == text@,
            start <= i <= chars.len(),
            start > 0 ==> chars[start - 1] == '\n',
            forall|j: int| start <= j < i ==> chars[j] != '\n',
            lines_of(chars@.take(i as int)) == if start < i {
                views(lines@).push(chars@.subrange(start as int, i as int))
            } else {
                views(lines@)
            },
        decreases chars.len() - i,
    {
        let ghost before = chars@.take(i as int);
        let ghost now = chars@.take(i + 1);
        proof {
            assert(now.drop_last() =~= before);
            assert(now.last() == chars[i as int]);
            if i >= 1 {
                assert(now[now.len() - 2] == chars[i - 1]);
            }
        }
        if chars[i] == '\n' {
            let end = if start < i && chars[i - 1] == '\r' {
                i - 1
            } else {
                i
            };
            let line = string_of(&chars, start, end);
            proof {
                let raw = chars@.subrange(start as int, i as int);
                if start < i {
                    assert(line@ =~= without_carriage_return(raw));
                    assert(views(lines@).push(raw).drop_last() =~= views(lines@));
                } else {
                    assert(line@ =~= seq![]);
                }
                assert(views(lines@.push(line)) =~= views(lines@).push(line@));
            }
            lines.push(line);
            start = i + 1;
        } else {
            proof {
                let raw = chars@.subrange(start as int, i as int);
                if start < i {
                    assert(views(lines@).push(raw).drop_last() =~= views(lines@));
                    assert(raw.push(chars[i as int]) =~= chars@.subrange(start as int, i + 1));
                } else {
                    assert(seq![chars[i as int]] =~= chars@.subrange(start as int, i + 1));
                }
            }
        }
        i = i + 1;
    }
    proof {
        assert(chars@.take(i as int) =~= chars@);
    }
    if start < i {
        let line = string_of(&chars, start, i);
        proof {
            assert(views(lines@.push(line)) =~= views(lines@).push(line@));
        }
        lines.push(line);
    }
    lines
}

/// The tokens of a cleaned line. Both units split on whitespace.
pub fn split_tokens(cleaned: &str, unit: Unit) -> (tokens: Vec<String>)
    ensures
        views(tokens@) == split_whitespace(cleaned@),
{
    let chars = chars_of(cleaned);
    let mut tokens: Vec<String> = Vec::new();
    let mut start: usize = 0;
    let mut i: usize = 0;
    while i < chars.len()
        invariant
            chars@ == cleaned@,
            start <= i <= chars.len(),
            start < i ==> !whitespace(chars[i - 1]),
            start == i && i > 0 ==> whitespace(chars[i - 1]),
            split_whitespace(chars@.take(i as int)) == if start < i {
                views(tokens@).push(chars@.subrange(start as int, i as int))
            } else {
                views(tokens@)
            },
        decreases chars.len() - i,
    {
        let ghost before = chars@.take(i as int);
        let ghost now = chars@.take(i + 1);
        proof {
            assert(now.drop_last() =~= before);
            assert(now.last() == chars[i as int]);
            if i >= 1 {
                assert(now[now.len() - 2] == chars[i - 1]);
            }
        }
        if is_whitespace(chars[i]) {
            if start < i {
                let token = string_of(&chars, start, i);
                proof {
                    assert(views(tokens@.push(token)) =~= views(tokens@).push(token@));
                }
                tokens.push(token);
            }
            start = i + 1;
        } else {
            proof {
                let raw = chars@.subrange(start as int, i as int);
                if start < i {
                    assert(views(tokens@).push(raw).drop_last() =~= views(tokens@));
                    assert(raw.push(chars[i as int]) =~= chars@.subrange(start as int, i + 1));
                } else {
                    assert(seq![chars[i as int]] =~= chars@.subrange(start as int, i + 1));
                }
            }
        }
        i = i + 1;
    }
    proof {
        assert(chars@.take(i as int) =~= chars@);
    }
    if start < i {
        let token = string_of(&chars, start, i);
        proof {
            assert(views(tokens@.push(token)) =~= views(tokens@).push(token@));
        }
        tokens.push(token);
    }
    tokens
}

/// The two compiled expressions that tell text from structure and strip
/// markup from text.
pub struct LineFilter {
    structural: regex::Regex,
    markup: regex::Regex,
}

impl LineFilter {
    /// The expression that tells structure from text.
    pub closed spec fn structural(&self) -> regex::Regex {
        self.structural
    }

    /// The expression that matches markup.
    pub closed spec fn markup(&self) -> regex::Regex {
        self.markup
    }

    /// The filter holds the two line patterns of this module.
    pub open spec fn wf(&self) -> bool {
        &&& regex_text(self.structural()) == STRUCTURAL_PATTERN@
        &&& regex_text(self.markup()) == MARKUP_PATTERN@
    }

    /// Whether `line` is structural: the structural expression matches it.
    pub open spec fn discards(&self, line: Seq<char>) -> bool {
        regex_matches(self.structural(), line)
    }

    /// `line` with every match of the markup expression removed.
    pub open spec fn cleaned(&self, line: Seq<char>) -> Seq<char> {
        regex_replaced(self.markup(), line, Seq::<char>::empty())
    }

    /// The tokens of `line`: none for a structural line, else the
    /// whitespace-separated runs of the cleaned line.
    pub open spec fn tokens(&self, line: Seq<char>) -> Seq<Token> {
        if self.discards(line) {
            seq![]
        } else {
            split_whitespace(self.cleaned(line))
        }
    }

    /// The filter that holds the two expressions. There is one exactly
    /// if both expressions are there.
    pub fn from_compiled(structural: Option<regex::Regex>, markup: Option<regex::Regex>) -> (filter:
        Option<Self>)
        ensures
            filter is Some <==> structural is Some && markup is Some,
            filter matches Some(f) ==> f.structural() == structural->0 && f.markup() == markup->0,
    {
        match structural {
            Some(structural) => match markup {
                Some(markup) => Some(Self { structural, markup }),
                None => None,
            },
            None => None,
        }
    }

    /// Compiles the two line patterns. There is a filter exactly if the
    /// expression engine accepts both of them.
    pub fn new() -> (filter: Option<Self>)
        ensures
            filter is Some <==> regex_compiles(STRUCTURAL_PATTERN@) && regex_compiles(
                MARKUP_PATTERN@,
            ),
            filter matches Some(f) ==> f.wf(),
    {
        Self::from_compiled(compile(STRUCTURAL_PATTERN), compile(MARKUP_PATTERN))
    }

    /// Whether the filter holds the two line patterns of this module.
    pub fn has_line_patterns(&self) -> (held: bool)
        ensures
            held == self.wf(),
    {
        pattern_of(&self.structural) == String::from_str(STRUCTURAL_PATTERN) && pattern_of(
            &self.markup,
        ) == String::from_str(MARKUP_PATTERN)
    }

    /// The pattern of the expression that tells structure from text.
    pub fn structural_pattern(&self) -> (pattern: String)
        requires
            self.wf(),
        ensures
            pattern@ == STRUCTURAL_PATTERN@,
    {
        pattern_of(&self.structural)
    }

    /// The pattern of the expression that strips markup.
    pub fn markup_pattern(&self) -> (pattern: String)
        requires
            self.wf(),
        ensures
            pattern@ == MARKUP_PATTERN@,
    {
        pattern_of(&self.markup)
    }

    /// Whether `line` is structural noise rather than text.
    pub fn is_structural(&self, line: &str) -> (noise: bool)
        requires
            self.wf(),
        ensures
            noise == self.discards(line@),
    {
        is_match(&self.structural, line)
    }

    /// `line` with its markup stripped.
    pub fn clean(&self, line: &str) -> (cleaned: String)
        requires
            self.wf(),
        ensures
            cleaned@ == self.cleaned(line@),
    {
        proof {
            reveal_strlit("");
        }
        let cleaned = replace_all(&self.markup, line, "");
        assert(""@ =~= Seq::<char>::empty());
        cleaned
    }

    /// The tokens of one raw line.
    pub fn tokenize(&self, line: &str, unit: Unit) -> (tokens: Vec<String>)
        requires
            self.wf(),
        ensures
            views(tokens@) == self.tokens(line@),
    {
        if self.is_structural(line) {
            let tokens: Vec<String> = Vec::new();
            assert(views(tokens@) =~= seq![]);
            tokens
        } else {
            let cleaned = self.clean(line);
            split_tokens(cleaned.as_str(), unit)
        }
    }
}

} // verus!
