use vstd::prelude::*;
use vstd::string::StringSliceAdditionalSpecFns;
use vstd::utf8::{encode_utf8, is_char_boundary};

use crate::highlight::{highlight_segments, styled_by, tiles, ranges_within, RenderedSample, Segment, Style};
use crate::text::Text;

verus! {

#[verifier::external_type_specification]
#[verifier::external_body]
pub struct ExRegex(regex::Regex);

/// How the regex engine refuses a pattern, as plain values.
pub enum Refusal {
    /// Malformed; the engine's message.
    Syntax(Seq<char>),
    /// The compiled form exceeds the engine's size limit, which is given.
    TooLarge(usize),
    /// Another failure, described as the engine's error prints under `{:?}`.
    Other(Seq<char>),
}

/// The engine's refusal of `pattern` under its default settings, or `None`
/// where it accepts the pattern.
pub uninterp spec fn regex_refusal(pattern: Seq<char>) -> Option<Refusal>;

/// A compiled regex, beside the pattern it was compiled from; only `compile`
/// builds one.
struct CompiledPattern {
    re: regex::Regex,
    source: String,
}

/// Relies on `regex::Regex::new`: it accepts or refuses a pattern depending on
/// the pattern alone, and a refusal is one of `regex::Error`'s variants, whose
/// contents are handed on unchanged.
#[verifier::external_body]
fn compile(pattern: &str) -> (r: Result<CompiledPattern, PatternError>)
    ensures
        match r {
            Ok(p) => regex_refusal(pattern@) is None && p.source@ == pattern@,
            Err(e) => regex_refusal(pattern@) == Some(e@),
        },
{
    match regex::Regex::new(pattern) {
        Ok(re) => Ok(CompiledPattern { re, source: pattern.to_string() }),
        Err(regex::Error::Syntax(msg)) => Err(PatternError::Syntax(msg)),
        Err(regex::Error::CompiledTooBig(limit)) => Err(PatternError::TooLarge(limit)),
        Err(other) => Err(PatternError::Other(format!("{:?}", other))),
    }
}

/// The groups of the leftmost-first match of `pattern` in `text`, one entry
/// per group (`None` for a group that took no part), or `None` where the
/// pattern does not match.
pub uninterp spec fn captures_of(pattern: Seq<char>, text: Seq<char>) -> Option<Seq<Option<(usize, usize)>>>;

/// Relies on `regex::Regex::captures` and `regex::Captures::iter`: the groups
/// of the match, which depend on the pattern and the text alone; on a match,
/// the whole match comes first and is always present, and a group that took
/// part gives its byte range `start..end`, with `start <= end`, both inside
/// the text and both on character boundaries.
#[verifier::external_body]
fn capture_groups(p: &CompiledPattern, text: &str) -> (r: Option<Vec<Option<(usize, usize)>>>)
    ensures
        match r {
            None => captures_of(p.source@, text@) is None,
            Some(groups) => {
                &&& captures_of(p.source@, text@) == Some(groups@)
                &&& groups@.len() > 0
                &&& groups@[0] is Some
                &&& forall|g: int|
                    0 <= g < groups@.len() ==> group_within(#[trigger] groups@[g], text.len() as int, text.spec_bytes())
            },
        },
{
    p.re.captures(text).map(|caps| caps.iter().map(|m| m.map(|m| (m.start(), m.end()))).collect())
}

/// Why a pattern could not be used.
#[derive(Debug)]
pub enum PatternError {
    /// The pattern is malformed; the engine's description of the problem.
    Syntax(String),
    /// The compiled pattern outgrew the engine's size limit, which is given.
    TooLarge(usize),
    /// Any other failure the engine reports, as it describes it.
    Other(String),
}

impl View for PatternError {
    type V = Refusal;

    open spec fn view(&self) -> Refusal {
        match self {
            PatternError::Syntax(msg) => Refusal::Syntax(msg@),
            PatternError::TooLarge(limit) => Refusal::TooLarge(*limit),
            PatternError::Other(description) => Refusal::Other(description@),
        }
    }
}

/// What a sample is expected to do under a pattern.
#[derive(Clone, Copy, Debug, PartialEq, Eq, Structural)]
pub enum TestKind {
    /// The pattern must match the whole sample, and so must every group that
    /// takes part.
    MustMatch,
    /// The pattern must not match anywhere in the sample.
    MustNotMatch,
}

/// Both ends of the range fall on character boundaries of `bytes`.
pub open spec fn on_boundaries(r: (usize, usize), bytes: Seq<u8>) -> bool {
    is_char_boundary(bytes, r.0 as int) && is_char_boundary(bytes, r.1 as int)
}

/// A group that took part lies inside a text of `len` bytes, `bytes`, and
/// starts and ends on character boundaries.
pub open spec fn group_within(g: Option<(usize, usize)>, len: int, bytes: Seq<u8>) -> bool {
    match g {
        Some(r) => r.0 <= r.1 <= len && on_boundaries(r, bytes),
        None => true,
    }
}

/// The number of bytes of a sample's text, as `str::len` gives it.
pub open spec fn byte_len(t: Text) -> int {
    encode_utf8(t.chars()).len() as usize as int
}

/// The groups that took part in a match, in the engine's order.
pub open spec fn participating(groups: Seq<Option<(usize, usize)>>) -> Seq<(usize, usize)>
    decreases groups.len(),
{
    if groups.len() == 0 {
        Seq::empty()
    } else {
        let rest = participating(groups.drop_last());
        match groups.last() {
            Some(r) => rest.push(r),
            None => rest,
        }
    }
}

/// What a match result may be: no match, or a non-empty list of ranges that
/// lie inside the sample, on character boundaries.
pub open spec fn result_fits(m: Option<Vec<(usize, usize)>>, t: Text) -> bool {
    m matches Some(rs) ==> {
        &&& rs@.len() > 0
        &&& ranges_within(rs@, byte_len(t))
        &&& forall|k: int| 0 <= k < rs@.len() ==> on_boundaries(#[trigger] rs@[k], encode_utf8(t.chars()))
    }
}

/// The match result of `pattern` on the text `t`: the ranges of the groups
/// that took part, in the engine's order.
pub open spec fn expected_result(pattern: Seq<char>, t: Text) -> Option<Seq<(usize, usize)>> {
    match captures_of(pattern, t.chars()) {
        None => None,
        Some(groups) => Some(participating(groups)),
    }
}

/// A match result as plain values.
pub open spec fn result_view(m: Option<Vec<(usize, usize)>>) -> Option<Seq<(usize, usize)>> {
    match m {
        None => None,
        Some(rs) => Some(rs@),
    }
}

/// Whether a sample with match result `m` meets the expectation `kind`: a
/// partial match does not count as a match.
pub open spec fn meets(t: Text, m: Option<Vec<(usize, usize)>>, kind: TestKind) -> bool {
    match kind {
        TestKind::MustMatch => m matches Some(rs) && forall|j: int|
            0 <= j < rs@.len() ==> (#[trigger] rs@[j]).0 == 0 && rs@[j].1 == byte_len(t),
        TestKind::MustNotMatch => m is None,
    }
}

/// How a sample with match result `m` is shown: quoted exactly when it is a
/// line; without a match, the whole text in the alert style; with one, the
/// text cut into plain and emphasized pieces by the ranges.
pub open spec fn renders(r: RenderedSample, t: Text, m: Option<Vec<(usize, usize)>>) -> bool {
    &&& r.quoted == t.spec_is_line()
    &&& match m {
        None => r.segments@ == seq![
            Segment { start: 0, end: byte_len(t) as usize, style: Style::Alert },
        ],
        Some(rs) => tiles(r.segments@, byte_len(t)) && styled_by(r.segments@, rs@),
    }
}

/// Keeps the groups that took part in a match, in order.
fn flatten_groups(groups: &Vec<Option<(usize, usize)>>) -> (r: Vec<(usize, usize)>)
    ensures
        r@ == participating(groups@),
{
    let mut r: Vec<(usize, usize)> = Vec::new();
    let mut g: usize = 0;
    while g < groups.len()
        invariant
            g <= groups@.len(),
            r@ == participating(groups@.subrange(0, g as int)),
        decreases groups@.len() - g,
    {
        assert(groups@.subrange(0, g + 1).drop_last() == groups@.subrange(0, g as int));
        if let Some(range) = groups[g] {
            r.push(range);
        }
        g = g + 1;
    }
    assert(groups@.subrange(0, groups@.len() as int) == groups@);
    r
}

proof fn lemma_participating_within(groups: Seq<Option<(usize, usize)>>, len: int, bytes: Seq<u8>)
    requires
        forall|g: int| 0 <= g < groups.len() ==> group_within(#[trigger] groups[g], len, bytes),
    ensures
        ranges_within(participating(groups), len),
        forall|k: int|
            0 <= k < participating(groups).len() ==> on_boundaries(
                #[trigger] participating(groups)[k],
                bytes,
            ),
        groups.len() > 0 && groups[0] is Some ==> participating(groups).len() > 0,
    decreases groups.len(),
{
    if groups.len() > 0 {
        let rest = groups.drop_last();
        assert forall|g: int| 0 <= g < rest.len() implies group_within(#[trigger] rest[g], len, bytes) by {
            assert(rest[g] == groups[g]);
        }
        lemma_participating_within(rest, len, bytes);
        if groups.len() > 1 {
            assert(rest[0] == groups[0]);
        }
        assert(group_within(groups[groups.len() - 1], len, bytes));
    }
}

/// Lays out one sample under its match result.
pub fn render_sample(text: &Text, result: &Option<Vec<(usize, usize)>>) -> (r: RenderedSample)
    requires
        result_fits(*result, *text),
    ensures
        renders(r, *text, *result),
{
    let len = text.as_str().len();
    let segments = match result {
        None => {
            let mut whole: Vec<Segment> = Vec::new();
            whole.push(Segment { start: 0, end: len, style: Style::Alert });
            whole
        },
        Some(ranges) => highlight_segments(len, ranges),
    };
    RenderedSample { quoted: text.is_line(), segments }
}

/// Whether one sample with match result `result` meets the expectation `kind`.
pub fn sample_passes(text: &Text, result: &Option<Vec<(usize, usize)>>, kind: TestKind) -> (r: bool)
    ensures
        r == meets(*text, *result, kind),
{
    match kind {
        TestKind::MustMatch => match result {
            None => false,
            Some(ranges) => {
                let len = text.as_str().len();
                let mut j: usize = 0;
                while j < ranges.len()
                    invariant
                        j <= ranges@.len(),
                        len == byte_len(*text),
                        *result matches Some(rs) && rs@ == ranges@,
                        forall|i: int| 0 <= i < j ==> (#[trigger] ranges@[i]).0 == 0 && ranges@[i].1 == len,
                    decreases ranges@.len() - j,
                {
                    let (s, e) = ranges[j];
                    if s != 0 || e != len {
                        return false;
                    }
                    j = j + 1;
                }
                true
            },
        },
        TestKind::MustNotMatch => result.is_none(),
    }
}

/// One pattern tried against every sample: the samples, and for each, in the
/// same order, its match result.
pub struct RegexAttempt<'t> {
    pub test_strings: &'t [Text],
    pub captures: Vec<Option<Vec<(usize, usize)>>>,
}

impl<'t> RegexAttempt<'t> {
    /// The attempt's invariant: one match result per sample, each fitting it.
    pub open spec fn wf(&self) -> bool {
        &&& self.captures@.len() == self.test_strings@.len()
        &&& forall|i: int|
            0 <= i < self.captures@.len() ==> result_fits(
                #[trigger] self.captures@[i],
                self.test_strings@[i],
            )
    }

    /// Compiles `regex_rule` once and applies it to each sample in turn. Fails
    /// exactly when the engine refuses the pattern, with the engine's refusal.
    pub fn new(regex_rule: &str, test_strings: &'t [Text]) -> (r: Result<Self, PatternError>)
        ensures
            r is Err <==> regex_refusal(regex_rule@) is Some,
            r matches Err(e) ==> regex_refusal(regex_rule@) == Some(e@),
            r matches Ok(a) ==> {
                &&& a.wf()
                &&& a.test_strings@ == test_strings@
                &&& forall|i: int|
                    0 <= i < a.captures@.len() ==> result_view(#[trigger] a.captures@[i])
                        == expected_result(regex_rule@, test_strings@[i])
            },
    {
        let re = match compile(regex_rule) {
            Ok(re) => re,
            Err(e) => {
                return Err(e);
            },
        };
        let mut captures: Vec<Option<Vec<(usize, usize)>>> = Vec::new();
        let mut i: usize = 0;
        while i < test_strings.len()
            invariant
                i <= test_strings@.len(),
                captures@.len() == i,
                re.source@ == regex_rule@,
                forall|j: int|
                    0 <= j < i ==> result_fits(#[trigger] captures@[j], test_strings@[j])
                        && result_view(captures@[j]) == expected_result(
                        regex_rule@,
                        test_strings@[j],
                    ),
            decreases test_strings@.len() - i,
        {
            let phrase = test_strings[i].as_str();
            let found = match capture_groups(&re, phrase) {
                None => None,
                Some(groups) => {
                    proof {
                        lemma_participating_within(groups@, byte_len(test_strings@[i as int]), encode_utf8(test_strings@[i as int].chars()));
                    }
                    Some(flatten_groups(&groups))
                },
            };
            captures.push(found);
            i = i + 1;
        }
        Ok(RegexAttempt { test_strings, captures })
    }

    /// How each sample is shown, in order.
    pub fn render(&self) -> (r: Vec<RenderedSample>)
        requires
            self.wf(),
        ensures
            r@.len() == self.test_strings@.len(),
            forall|i: int|
                0 <= i < r@.len() ==> renders(
                    #[trigger] r@[i],
                    self.test_strings@[i],
                    self.captures@[i],
                ),
    {
        let mut r: Vec<RenderedSample> = Vec::new();
        let mut i: usize = 0;
        while i < self.captures.len()
            invariant
                self.wf(),
                i <= self.captures@.len(),
                r@.len() == i,
                forall|j: int|
                    0 <= j < i ==> renders(
                        #[trigger] r@[j],
                        self.test_strings@[j],
                        self.captures@[j],
                    ),
            decreases self.captures@.len() - i,
        {
            r.push(render_sample(&self.test_strings[i], &self.captures[i]));
            i = i + 1;
        }
        r
    }

    /// Whether every sample meets its expectation, samples and expectations
    /// paired by position (the shorter list decides how many pairs there are).
    pub fn passed_all_tests(&self, test_kinds: &[TestKind]) -> (r: bool)
        requires
            self.wf(),
        ensures
            r == forall|i: int|
                0 <= i < self.test_strings@.len() && 0 <= i < test_kinds@.len() ==> #[trigger] meets(
                    self.test_strings@[i],
                    self.captures@[i],
                    test_kinds@[i],
                ),
    {
        let mut i: usize = 0;
        while i < self.captures.len() && i < test_kinds.len()
            invariant
                self.wf(),
                i <= self.captures@.len(),
                forall|j: int|
                    0 <= j < i && j < test_kinds@.len() ==> #[trigger] meets(
                        self.test_strings@[j],
                        self.captures@[j],
                        test_kinds@[j],
                    ),
            decreases self.captures@.len() - i,
        {
            if !sample_passes(&self.test_strings[i], &self.captures[i], test_kinds[i]) {
                return false;
            }
            i = i + 1;
        }
        true
    }
}

} // verus!
