use vstd::prelude::*;
use vstd::string::StrSliceExecFns;

use crate::text::Text;

verus! {

/// Whitespace as `char::is_whitespace` has it (Unicode's White_Space): what
/// separates words and what a command line may start with.
pub open spec fn is_blank(c: char) -> bool {
    let u = c as u32;
    (0x09 <= u <= 0x0D) || u == 0x20 || u == 0x85 || u == 0xA0 || u == 0x1680 || (0x2000 <= u
        <= 0x200A) || u == 0x2028 || u == 0x2029 || u == 0x202F || u == 0x205F || u == 0x3000
}

/// `s` without its leading blanks.
pub open spec fn trim_start(s: Seq<char>) -> Seq<char>
    decreases s.len(),
{
    if s.len() > 0 && is_blank(s[0]) {
        trim_start(s.drop_first())
    } else {
        s
    }
}

pub open spec fn starts_with(s: Seq<char>, p: Seq<char>) -> bool {
    p.len() <= s.len() && s.subrange(0, p.len() as int) == p
}

/// The length of the run of non-blank characters that `s` starts with.
pub open spec fn word_len(s: Seq<char>) -> nat
    decreases s.len(),
{
    if s.len() > 0 && !is_blank(s[0]) {
        1 + word_len(s.drop_first())
    } else {
        0
    }
}

/// The words of `s`: its maximal runs of non-blank characters, in order.
pub open spec fn words(s: Seq<char>) -> Seq<Seq<char>>
    decreases s.len(),
    via words_decreases
{
    if s.len() == 0 {
        Seq::empty()
    } else if is_blank(s[0]) {
        words(s.drop_first())
    } else {
        let n = word_len(s) as int;
        seq![s.subrange(0, n)] + words(s.subrange(n, s.len() as int))
    }
}

#[via_fn]
proof fn words_decreases(s: Seq<char>) {
    if s.len() > 0 && !is_blank(s[0]) {
        lemma_word_len_bound(s);
    }
}

proof fn lemma_word_len_bound(s: Seq<char>)
    ensures
        word_len(s) <= s.len(),
        s.len() > 0 && !is_blank(s[0]) ==> word_len(s) >= 1,
    decreases s.len(),
{
    if s.len() > 0 && !is_blank(s[0]) {
        lemma_word_len_bound(s.drop_first());
    }
}

/// A run of `m` non-blank characters that ends at a blank or at the end is
/// the first word's length.
proof fn lemma_word_len_is(s: Seq<char>, m: int)
    requires
        0 <= m <= s.len(),
        forall|k: int| 0 <= k < m ==> !is_blank(#[trigger] s[k]),
        m == s.len() || is_blank(s[m]),
    ensures
        word_len(s) == m,
    decreases m,
{
    if m > 0 {
        let t = s.drop_first();
        assert forall|k: int| 0 <= k < m - 1 implies !is_blank(#[trigger] t[k]) by {
            assert(t[k] == s[k + 1]);
        }
        if m < s.len() {
            assert(t[m - 1] == s[m]);
        }
        lemma_word_len_is(t, m - 1);
    }
}

/// The samples as plain values: whether each is a line, and its characters.
pub open spec fn samples_view(s: Seq<Text>) -> Seq<(bool, Seq<char>)> {
    s.map_values(|t: Text| (t.spec_is_line(), t.chars()))
}

/// The samples after the command in the left-trimmed line `t`. A file is
/// added later, once it has been read.
pub open spec fn step(samples: Seq<(bool, Seq<char>)>, t: Seq<char>) -> Seq<(bool, Seq<char>)> {
    if starts_with(t, "#help"@) {
        samples
    } else if starts_with(t, "#clear"@) {
        Seq::empty()
    } else if starts_with(t, "#addword"@) {
        samples + words(t).drop_first().map_values(|w: Seq<char>| (false, w))
    } else if starts_with(t, "#addline"@) && t.len() > 9 {
        samples.push((true, t.subrange(9, t.len() as int)))
    } else {
        samples
    }
}

/// What is left to the caller after the command in the left-trimmed line `t`.
pub open spec fn action_for(a: Action, t: Seq<char>) -> bool {
    if starts_with(t, "#help"@) {
        a is ShowHelp
    } else if starts_with(t, "#clear"@) {
        a is Cleared
    } else if starts_with(t, "#addword"@) || starts_with(t, "#addline"@) {
        a is Nothing
    } else if starts_with(t, "#readfile"@) && t.len() > 10 {
        a matches Action::ReadFile(path) && path@ == t.subrange(10, t.len() as int)
    } else {
        a is Nothing
    }
}

/// `#clear`, after any samples whatever, leaves none, and the caller is
/// asked to confirm the clearing.
pub proof fn lemma_clear_empties(samples: Seq<(bool, Seq<char>)>, line: Seq<char>)
    requires
        starts_with(trim_start(line), "#clear"@),
    ensures
        step(samples, trim_start(line)) == Seq::<(bool, Seq<char>)>::empty(),
        forall|a: Action| action_for(a, trim_start(line)) <==> a is Cleared,
{
    let t = trim_start(line);
    reveal_strlit("#clear");
    reveal_strlit("#help");
    assert(t[1] == t.subrange(0, 6)[1]);
    assert(!starts_with(t, "#help"@)) by {
        if starts_with(t, "#help"@) {
            assert(t[1] == t.subrange(0, 5)[1]);
        }
    }
}

/// `#addline` adds exactly one line sample, the characters from the tenth on,
/// when the trimmed line is longer than nine characters, and adds nothing
/// otherwise; the caller has nothing further to do.
pub proof fn lemma_addline(samples: Seq<(bool, Seq<char>)>, line: Seq<char>)
    requires
        starts_with(trim_start(line), "#addline"@),
    ensures
        trim_start(line).len() > 9 ==> step(samples, trim_start(line)) == samples.push(
            (true, trim_start(line).subrange(9, trim_start(line).len() as int)),
        ),
        trim_start(line).len() <= 9 ==> step(samples, trim_start(line)) == samples,
        forall|a: Action| action_for(a, trim_start(line)) <==> a is Nothing,
{
    let t = trim_start(line);
    reveal_strlit("#addline");
    reveal_strlit("#addword");
    reveal_strlit("#clear");
    reveal_strlit("#help");
    assert(t[1] == t.subrange(0, 8)[1]);
    assert(t[4] == t.subrange(0, 8)[4]);
    assert(!starts_with(t, "#help"@)) by {
        if starts_with(t, "#help"@) {
            assert(t[1] == t.subrange(0, 5)[1]);
        }
    }
    assert(!starts_with(t, "#clear"@)) by {
        if starts_with(t, "#clear"@) {
            assert(t[1] == t.subrange(0, 6)[1]);
        }
    }
    assert(!starts_with(t, "#addword"@)) by {
        if starts_with(t, "#addword"@) {
            assert(t[4] == t.subrange(0, 8)[4]);
        }
    }
}

/// What the caller of `PlaygroundData::parse` still has to do.
#[derive(Debug)]
pub enum Action {
    /// Print the usage of the commands.
    ShowHelp,
    /// Confirm that the samples were cleared.
    Cleared,
    /// Read the named file and hand its contents to `load_from_file`.
    ReadFile(String),
    /// Nothing.
    Nothing,
}

fn is_blank_char(c: char) -> (r: bool)
    ensures
        r == is_blank(c),
{
    let u = c as u32;
    (0x09 <= u && u <= 0x0D) || u == 0x20 || u == 0x85 || u == 0xA0 || u == 0x1680 || (0x2000 <= u
        && u <= 0x200A) || u == 0x2028 || u == 0x2029 || u == 0x202F || u == 0x205F || u == 0x3000
}

pub(crate) fn has_prefix(s: &str, p: &str) -> (r: bool)
    ensures
        r == starts_with(s@, p@),
{
    let n = p.unicode_len();
    if n > s.unicode_len() {
        return false;
    }
    let mut k: usize = 0;
    while k < n
        invariant
            n == p@.len(),
            n <= s@.len(),
            k <= n,
            forall|j: int| 0 <= j < k ==> s@[j] == p@[j],
        decreases n - k,
    {
        if s.get_char(k) != p.get_char(k) {
            assert(s@.subrange(0, n as int)[k as int] != p@[k as int]);
            return false;
        }
        k = k + 1;
    }
    assert(s@.subrange(0, n as int) =~= p@);
    true
}

/// `s` without its leading blanks.
fn trim_blanks(s: &str) -> (r: &str)
    ensures
        r@ == trim_start(s@),
{
    let n = s.unicode_len();
    let mut i: usize = 0;
    assert(s@.subrange(0, n as int) =~= s@);
    while i < n && is_blank_char(s.get_char(i))
        invariant
            n == s@.len(),
            i <= n,
            trim_start(s@.subrange(i as int, n as int)) == trim_start(s@),
        decreases n - i,
    {
        assert(s@.subrange(i as int, n as int).drop_first() =~= s@.subrange(i + 1, n as int));
        i = i + 1;
    }
    s.substring_char(i, n)
}

/// The words of `s`, in order.
fn split_words(s: &str) -> (r: Vec<String>)
    ensures
        r@.map_values(|w: String| w@) == words(s@),
{
    let n = s.unicode_len();
    let mut out: Vec<String> = Vec::new();
    let mut i: usize = 0;
    assert(s@.subrange(0, n as int) =~= s@);
    while i < n
        invariant
            n == s@.len(),
            i <= n,
            out@.map_values(|w: String| w@) + words(s@.subrange(i as int, n as int)) == words(s@),
        decreases n - i,
    {
        let ghost rest = s@.subrange(i as int, n as int);
        if is_blank_char(s.get_char(i)) {
            assert(rest.drop_first() =~= s@.subrange(i + 1, n as int));
            i = i + 1;
        } else {
            let mut j: usize = i + 1;
            while j < n && !is_blank_char(s.get_char(j))
                invariant
                    n == s@.len(),
                    i < j <= n,
                    forall|k: int| i <= k < j ==> !is_blank(#[trigger] s@[k]),
                decreases n - j,
            {
                j = j + 1;
            }
            proof {
                assert forall|k: int| 0 <= k < j - i implies !is_blank(#[trigger] rest[k]) by {
                    assert(rest[k] == s@[i + k]);
                }
                if j < n {
                    assert(rest[j - i] == s@[j as int]);
                }
                lemma_word_len_is(rest, j - i);
                assert(rest.subrange(0, j - i) =~= s@.subrange(i as int, j as int));
                assert(rest.subrange(j - i, rest.len() as int) =~= s@.subrange(j as int, n as int));
            }
            let w = s.substring_char(i, j).to_owned();
            let ghost before = out@;
            out.push(w);
            assert(out@.map_values(|w: String| w@) =~= before.map_values(|w: String| w@).push(w@));
            assert(out@.map_values(|w: String| w@) + words(s@.subrange(j as int, n as int))
                =~= before.map_values(|w: String| w@) + words(rest));
            i = j;
        }
    }
    assert(s@.subrange(n as int, n as int) =~= Seq::<char>::empty());
    assert(out@.map_values(|w: String| w@) + Seq::<Seq<char>>::empty() =~= out@.map_values(
        |w: String| w@,
    ));
    out
}

/// The state of a session: the samples that patterns are tried against.
pub struct PlaygroundData {
    pub test_strings: Vec<Text>,
}

impl PlaygroundData {
    /// A session with no samples.
    pub fn new() -> (r: Self)
        ensures
            r.test_strings@.len() == 0,
    {
        PlaygroundData { test_strings: Vec::new() }
    }

    /// Carries out the command that `line` holds, if any, once its leading
    /// blanks are dropped: `#help`, `#clear`, `#addword`, `#addline` and
    /// `#readfile`, checked in that order, each by prefix. Any other line
    /// leaves the samples as they are.
    pub fn parse(&mut self, line: &str) -> (a: Action)
        ensures
            samples_view(final(self).test_strings@) == step(
                samples_view(old(self).test_strings@),
                trim_start(line@),
            ),
            action_for(a, trim_start(line@)),
    {
        let t = trim_blanks(line);
        let ghost old_view = samples_view(self.test_strings@);
        proof {
            reveal_strlit("#help");
            reveal_strlit("#clear");
            reveal_strlit("#addword");
            reveal_strlit("#addline");
            reveal_strlit("#readfile");
        }
        if has_prefix(t, "#help") {
            return Action::ShowHelp;
        }
        if has_prefix(t, "#clear") {
            self.test_strings = Vec::new();
            assert(samples_view(self.test_strings@) =~= Seq::empty());
            return Action::Cleared;
        }
        if has_prefix(t, "#addword") {
            let ws = split_words(t);
            assert(t@[0] == t@.subrange(0, 8)[0]);
            assert(!is_blank(t@[0]));
            let ghost added = words(t@).drop_first().map_values(|w: Seq<char>| (false, w));
            let mut k: usize = 1;
            assert(words(t@).len() > 0) by {
                reveal_with_fuel(words, 1);
            }
            while k < ws.len()
                invariant
                    1 <= k <= ws@.len(),
                    ws@.map_values(|w: String| w@) == words(t@),
                    added == words(t@).drop_first().map_values(|w: Seq<char>| (false, w)),
                    samples_view(self.test_strings@) == old_view + added.subrange(0, k - 1),
                decreases ws@.len() - k,
            {
                let ghost before = self.test_strings@;
                let w = ws[k].clone();
                self.test_strings.push(Text::Word(w));
                assert(samples_view(self.test_strings@) =~= samples_view(before).push(
                    (false, ws@[k as int]@),
                ));
                assert(ws@.map_values(|w: String| w@)[k as int] == ws@[k as int]@);
                assert(added.subrange(0, k as int) =~= added.subrange(0, k - 1).push(
                    (false, ws@[k as int]@),
                ));
                k = k + 1;
            }
            assert(added.subrange(0, k - 1) =~= added);
            return Action::Nothing;
        }
        if has_prefix(t, "#addline") {
            let n = t.unicode_len();
            if n > 9 {
                let ghost before = self.test_strings@;
                let l = t.substring_char(9, n).to_owned();
                self.test_strings.push(Text::Line(l));
                assert(samples_view(self.test_strings@) =~= samples_view(before).push(
                    (true, l@),
                ));
            }
            return Action::Nothing;
        }
        if has_prefix(t, "#readfile") {
            let n = t.unicode_len();
            if n > 10 {
                return Action::ReadFile(t.substring_char(10, n).to_owned());
            }
        }
        Action::Nothing
    }

    /// Adds a file's contents as one line sample, once it has been read. When
    /// reading failed, the samples stay as they are and the error is handed
    /// back to be reported.
    pub fn load_from_file(&mut self, read: Result<String, String>) -> (diagnostic: Option<String>)
        ensures
            match read {
                Ok(contents) => samples_view(final(self).test_strings@) == samples_view(
                    old(self).test_strings@,
                ).push((true, contents@)) && diagnostic is None,
                Err(e) => final(self).test_strings@ == old(self).test_strings@ && diagnostic
                    == Some(e),
            },
    {
        match read {
            Ok(contents) => {
                let ghost before = self.test_strings@;
                let ghost c = contents@;
                self.test_strings.push(Text::Line(contents));
                assert(samples_view(self.test_strings@) =~= samples_view(before).push((true, c)));
                None
            },
            Err(e) => Some(e),
        }
    }
}

} // verus!
