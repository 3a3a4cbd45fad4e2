use vstd::prelude::*;
use vstd::string::StringSliceAdditionalSpecFns;
use vstd::utf8::{
    encode_utf8, encode_utf8_valid_utf8, is_char_boundary, is_char_boundary_iff_not_is_continuation_byte,
    is_char_boundary_start_end_of_seq, length_of_first_scalar, pop_first_scalar, valid_utf8,
    valid_utf8_split,
};

verus! {

/// A command offered to the user while typing: the text shown after the
/// cursor, and how many of its bytes are taken when the hint is accepted.
#[derive(Debug)]
pub struct CommandHint {
    pub display: String,
    pub complete_up_to: usize,
}

/// `a - b`, or zero where that is negative.
pub open spec fn saturating_minus(a: nat, b: nat) -> nat {
    if a >= b {
        (a - b) as nat
    } else {
        0
    }
}

/// The UTF-8 bytes of `s`.
pub open spec fn bytes_of(s: Seq<char>) -> Seq<u8> {
    encode_utf8(s)
}

/// `t` begins with the bytes `p`.
pub open spec fn bytes_start_with(t: Seq<u8>, p: Seq<u8>) -> bool {
    p.len() <= t.len() && t.subrange(0, p.len() as int) == p
}

/// Hint `i` is the first whose text begins with the bytes `line`.
pub open spec fn first_hint_for(hints: Seq<CommandHint>, line: Seq<u8>, i: int) -> bool {
    &&& 0 <= i < hints.len()
    &&& bytes_start_with(bytes_of(hints[i].display@), line)
    &&& forall|j: int|
        0 <= j < i ==> !bytes_start_with(bytes_of(#[trigger] hints[j].display@), line)
}

proof fn lemma_starts_with_self(b: Seq<u8>)
    ensures
        bytes_start_with(b, b),
{
    assert(b.subrange(0, b.len() as int) =~= b);
}

/// A valid UTF-8 prefix of valid UTF-8 ends on a character boundary.
proof fn lemma_prefix_boundary(t: Seq<u8>, p: Seq<u8>)
    requires
        valid_utf8(t),
        valid_utf8(p),
        bytes_start_with(t, p),
    ensures
        is_char_boundary(t, p.len() as int),
    decreases p.len(),
{
    if p.len() > 0 {
        reveal_with_fuel(valid_utf8, 1);
        assert(t[0] == p[0]);
        if p.len() >= 2 {
            assert(t[1] == p[1]);
        }
        if p.len() >= 3 {
            assert(t[2] == p[2]);
        }
        if p.len() >= 4 {
            assert(t[3] == p[3]);
        }
        let l = length_of_first_scalar(p);
        assert(length_of_first_scalar(t) == l);
        assert(pop_first_scalar(t).subrange(0, p.len() - l) =~= pop_first_scalar(p));
        lemma_prefix_boundary(pop_first_scalar(t), pop_first_scalar(p));
        reveal_with_fuel(is_char_boundary, 2);
    }
}

/// A boundary of `b` at or after `from` is a boundary of what follows `from`.
proof fn lemma_boundary_in_rest(b: Seq<u8>, from: int, at: int)
    requires
        valid_utf8(b),
        is_char_boundary(b, from),
        is_char_boundary(b, at),
        0 <= from <= at <= b.len(),
    ensures
        is_char_boundary(b.subrange(from, b.len() as int), at - from),
{
    let rest = b.subrange(from, b.len() as int);
    valid_utf8_split(b, from);
    if at == b.len() {
        is_char_boundary_start_end_of_seq(rest);
    } else if at == from {
        is_char_boundary_start_end_of_seq(rest);
    } else {
        is_char_boundary_iff_not_is_continuation_byte(b, at);
        is_char_boundary_iff_not_is_continuation_byte(rest, at - from);
        assert(rest[at - from] == b[at]);
    }
}

impl CommandHint {
    /// The part taken on acceptance lies within the text and ends on a
    /// character boundary.
    pub open spec fn wf(&self) -> bool {
        &&& self.complete_up_to <= bytes_of(self.display@).len()
        &&& is_char_boundary(bytes_of(self.display@), self.complete_up_to as int)
    }

    /// A hint that shows `text` and completes its first bytes, those of
    /// `complete_up_to`.
    pub fn new(text: &str, complete_up_to: &str) -> (r: CommandHint)
        requires
            bytes_start_with(text.spec_bytes(), complete_up_to.spec_bytes()),
        ensures
            r.wf(),
            r.display@ == text@,
            r.complete_up_to == complete_up_to.spec_bytes().len(),
    {
        proof {
            encode_utf8_valid_utf8(text@);
            encode_utf8_valid_utf8(complete_up_to@);
            lemma_prefix_boundary(text.spec_bytes(), complete_up_to.spec_bytes());
        }
        let n = complete_up_to.as_bytes().len();
        CommandHint { display: text.to_owned(), complete_up_to: n }
    }

    /// The same hint once its first `strip_chars` bytes have been typed.
    pub fn suffix(&self, strip_chars: usize) -> (r: CommandHint)
        requires
            self.wf(),
            strip_chars <= bytes_of(self.display@).len(),
            is_char_boundary(bytes_of(self.display@), strip_chars as int),
        ensures
            r.wf(),
            bytes_of(r.display@) == bytes_of(self.display@).subrange(
                strip_chars as int,
                bytes_of(self.display@).len() as int,
            ),
            r.complete_up_to == saturating_minus(self.complete_up_to as nat, strip_chars as nat),
    {
        let text = self.display.as_str();
        let (_, rest) = text.split_at(strip_chars);
        let rest = rest.to_owned();
        let up_to = if self.complete_up_to >= strip_chars {
            self.complete_up_to - strip_chars
        } else {
            0
        };
        proof {
            let b = bytes_of(self.display@);
            encode_utf8_valid_utf8(self.display@);
            if self.complete_up_to >= strip_chars {
                lemma_boundary_in_rest(b, strip_chars as int, self.complete_up_to as int);
            } else {
                lemma_boundary_in_rest(b, strip_chars as int, strip_chars as int);
            }
        }
        CommandHint { display: rest, complete_up_to: up_to }
    }

    /// The text shown.
    pub fn display(&self) -> (r: &str)
        ensures
            r@ == self.display@,
    {
        self.display.as_str()
    }

    /// What accepting the hint inserts, if anything: its first
    /// `complete_up_to` bytes.
    pub fn completion(&self) -> (r: Option<&str>)
        requires
            self.wf(),
        ensures
            self.complete_up_to == 0 ==> r is None,
            self.complete_up_to > 0 ==> (r matches Some(s) && s.spec_bytes() == bytes_of(
                self.display@,
            ).subrange(0, self.complete_up_to as int)),
    {
        if self.complete_up_to > 0 {
            let (head, _) = self.display.as_str().split_at(self.complete_up_to);
            Some(head)
        } else {
            None
        }
    }
}

/// The hints of the playground: one per command, each completing in full.
pub fn playground_hints() -> (r: Vec<CommandHint>)
    ensures
        r@.len() == 5,
        forall|i: int|
            0 <= i < r@.len() ==> (#[trigger] r@[i]).wf() && r@[i].complete_up_to == bytes_of(
                r@[i].display@,
            ).len(),
        r@[0].display@ == "#help"@,
        r@[1].display@ == "#clear"@,
        r@[2].display@ == "#readfile"@,
        r@[3].display@ == "#addline"@,
        r@[4].display@ == "#addword"@,
{
    proof {
        lemma_starts_with_self("#help".spec_bytes());
        lemma_starts_with_self("#clear".spec_bytes());
        lemma_starts_with_self("#readfile".spec_bytes());
        lemma_starts_with_self("#addline".spec_bytes());
        lemma_starts_with_self("#addword".spec_bytes());
    }
    let mut set: Vec<CommandHint> = Vec::new();
    set.push(CommandHint::new("#help", "#help"));
    set.push(CommandHint::new("#clear", "#clear"));
    set.push(CommandHint::new("#readfile", "#readfile"));
    set.push(CommandHint::new("#addline", "#addline"));
    set.push(CommandHint::new("#addword", "#addword"));
    set
}

/// Whether the bytes of `t` begin with those of `p`.
fn has_byte_prefix(t: &str, p: &str) -> (r: bool)
    ensures
        r == bytes_start_with(t.spec_bytes(), p.spec_bytes()),
{
    let tb = t.as_bytes();
    let pb = p.as_bytes();
    if pb.len() > tb.len() {
        return false;
    }
    let mut k: usize = 0;
    while k < pb.len()
        invariant
            tb@ == t.spec_bytes(),
            pb@ == p.spec_bytes(),
            pb@.len() <= tb@.len(),
            k <= pb@.len(),
            forall|j: int| 0 <= j < k ==> tb@[j] == pb@[j],
        decreases pb@.len() - k,
    {
        if tb[k] != pb[k] {
            assert(tb@.subrange(0, pb@.len() as int)[k as int] != pb@[k as int]);
            return false;
        }
        k = k + 1;
    }
    assert(tb@.subrange(0, pb@.len() as int) =~= pb@);
    true
}

/// The hint for a line being typed, with the cursor at byte `pos`: only at the
/// end of a non-empty line, the rest of the first hint that the line begins.
pub fn find_hint(hints: &Vec<CommandHint>, line: &str, pos: usize) -> (r: Option<CommandHint>)
    requires
        pos <= line.len(),
        forall|i: int| 0 <= i < hints@.len() ==> (#[trigger] hints@[i]).wf(),
    ensures
        pos < line.len() || pos == 0 ==> r is None,
        pos == line.len() && pos > 0 ==> match r {
            None => forall|i: int|
                0 <= i < hints@.len() ==> !bytes_start_with(
                    bytes_of(#[trigger] hints@[i].display@),
                    line.spec_bytes(),
                ),
            Some(h) => exists|i: int|
                #![trigger hints@[i]]
                first_hint_for(hints@, line.spec_bytes(), i) && bytes_of(h.display@) == bytes_of(
                    hints@[i].display@,
                ).subrange(pos as int, bytes_of(hints@[i].display@).len() as int)
                    && h.complete_up_to == saturating_minus(hints@[i].complete_up_to as nat, pos as nat),
        },
{
    if pos < line.len() || pos == 0 {
        return None;
    }
    let n = line.as_bytes().len();
    let mut i: usize = 0;
    while i < hints.len()
        invariant
            pos == line.len() && pos > 0,
            n == line.spec_bytes().len(),
            n == pos,
            forall|j: int| 0 <= j < hints@.len() ==> (#[trigger] hints@[j]).wf(),
            i <= hints@.len(),
            forall|j: int|
                0 <= j < i ==> !bytes_start_with(
                    bytes_of(#[trigger] hints@[j].display@),
                    line.spec_bytes(),
                ),
        decreases hints@.len() - i,
    {
        let hint = &hints[i];
        let text = hint.display();
        if has_byte_prefix(text, line) {
            proof {
                encode_utf8_valid_utf8(text@);
                encode_utf8_valid_utf8(line@);
                lemma_prefix_boundary(text.spec_bytes(), line.spec_bytes());
            }
            assert(first_hint_for(hints@, line.spec_bytes(), i as int));
            return Some(hint.suffix(pos));
        }
        i = i + 1;
    }
    None
}

} // verus!
