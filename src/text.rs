use vstd::prelude::*;

verus! {

/// One sample that patterns are tried against.
pub enum Text {
    /// A single word, printed bare.
    Word(String),
    /// A whole line (or file), printed between double quotes.
    Line(String),
}

impl Text {
    /// The characters of the sample, whatever its kind.
    pub open spec fn chars(&self) -> Seq<char> {
        match self {
            Text::Word(w) => w@,
            Text::Line(l) => l@,
        }
    }

    pub open spec fn spec_is_line(&self) -> bool {
        self is Line
    }

    /// Whether the sample is shown quoted: true for a line, false for a word.
    pub fn is_line(&self) -> (r: bool)
        ensures
            r == self.spec_is_line(),
    {
        match self {
            Text::Word(_) => false,
            Text::Line(_) => true,
        }
    }

    /// The text of the sample.
    pub fn as_str(&self) -> (r: &str)
        ensures
            r@ == self.chars(),
    {
        match self {
            Text::Word(w) => w.as_str(),
            Text::Line(l) => l.as_str(),
        }
    }
}

} // verus!
