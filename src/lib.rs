//! A playground for trying regular expressions against a set of sample
//! strings: the samples, the evaluation of one pattern against all of them,
//! the layout of highlighted output, and the `#` commands of a session.
pub mod command;
pub mod highlight;
pub mod hints;
pub mod regex_attempt;
pub mod text;

pub use command::{Action, PlaygroundData};
pub use highlight::{highlight_segments, RenderedSample, Segment, Style};
pub use hints::{find_hint, playground_hints, CommandHint};
pub use regex_attempt::{render_sample, sample_passes, PatternError, RegexAttempt, TestKind};
pub use text::Text;
