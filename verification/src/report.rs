//! What is said of source that cannot be lowered as it stands.

use vstd::prelude::*;
use crate::text::{dec, decimal, joined, squeeze, squeezed, text_of};

verus! {

/// Who is at fault for a construct that was not lowered.
#[derive(Debug, Clone, Copy, PartialEq, Eq, Structural)]
pub enum Attribution {
    /// This front end does not lower the construct.
    FrontendGap,
    /// The analyzed source misuses the language.
    SourceProblem,
}

impl Attribution {
    /// The words a report begins with.
    pub fn prefix(self) -> (s: &'static str)
        ensures
            s@ == (match self {
                Attribution::FrontendGap => "frontend gap"@,
                Attribution::SourceProblem => "source problem"@,
            }),
    {
        match self {
            Attribution::FrontendGap => "frontend gap",
            Attribution::SourceProblem => "source problem",
        }
    }
}

/// A construct that was not lowered as written, and how lowering went on.
#[derive(Debug)]
pub struct Report {
    pub attribution: Attribution,
    pub message: String,
}

/// View of a [`Report`].
pub ghost struct ReportView {
    pub attribution: Attribution,
    pub message: Seq<char>,
}

impl View for Report {
    type V = ReportView;

    open spec fn view(&self) -> ReportView {
        ReportView { attribution: self.attribution, message: self.message@ }
    }
}

/// How much of a construct a report quotes, in characters.
pub const PARSE_ERROR_QUOTE_CHARS: usize = 200;

/// The text of a construct on one line, cut to what a report quotes.
pub open spec fn quoted(text: Seq<char>) -> Seq<char> {
    let line = squeezed(text);
    if line.len() <= PARSE_ERROR_QUOTE_CHARS {
        line
    } else {
        line.take(PARSE_ERROR_QUOTE_CHARS as int)
    }
}

/// How many characters of a construct a report does not quote.
pub open spec fn elided(text: Seq<char>) -> nat {
    let line = squeezed(text);
    if line.len() <= PARSE_ERROR_QUOTE_CHARS {
        0
    } else {
        (line.len() - PARSE_ERROR_QUOTE_CHARS) as nat
    }
}

/// What a report says of the characters it does not quote.
pub open spec fn elision(text: Seq<char>) -> Seq<char> {
    if elided(text) > 0 {
        " (+"@ + dec(elided(text)) + " chars elided)"@
    } else {
        ""@
    }
}

/// The text of a construct on one line, cut to what a report quotes, and how many characters were
/// cut off.
pub fn quote_construct(text: &str) -> (q: (String, usize))
    ensures
        q.0@ == quoted(text@),
        q.1 == elided(text@),
{
    let line = squeeze(text);
    let len: usize = line.len();
    if len <= PARSE_ERROR_QUOTE_CHARS {
        let s = text_of(&line, 0, len);
        assert(s@ =~= squeezed(text@));
        (s, 0)
    } else {
        let s = text_of(&line, 0, PARSE_ERROR_QUOTE_CHARS);
        assert(s@ =~= quoted(text@));
        (s, len - PARSE_ERROR_QUOTE_CHARS)
    }
}

/// A quote is short, whatever it quotes.
pub proof fn a_quote_is_bounded(text: Seq<char>)
    ensures
        quoted(text).len() <= PARSE_ERROR_QUOTE_CHARS,
        quoted(text).len() + elided(text) == squeezed(text).len(),
{
}

/// What a report says of the characters it does not quote.
pub fn elision_note(text: &str) -> (s: String)
    ensures
        s@ == elision(text@),
{
    let q = quote_construct(text);
    if q.1 > 0 {
        let mut s = joined(" (+", decimal(q.1).as_str());
        s.append(" chars elided)");
        s
    } else {
        String::from_str("")
    }
}

} // verus!
