//! The decision parser: from raw model text to a structured judgement.

use vstd::prelude::*;

use crate::json;
use crate::strutil;
use crate::text;

verus! {

/// The structured judgement the model is expected to produce.
#[derive(Debug)]
pub struct LlmDecision {
    pub decision: String,
    pub reason: String,
}

/// Why raw model text yielded no decision.
#[derive(Debug, Clone, Copy, PartialEq, Eq, Structural)]
pub enum ParseError {
    /// No flat `{...}` span occurs once think spans are removed.
    NoJsonFound,
    /// The first flat span is not an object carrying `decision` and `reason`
    /// string fields, each exactly once.
    MalformedJson,
}

/// What parsing raw model text yields: strip every `<think>...</think>`
/// span, take the first flat `{...}` span of what remains, and read it as
/// the judge's wire object.
pub open spec fn spec_parse_decision(raw: Seq<char>) -> Result<
    (Seq<char>, Seq<char>),
    ParseError,
> {
    let t = text::spec_strip_think(raw);
    match text::spec_find_object(t, 0) {
        None => Err(ParseError::NoJsonFound),
        Some((i, j)) => match json::spec_object_decision(t.subrange(i, j + 1)) {
            None => Err(ParseError::MalformedJson),
            Some((d, r)) => Ok((d, r)),
        },
    }
}

/// Extracts the judge's structured choice from raw model text.  Text before,
/// between and after the think spans and the object span is ignored.
pub fn parse_decision(raw: &str) -> (r: Result<LlmDecision, ParseError>)
    ensures
        r matches Ok(d) ==> spec_parse_decision(raw@) matches Ok(p) && d.decision@ == p.0
            && d.reason@ == p.1,
        r matches Err(e) ==> spec_parse_decision(raw@) == Err::<(Seq<char>, Seq<char>),
            ParseError,
        >(e),
{
    let cv = strutil::chars_of(raw);
    let t = text::strip_think(&cv);
    match text::find_object(&t, 0) {
        None => Err(ParseError::NoJsonFound),
        Some((i, j)) => {
            let span = text::copy_range(&t, i, j + 1);
            match json::parse_flat_object(&span) {
                None => Err(ParseError::MalformedJson),
                Some((d, rs)) => Ok(
                    LlmDecision {
                        decision: strutil::string_of_chars(&d),
                        reason: strutil::string_of_chars(&rs),
                    },
                ),
            }
        },
    }
}

} // verus!
