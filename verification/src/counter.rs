//! The counting routine: from a byte input and a set of requested metrics
//! to a result record, or a decode error.

use vstd::prelude::*;
use crate::record::metrics_add;
use crate::record::metrics_of;
use crate::record::WcResult;
use crate::text::count_lines;
use crate::text::count_words;
use crate::text::decode_utf8;
use crate::text::lines_of;
use crate::text::utf8_to_code_points;
use crate::text::words_of;

verus! {

/// Which metrics a run asks for.
#[derive(Clone, Copy, Debug, PartialEq, Eq, Structural)]
pub struct Metrics {
    pub bytes: bool,
    pub lines: bool,
    pub words: bool,
    pub chars: bool,
}

impl Metrics {
    /// Whether a character-dependent metric is requested, so that the input
    /// has to decode.
    pub open spec fn needs_text(self) -> bool {
        self.lines || self.words || self.chars
    }

    /// Whether no metric at all is requested.
    pub open spec fn is_empty(self) -> bool {
        !self.bytes && !self.lines && !self.words && !self.chars
    }

    /// The request with the conventional default applied: when no metric is
    /// asked for, bytes, lines and words are counted.
    pub fn normalized(&self) -> (r: Metrics)
        ensures
            !self.is_empty() ==> r == *self,
            self.is_empty() ==> r == (Metrics {
                bytes: true,
                lines: true,
                words: true,
                chars: false,
            }),
    {
        if !self.bytes && !self.lines && !self.words && !self.chars {
            Metrics { bytes: true, lines: true, words: true, chars: false }
        } else {
            *self
        }
    }
}

/// Why an input produced no result record.
#[derive(Clone, Copy, Debug, PartialEq, Eq, Structural)]
pub enum WcError {
    /// The input identifier did not resolve to readable content.
    InputNotFound,
    /// The bytes are not valid UTF-8 while a character-dependent metric was
    /// requested.
    DecodeError,
    /// No input was given and standard input is not in use.
    NoInputSpecified,
}

/// The set of metrics present in the record `r` is exactly the set that
/// `m` asks for.
pub open spec fn presence_matches(r: WcResult, m: Metrics) -> bool {
    &&& (r.bytes is Some <==> m.bytes)
    &&& (r.lines is Some <==> m.lines)
    &&& (r.words is Some <==> m.words)
    &&& (r.chars is Some <==> m.chars)
}

/// Folding keeps a run's set of present metrics: when a running total and
/// an incoming record both carry exactly the requested metrics, the folded
/// total carries exactly those metrics again.
pub proof fn lemma_fold_keeps_presence(a: WcResult, b: WcResult, c: WcResult, m: Metrics)
    requires
        presence_matches(a, m),
        presence_matches(b, m),
        metrics_of(c) == metrics_add(metrics_of(a), metrics_of(b)),
    ensures
        presence_matches(c, m),
{
}

/// Count the requested metrics of `content`. The byte count is the raw
/// length; the other metrics are counted over the UTF-8 decoding of the
/// content, which must succeed only when one of them is requested.
pub fn count(content: &Vec<u8>, requested: &Metrics) -> (r: Result<WcResult, WcError>)
    ensures
        r is Ok <==> (requested.needs_text() ==> decode_utf8(content@) is Some),
        r is Err ==> r->Err_0 == WcError::DecodeError,
        r is Ok ==> ({
            let res = r->Ok_0;
            &&& res.file@ == Seq::<char>::empty()
            &&& presence_matches(res, *requested)
            &&& (requested.bytes ==> res.bytes->Some_0 == content@.len())
            &&& (requested.lines ==> res.lines->Some_0 == lines_of(decode_utf8(content@)->Some_0))
            &&& (requested.words ==> res.words->Some_0 == words_of(decode_utf8(content@)->Some_0))
            &&& (requested.chars ==> res.chars->Some_0 == decode_utf8(content@)->Some_0.len())
        }),
{
    let mut res = WcResult::new();
    if requested.bytes {
        res.bytes = Some(content.len());
    }
    if requested.lines || requested.words || requested.chars {
        match utf8_to_code_points(content) {
            None => {
                return Err(WcError::DecodeError);
            },
            Some(text) => {
                if requested.lines {
                    res.lines = Some(count_lines(&text));
                }
                if requested.words {
                    res.words = Some(count_words(&text));
                }
                if requested.chars {
                    res.chars = Some(text.len());
                }
            },
        }
    }
    Ok(res)
}

} // verus!
