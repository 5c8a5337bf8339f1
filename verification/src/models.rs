//! Value types for the prediction pipeline.

use vstd::prelude::*;
use vstd::string::*;
use crate::text;

verus! {

/// Confidence is kept in thousandths (permille) of the unit interval, so
/// 0 stands for 0.0 and 1000 for 1.0. Scoring clamps results to 1000; a
/// freshly constructed value is not forced into the range.
#[derive(Clone, Copy, Debug, PartialEq, Eq, Structural)]
pub struct Confidence(pub u32);

impl Confidence {
    /// The raw permille value.
    pub fn value(&self) -> (r: u32)
        ensures
            r == self.0,
    {
        self.0
    }

    /// Whether the value clears the ghost-text display threshold (0.4).
    pub fn is_high_enough_for_ghost(&self) -> (r: bool)
        ensures
            r == (self.0 >= 400),
    {
        self.0 >= 400
    }
}

/// What kind of completion a candidate is; governs its scoring weight.
#[derive(Clone, Copy, Debug, PartialEq, Eq, Structural)]
pub enum PredictionType {
    /// Complete command prediction
    FullCommand,
    /// Next token/word prediction
    NextToken,
    /// Flag or option suggestion
    Flag,
    /// Argument value suggestion
    ArgumentValue,
    /// File or path suggestion
    Path,
}

/// Which subsystem produced a candidate; governs its scoring weight.
#[derive(Clone, Copy, Debug, PartialEq, Eq, Structural)]
pub enum PredictionSource {
    /// From command history
    History,
    /// From current directory context
    DirectoryContext,
    /// From project-specific analysis
    ProjectType,
    /// From git status
    GitContext,
    /// From common command patterns
    CommandPatterns,
    /// From user's personal patterns
    UserPatterns,
}

/// A candidate completion with its metadata.
///
/// `text` is the sole identity of a candidate: deduplication and learning
/// lookups compare nothing else. Instants are plain milliseconds supplied
/// by the caller.
#[derive(Debug)]
pub struct Prediction {
    /// The predicted text
    pub text: String,
    /// Display text (may include additional info)
    pub display_text: String,
    /// Type of prediction
    pub prediction_type: PredictionType,
    /// Source of the prediction
    pub source: PredictionSource,
    /// Confidence score, in permille of the unit interval
    pub confidence: Confidence,
    /// How many tokens this prediction completes
    pub tokens_completed: usize,
    /// Optional explanation of what this command does
    pub explanation: Option<String>,
    /// User acceptance count (how often user selected this)
    pub usage_count: usize,
    /// Creation instant, milliseconds
    pub timestamp: u64,
    /// Additional metadata, one value per key
    pub metadata: Vec<(String, String)>,
}

/// Copies a list of key/value string pairs.
fn clone_string_pairs(v: &Vec<(String, String)>) -> (r: Vec<(String, String)>)
    ensures
        r@ == v@,
{
    let mut r: Vec<(String, String)> = Vec::new();
    let mut i: usize = 0;
    while i < v.len()
        invariant
            0 <= i <= v@.len(),
            r@ == v@.subrange(0, i as int),
        decreases v@.len() - i,
    {
        let (k, val) = (&v[i].0, &v[i].1);
        r.push((k.clone(), val.clone()));
        proof {
            assert(r@ =~= v@.subrange(0, i + 1));
        }
        i = i + 1;
    }
    proof {
        assert(v@.subrange(0, v@.len() as int) =~= v@);
    }
    r
}

/// Equality of candidates, field by field; the metadata lists are compared
/// by their contents.
pub open spec fn pred_eq(a: Prediction, b: Prediction) -> bool {
    &&& a.text == b.text
    &&& a.display_text == b.display_text
    &&& a.prediction_type == b.prediction_type
    &&& a.source == b.source
    &&& a.confidence == b.confidence
    &&& a.tokens_completed == b.tokens_completed
    &&& a.explanation == b.explanation
    &&& a.usage_count == b.usage_count
    &&& a.timestamp == b.timestamp
    &&& a.metadata@ == b.metadata@
}

/// Pointwise [`pred_eq`] over two candidate lists.
pub open spec fn preds_eq(a: Seq<Prediction>, b: Seq<Prediction>) -> bool {
    a.len() == b.len() && forall|i: int| 0 <= i < a.len() ==> pred_eq(#[trigger] a[i], #[trigger] b[i])
}

impl Clone for Prediction {
    /// A copy that is equal to the original in every field.
    fn clone(&self) -> (r: Self)
        ensures
            pred_eq(r, *self),
    {
        let r = Prediction {
            text: self.text.clone(),
            display_text: self.display_text.clone(),
            prediction_type: self.prediction_type,
            source: self.source,
            confidence: self.confidence,
            tokens_completed: self.tokens_completed,
            explanation: match &self.explanation {
                Some(e) => Some(e.clone()),
                None => None,
            },
            usage_count: self.usage_count,
            timestamp: self.timestamp,
            metadata: clone_string_pairs(&self.metadata),
        };
        r
    }
}

/// The elapsed time from `ts` to `now`, zero when the clock went backwards.
pub open spec fn spec_elapsed(ts: u64, now: u64) -> int {
    if now >= ts {
        now - ts
    } else {
        0
    }
}

/// The first index in `m` whose key reads `key`, if any.
pub open spec fn spec_has_key(m: Seq<(String, String)>, key: Seq<char>) -> bool {
    exists|j: int| 0 <= j < m.len() && #[trigger] m[j].0@ == key
}

impl Prediction {
    /// A fresh candidate: display text mirrors `text`, one token completed,
    /// no explanation, no usage, empty metadata.
    pub fn new(
        text: String,
        prediction_type: PredictionType,
        source: PredictionSource,
        confidence: Confidence,
        now_ms: u64,
    ) -> (r: Self)
        ensures
            r.text == text,
            r.display_text@ == text@,
            r.prediction_type == prediction_type,
            r.source == source,
            r.confidence == confidence,
            r.tokens_completed == 1,
            r.explanation is None,
            r.usage_count == 0,
            r.timestamp == now_ms,
            r.metadata@.len() == 0,
    {
        let display_text = text.clone();
        Prediction {
            text,
            display_text,
            prediction_type,
            source,
            confidence,
            tokens_completed: 1,
            explanation: None,
            usage_count: 0,
            timestamp: now_ms,
            metadata: Vec::new(),
        }
    }

    /// Whether the candidate is younger than `max_age_ms` at instant `now_ms`.
    pub fn is_fresh(&self, max_age_ms: u64, now_ms: u64) -> (r: bool)
        ensures
            r == (spec_elapsed(self.timestamp, now_ms) < max_age_ms),
    {
        let elapsed = if now_ms >= self.timestamp {
            now_ms - self.timestamp
        } else {
            0
        };
        elapsed < max_age_ms
    }

    /// The part of the candidate that is not typed yet: the whole text for
    /// empty input, the suffix after the input when the input is a prefix
    /// of the text, and nothing otherwise.
    pub fn get_ghost_text(&self, current_input: &str) -> (r: String)
        ensures
            current_input@.len() == 0 ==> r@ == self.text@,
            current_input@.len() > 0 && text::spec_starts_with(self.text@, current_input@) ==> r@
                == self.text@.subrange(current_input@.len() as int, self.text@.len() as int),
            current_input@.len() > 0 && !text::spec_starts_with(self.text@, current_input@) ==> r@
                =~= Seq::<char>::empty(),
    {
        if current_input.is_empty() {
            return self.text.clone();
        }
        match text::strip_prefix_string(self.text.as_str(), current_input) {
            Some(s) => s,
            None => String::new(),
        }
    }

    /// The same candidate with `value` stored under `key`: an existing
    /// entry for the key is replaced in place, a new key is appended.
    pub fn with_metadata(self, key: &str, value: &str) -> (r: Self)
        ensures
            r.text == self.text,
            r.display_text == self.display_text,
            r.prediction_type == self.prediction_type,
            r.source == self.source,
            r.confidence == self.confidence,
            r.tokens_completed == self.tokens_completed,
            r.explanation == self.explanation,
            r.usage_count == self.usage_count,
            r.timestamp == self.timestamp,
            spec_has_key(self.metadata@, key@) ==> exists|j: int|
                {
                    &&& 0 <= j < self.metadata@.len()
                    &&& #[trigger] self.metadata@[j].0@ == key@
                    &&& forall|k: int| 0 <= k < j ==> #[trigger] self.metadata@[k].0@ != key@
                    &&& r.metadata@.len() == self.metadata@.len()
                    &&& forall|i: int|
                        0 <= i < self.metadata@.len() && i != j ==> r.metadata@[i]
                            == self.metadata@[i]
                    &&& r.metadata@[j].0@ == key@
                    &&& r.metadata@[j].1@ == value@
                },
            !spec_has_key(self.metadata@, key@) ==> {
                &&& r.metadata@.len() == self.metadata@.len() + 1
                &&& r.metadata@.subrange(0, self.metadata@.len() as int) == self.metadata@
                &&& r.metadata@[self.metadata@.len() as int].0@ == key@
                &&& r.metadata@[self.metadata@.len() as int].1@ == value@
            },
    {
        let mut m: Vec<(String, String)> = Vec::new();
        let mut i: usize = 0;
        let mut replaced_at: Option<usize> = None;
        while i < self.metadata.len()
            invariant
                0 <= i <= self.metadata@.len(),
                m@.len() == i,
                match replaced_at {
                    Some(j) => {
                        &&& 0 <= j < i
                        &&& self.metadata@[j as int].0@ == key@
                        &&& forall|k: int|
                            0 <= k < j ==> #[trigger] self.metadata@[k].0@ != key@
                        &&& forall|k: int|
                            0 <= k < i && k != j ==> m@[k] == self.metadata@[k]
                        &&& m@[j as int].0@ == key@
                        &&& m@[j as int].1@ == value@
                    },
                    None => {
                        &&& forall|k: int| 0 <= k < i ==> #[trigger] self.metadata@[k].0@ != key@
                        &&& m@ == self.metadata@.subrange(0, i as int)
                    },
                },
            decreases self.metadata@.len() - i,
        {
            let hit = replaced_at.is_none() && text::str_eq(self.metadata[i].0.as_str(), key);
            if hit {
                m.push((key.to_owned(), value.to_owned()));
                replaced_at = Some(i);
            } else {
                let (k, v) = (&self.metadata[i].0, &self.metadata[i].1);
                m.push((k.clone(), v.clone()));
                proof {
                    if replaced_at is None {
                        assert(m@ =~= self.metadata@.subrange(0, i + 1));
                    }
                }
            }
            i = i + 1;
        }
        if replaced_at.is_none() {
            proof {
                assert(m@ =~= self.metadata@.subrange(0, self.metadata@.len() as int));
                assert(m@ =~= self.metadata@);
            }
            m.push((key.to_owned(), value.to_owned()));
            proof {
                assert(m@.subrange(0, self.metadata@.len() as int) =~= self.metadata@);
            }
        }
        let r = Prediction { metadata: m, ..self };
        r
    }

    /// The same candidate with an explanation attached.
    pub fn with_explanation(self, explanation: &str) -> (r: Self)
        ensures
            r == (Prediction { explanation: r.explanation, ..self }),
            (r.explanation matches Some(e) && e@ == explanation@),
    {
        Prediction { explanation: Some(explanation.to_owned()), ..self }
    }

    /// The same candidate with the completed-token count set.
    pub fn with_tokens_completed(self, tokens: usize) -> (r: Self)
        ensures
            r == (Prediction { tokens_completed: tokens, ..self }),
    {
        Prediction { tokens_completed: tokens, ..self }
    }

    /// The same candidate with the display text set.
    pub fn with_display_text(self, display_text: &str) -> (r: Self)
        ensures
            r == (Prediction { display_text: r.display_text, ..self }),
            r.display_text@ == display_text@,
    {
        Prediction { display_text: display_text.to_owned(), ..self }
    }

    /// Records one more acceptance of this candidate at instant `now_ms`.
    pub fn record_usage(&mut self, now_ms: u64)
        requires
            old(self).usage_count < usize::MAX,
        ensures
            *final(self) == (Prediction {
                usage_count: (old(self).usage_count + 1) as usize,
                timestamp: now_ms,
                ..*old(self)
            }),
    {
        self.usage_count = self.usage_count + 1;
        self.timestamp = now_ms;
    }
}

} // verus!
