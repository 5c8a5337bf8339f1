//! Learning from accepted candidates.
//!
//! The store maps a command text to how often the user accepted it and
//! when it was last used. Acceptances boost the confidence of matching
//! candidates during a later prediction. The store serializes to a single
//! versioned binary blob; reading and writing the file is the embedding
//! application's part, the encoding and its round trip are proved here.

use vstd::prelude::*;
use vstd::bytes::*;
use vstd::string::*;
use vstd::utf8::*;
use crate::models::{Confidence, Prediction};
use crate::text;

verus! {

/// How often a command text was accepted, and when last.
pub struct LearnedPattern {
    /// The accepted command text
    pub text: String,
    /// Number of acceptances
    pub count: u64,
    /// Seconds since the epoch at the last acceptance
    pub last_used: u64,
}

/// All pattern texts pairwise distinct.
pub open spec fn unique_texts(s: Seq<LearnedPattern>) -> bool {
    forall|i: int, j: int|
        0 <= i < j < s.len() ==> #[trigger] s[i].text@ != #[trigger] s[j].text@
}

/// Whether some pattern carries the text `t`.
pub open spec fn has_pattern(s: Seq<LearnedPattern>, t: Seq<char>) -> bool {
    exists|i: int| 0 <= i < s.len() && #[trigger] s[i].text@ == t
}

/// The candidate with the learning boost for `count` acceptances applied:
/// 100 permille per acceptance up to ten, the sum clamped to 1000.
pub open spec fn spec_boosted(p: Prediction, count: u64) -> Prediction {
    let boost: int = if count >= 10 {
        1000
    } else {
        count * 100
    };
    let c: int = if p.confidence.0 + boost >= 1000 {
        1000
    } else {
        p.confidence.0 + boost
    };
    Prediction { confidence: Confidence(c as u32), ..p }
}

/// Law: from the tenth acceptance on, the boost saturates; adjusting a
/// candidate whose text was accepted ten or more times always yields the
/// full confidence of 1000 permille.
pub proof fn lemma_boost_saturation(p: Prediction, count: u64)
    requires
        count >= 10,
    ensures
        spec_boosted(p, count).confidence.0 == 1000,
{
}

/// The acceptance count of the pattern for `t`.
pub open spec fn pattern_count(s: Seq<LearnedPattern>, t: Seq<char>) -> u64
    recommends
        has_pattern(s, t),
{
    s[choose|i: int| 0 <= i < s.len() && #[trigger] s[i].text@ == t].count
}

/// Every candidate with a learned pattern boosted, the rest untouched.
pub open spec fn adjust_model(patterns: Seq<LearnedPattern>, preds: Seq<Prediction>) -> Seq<
    Prediction,
> {
    preds.map_values(
        |p: Prediction|
            if has_pattern(patterns, p.text@) {
                spec_boosted(p, pattern_count(patterns, p.text@))
            } else {
                p
            },
    )
}

/// Learns which commands the user accepts. Shared across requests by the
/// embedding application; here a plain value.
pub struct UserLearningSystem {
    /// One pattern per accepted command text
    pub patterns: Vec<LearnedPattern>,
    /// How many acceptances were recorded since the store was created
    pub modification_count: u64,
}

/// A snapshot of the store is persisted every this many acceptances.
pub const SAVE_INTERVAL: u64 = 100;

/// The store after one acceptance of `text` at `now_secs`: its pattern
/// is created with one acceptance or incremented and stamped, the other
/// patterns stay, and the modification counter advances.
pub open spec fn recorded_acceptance(
    old_l: UserLearningSystem,
    new_l: UserLearningSystem,
    text: Seq<char>,
    now_secs: u64,
) -> bool {
    &&& new_l.modification_count == old_l.modification_count + 1
    &&& (has_pattern(old_l.patterns@, text) ==> exists|j: int|
        {
            &&& 0 <= j < old_l.patterns@.len()
            &&& #[trigger] old_l.patterns@[j].text@ == text
            &&& new_l.patterns@.len() == old_l.patterns@.len()
            &&& (forall|l: int|
                0 <= l < old_l.patterns@.len() && l != j ==> #[trigger] new_l.patterns@[l]
                    == old_l.patterns@[l])
            &&& new_l.patterns@[j].text == old_l.patterns@[j].text
            &&& new_l.patterns@[j].count == (if old_l.patterns@[j].count < u64::MAX {
                old_l.patterns@[j].count + 1
            } else {
                u64::MAX as int
            })
            &&& new_l.patterns@[j].last_used == now_secs
        })
    &&& (!has_pattern(old_l.patterns@, text) ==> {
        &&& new_l.patterns@.len() == old_l.patterns@.len() + 1
        &&& new_l.patterns@.subrange(0, old_l.patterns@.len() as int) == old_l.patterns@
        &&& new_l.patterns@.last().text@ == text
        &&& new_l.patterns@.last().count == 1
        &&& new_l.patterns@.last().last_used == now_secs
    })
}

impl UserLearningSystem {
    /// The store invariant: pattern texts are pairwise distinct.
    pub open spec fn wf(self) -> bool {
        unique_texts(self.patterns@)
    }

    /// An empty store.
    pub fn new() -> (r: Self)
        ensures
            r.wf(),
            r.patterns@.len() == 0,
            r.modification_count == 0,
    {
        UserLearningSystem { patterns: Vec::new(), modification_count: 0 }
    }

    /// Records that the user accepted `prediction`: the pattern for its
    /// text is created with one acceptance or incremented, and stamped
    /// with `now_secs`. The result says whether this acceptance crossed
    /// the save interval, so that the caller should persist a snapshot.
    #[verifier::loop_isolation(false)]
    pub fn record_accepted_prediction(
        &mut self,
        prediction: &Prediction,
        now_secs: u64,
    ) -> (save_due: bool)
        requires
            old(self).wf(),
            old(self).modification_count < u64::MAX,
        ensures
            final(self).wf(),
            save_due == (old(self).modification_count % SAVE_INTERVAL == 0),
            recorded_acceptance(*old(self), *final(self), prediction.text@, now_secs),
    {
        let save_due = self.modification_count % SAVE_INTERVAL == 0;
        self.modification_count = self.modification_count + 1;
        let ghost orig = self.patterns@;
        match find_pattern_index(&self.patterns, prediction.text.as_str()) {
            Some(i) => {
                let mut e = self.patterns.remove(i);
                e.count = if e.count < u64::MAX {
                    e.count + 1
                } else {
                    e.count
                };
                e.last_used = now_secs;
                let ghost en = e;
                self.patterns.insert(i, e);
                proof {
                    assert(self.patterns@ =~= orig.update(i as int, en));
                    assert(forall|l: int|
                        0 <= l < orig.len() && l != i ==> #[trigger] self.patterns@[l] == orig[l]);
                    assert(unique_texts(self.patterns@)) by {
                        assert(self.patterns@[i as int].text@ == orig[i as int].text@);
                    }
                }
                save_due
            },
            None => {
                let e = LearnedPattern {
                    text: prediction.text.clone(),
                    count: 1,
                    last_used: now_secs,
                };
                self.patterns.push(e);
                proof {
                    assert(final(self).patterns@.subrange(0, orig.len() as int) =~= orig);
                    assert(unique_texts(self.patterns@)) by {
                        assert(forall|a: int|
                            0 <= a < orig.len() ==> #[trigger] self.patterns@[a] == orig[a]);
                    }
                }
                save_due
            },
        }
    }

    /// Boosts, in place, the confidence of every candidate whose text has
    /// a learned pattern; candidates without one are untouched.
    #[verifier::loop_isolation(false)]
    pub fn adjust_scores(&self, predictions: &mut Vec<Prediction>, _input: &str)
        requires
            self.wf(),
        ensures
            final(predictions)@ == adjust_model(self.patterns@, old(predictions)@),
            final(predictions)@.len() == old(predictions)@.len(),
            forall|i: int|
                0 <= i < old(predictions)@.len() && !has_pattern(
                    self.patterns@,
                    old(predictions)@[i].text@,
                ) ==> #[trigger] final(predictions)@[i] == old(predictions)@[i],
            forall|i: int, j: int|
                0 <= i < old(predictions)@.len() && 0 <= j < self.patterns@.len()
                    && #[trigger] self.patterns@[j].text@ == old(predictions)@[i].text@
                    ==> #[trigger] final(predictions)@[i] == spec_boosted(
                    old(predictions)@[i],
                    self.patterns@[j].count,
                ),
    {
        let ghost orig = predictions@;
        let mut i: usize = 0;
        while i < predictions.len()
            invariant
                0 <= i <= orig.len(),
                predictions@.len() == orig.len(),
                forall|l: int| i <= l < orig.len() ==> #[trigger] predictions@[l] == orig[l],
                forall|l: int|
                    0 <= l < i && !has_pattern(self.patterns@, orig[l].text@)
                        ==> #[trigger] predictions@[l] == orig[l],
                forall|l: int, j: int|
                    0 <= l < i && 0 <= j < self.patterns@.len()
                        && #[trigger] self.patterns@[j].text@ == orig[l].text@
                        ==> #[trigger] predictions@[l] == spec_boosted(
                        orig[l],
                        self.patterns@[j].count,
                    ),
            decreases orig.len() - i,
        {
            match find_pattern_index(&self.patterns, predictions[i].text.as_str()) {
                Some(j) => {
                    let count = self.patterns[j].count;
                    let boost: u64 = if count >= 10 {
                        1000
                    } else {
                        count * 100
                    };
                    let cur = predictions[i].confidence.0;
                    let c: u32 = if cur as u64 + boost >= 1000 {
                        1000
                    } else {
                        cur + boost as u32
                    };
                    predictions[i].confidence = Confidence(c);
                    proof {
                        assert(predictions@[i as int] == spec_boosted(orig[i as int], count));
                        assert(forall|j2: int|
                            0 <= j2 < self.patterns@.len() && #[trigger] self.patterns@[j2].text@
                                == orig[i as int].text@ ==> j2 == j);
                    }
                },
                None => {},
            }
            i = i + 1;
        }
        proof {
            assert forall|l: int| 0 <= l < orig.len() implies predictions@[l] == adjust_model(
                self.patterns@,
                orig,
            )[l] by {
                if has_pattern(self.patterns@, orig[l].text@) {
                    let w = choose|w: int|
                        0 <= w < self.patterns@.len() && #[trigger] self.patterns@[w].text@
                            == orig[l].text@;
                    assert(predictions@[l] == spec_boosted(orig[l], self.patterns@[w].count));
                }
            }
            assert(predictions@ =~= adjust_model(self.patterns@, orig));
        }
    }
}

/// The persisted format's version tag.
pub const STORE_VERSION: u32 = 1;

/// One pattern on disk: the text's byte length, the text's UTF-8 bytes,
/// the acceptance count and the last-used stamp, integers little-endian.
pub open spec fn encode_entry(p: LearnedPattern) -> Seq<u8> {
    spec_u64_to_le_bytes(encode_utf8(p.text@).len() as u64) + encode_utf8(p.text@)
        + spec_u64_to_le_bytes(p.count) + spec_u64_to_le_bytes(p.last_used)
}

/// The patterns on disk, one after the other.
pub open spec fn encode_list(s: Seq<LearnedPattern>) -> Seq<u8>
    decreases s.len(),
{
    if s.len() == 0 {
        Seq::<u8>::empty()
    } else {
        encode_entry(s.first()) + encode_list(s.drop_first())
    }
}

/// The whole store on disk: version, pattern count, then the patterns.
pub open spec fn encode_store(s: Seq<LearnedPattern>) -> Seq<u8> {
    spec_u32_to_le_bytes(STORE_VERSION) + spec_u64_to_le_bytes(s.len() as u64) + encode_list(s)
}

/// Whether `b` consists of exactly `n` well-formed encoded patterns.
pub open spec fn valid_entries(b: Seq<u8>, n: nat) -> bool
    decreases n,
{
    if n == 0 {
        b.len() == 0
    } else {
        &&& b.len() >= 8
        &&& {
            let l = spec_u64_from_le_bytes(b.subrange(0, 8)) as int;
            &&& b.len() >= 24 + l
            &&& valid_utf8(b.subrange(8, 8 + l))
            &&& valid_entries(b.subrange(24 + l, b.len() as int), (n - 1) as nat)
        }
    }
}

/// The texts of `n` encoded patterns, decoded.
pub open spec fn entry_texts(b: Seq<u8>, n: nat) -> Seq<Seq<char>>
    decreases n,
{
    if n == 0 {
        Seq::<Seq<char>>::empty()
    } else {
        let l = spec_u64_from_le_bytes(b.subrange(0, 8)) as int;
        seq![decode_utf8(b.subrange(8, 8 + l))] + entry_texts(
            b.subrange(24 + l, b.len() as int),
            (n - 1) as nat,
        )
    }
}

/// Pairwise distinct character sequences.
pub open spec fn distinct_seqs(s: Seq<Seq<char>>) -> bool {
    forall|i: int, j: int| 0 <= i < j < s.len() ==> s[i] != s[j]
}

/// Whether `b` is a well-formed store snapshot: the version tag, a
/// pattern count, that many well-formed patterns with pairwise distinct
/// texts, and nothing after them.
pub open spec fn valid_store_bytes(b: Seq<u8>) -> bool {
    &&& b.len() >= 12
    &&& spec_u32_from_le_bytes(b.subrange(0, 4)) == STORE_VERSION
    &&& {
        let n = spec_u64_from_le_bytes(b.subrange(4, 12)) as nat;
        &&& valid_entries(b.subrange(12, b.len() as int), n)
        &&& distinct_seqs(entry_texts(b.subrange(12, b.len() as int), n))
    }
}

/// The texts of the patterns, in order.
pub open spec fn texts_of(s: Seq<LearnedPattern>) -> Seq<Seq<char>> {
    s.map_values(|p: LearnedPattern| p.text@)
}

impl UserLearningSystem {
    /// The store in its persisted byte form.
    #[verifier::loop_isolation(false)]
    pub fn to_bytes(&self) -> (r: Vec<u8>)
        ensures
            r@ == encode_store(self.patterns@),
    {
        let mut out = u32_to_le_bytes(STORE_VERSION);
        let mut nb = u64_to_le_bytes(self.patterns.len() as u64);
        out.append(&mut nb);
        let ghost header = spec_u32_to_le_bytes(STORE_VERSION) + spec_u64_to_le_bytes(
            self.patterns@.len() as u64,
        );
        proof {
            assert(out@ =~= header + encode_list(self.patterns@.subrange(0, 0)));
        }
        let mut i: usize = 0;
        while i < self.patterns.len()
            invariant
                0 <= i <= self.patterns@.len(),
                out@ == header + encode_list(self.patterns@.subrange(0, i as int)),
            decreases self.patterns@.len() - i,
        {
            let tb = self.patterns[i].text.as_str().as_bytes();
            let mut lb = u64_to_le_bytes(tb.len() as u64);
            out.append(&mut lb);
            out.extend_from_slice(tb);
            let mut cb = u64_to_le_bytes(self.patterns[i].count);
            out.append(&mut cb);
            let mut ub = u64_to_le_bytes(self.patterns[i].last_used);
            out.append(&mut ub);
            proof {
                let p = self.patterns@[i as int];
                let prev = self.patterns@.subrange(0, i as int);
                let next = self.patterns@.subrange(0, i + 1);
                assert(next =~= prev.push(p));
                lemma_encode_list_push(prev, p);
                assert(tb@ == encode_utf8(p.text@));
                assert(out@ =~= header + encode_list(next));
            }
            i = i + 1;
        }
        proof {
            assert(self.patterns@.subrange(0, self.patterns@.len() as int) =~= self.patterns@);
            assert(out@ =~= encode_store(self.patterns@));
        }
        out
    }

    /// The store encoded in `bytes`, when they are a well-formed
    /// snapshot; any malformed input is rejected, so a caller treats it
    /// as an empty store.
    #[verifier::loop_isolation(false)]
    pub fn from_bytes(bytes: &[u8]) -> (r: Option<UserLearningSystem>)
        ensures
            (r is Some) == valid_store_bytes(bytes@),
            r matches Some(sys) ==> sys.wf() && sys.modification_count == 0 && encode_store(
                sys.patterns@,
            ) == bytes@,
    {
        proof {
            lemma_auto_spec_u32_to_from_le_bytes();
            lemma_auto_spec_u64_to_from_le_bytes();
        }
        if bytes.len() < 12 {
            return None;
        }
        let version = u32_from_le_bytes(&bytes[0..4]);
        proof {
            assert(bytes@.subrange(0, 4) == spec_u32_to_le_bytes(version));
        }
        if version != STORE_VERSION {
            return None;
        }
        let n = u64_from_le_bytes(&bytes[4..12]);
        let ghost entries_bytes = bytes@.subrange(12, bytes@.len() as int);
        let mut out: Vec<LearnedPattern> = Vec::new();
        let mut pos: usize = 12;
        let mut k: u64 = 0;
        while k < n
            invariant
                12 <= pos <= bytes@.len(),
                0 <= k <= n,
                out@.len() == k,
                unique_texts(out@),
                bounded_texts(out@),
                bytes@.subrange(12, pos as int) == encode_list(out@),
                valid_entries(entries_bytes, n as nat) == valid_entries(
                    bytes@.subrange(pos as int, bytes@.len() as int),
                    (n - k) as nat,
                ),
                entry_texts(entries_bytes, n as nat) == texts_of(out@) + entry_texts(
                    bytes@.subrange(pos as int, bytes@.len() as int),
                    (n - k) as nat,
                ),
            decreases n - k,
        {
            let ghost remaining = bytes@.subrange(pos as int, bytes@.len() as int);
            let rem = bytes.len() - pos;
            if rem < 8 {
                proof {
                    assert(!valid_entries(remaining, (n - k) as nat));
                }
                return None;
            }
            let l64 = u64_from_le_bytes(&bytes[pos..pos + 8]);
            proof {
                assert(remaining.subrange(0, 8) =~= bytes@.subrange(pos as int, pos + 8));
                assert(spec_u64_from_le_bytes(remaining.subrange(0, 8)) == l64);
            }
            if l64 > (rem - 8) as u64 {
                proof {
                    assert(!valid_entries(remaining, (n - k) as nat));
                }
                return None;
            }
            let l = l64 as usize;
            if rem - 8 - l < 16 {
                proof {
                    assert(!valid_entries(remaining, (n - k) as nat));
                }
                return None;
            }
            let tv = vstd::slice::slice_to_vec(&bytes[pos + 8..pos + 8 + l]);
            proof {
                assert(tv@ =~= remaining.subrange(8, 8 + l64 as int));
            }
            let t = match text::string_from_utf8(tv) {
                None => {
                    proof {
                        assert(!valid_entries(remaining, (n - k) as nat));
                    }
                    return None;
                },
                Some(t) => t,
            };
            let count = u64_from_le_bytes(&bytes[pos + 8 + l..pos + 16 + l]);
            let last_used = u64_from_le_bytes(&bytes[pos + 16 + l..pos + 24 + l]);
            proof {
                encode_utf8_decode_utf8(t@);
                assert(decode_utf8(remaining.subrange(8, 8 + l64 as int)) == t@);
            }
            match find_pattern_index(&out, t.as_str()) {
                Some(j) => {
                    proof {
                        let texts = entry_texts(entries_bytes, n as nat);
                        assert(texts =~= texts_of(out@) + entry_texts(remaining, (n - k) as nat));
                        assert(entry_texts(remaining, (n - k) as nat).first() == t@);
                        assert(texts[j as int] == out@[j as int].text@);
                        assert(texts[k as int] == t@);
                        assert(!distinct_seqs(texts));
                    }
                    return None;
                },
                None => {},
            }
            let ghost prev_out = out@;
            let e = LearnedPattern { text: t, count, last_used };
            let ghost ev = e;
            out.push(e);
            pos = pos + 24 + l;
            k = k + 1;
            proof {
                let l_int = l64 as int;
                let remaining2 = bytes@.subrange(pos as int, bytes@.len() as int);
                assert(remaining.subrange(24 + l_int, remaining.len() as int) =~= remaining2);
                assert(out@ =~= prev_out.push(ev));
                assert(unique_texts(out@)) by {
                    assert(forall|a: int|
                        0 <= a < prev_out.len() ==> #[trigger] out@[a] == prev_out[a]);
                    assert(!has_pattern(prev_out, ev.text@));
                }
                assert(bounded_texts(out@)) by {
                    assert(forall|a: int|
                        0 <= a < prev_out.len() ==> #[trigger] out@[a] == prev_out[a]);
                    assert(encode_utf8(ev.text@).len() == l64);
                }
                lemma_encode_list_push(prev_out, ev);
                assert(encode_entry(ev) =~= bytes@.subrange(pos - 24 - l_int, pos as int)) by {
                    assert(encode_utf8(ev.text@) == remaining.subrange(8, 8 + l_int));
                    assert(spec_u64_to_le_bytes(encode_utf8(ev.text@).len() as u64)
                        == remaining.subrange(0, 8));
                    assert(spec_u64_to_le_bytes(ev.count) =~= remaining.subrange(
                        8 + l_int,
                        16 + l_int,
                    ));
                    assert(spec_u64_to_le_bytes(ev.last_used) =~= remaining.subrange(
                        16 + l_int,
                        24 + l_int,
                    ));
                    assert(bytes@.subrange(pos - 24 - l_int, pos as int) =~= remaining.subrange(
                        0,
                        24 + l_int,
                    ));
                    assert(remaining.subrange(0, 24 + l_int) =~= remaining.subrange(0, 8)
                        + remaining.subrange(8, 8 + l_int) + remaining.subrange(
                        8 + l_int,
                        16 + l_int,
                    ) + remaining.subrange(16 + l_int, 24 + l_int));
                }
                assert(bytes@.subrange(12, pos as int) =~= encode_list(prev_out) + encode_entry(
                    ev,
                ));
                assert(valid_entries(remaining, (n - k + 1) as nat) == valid_entries(
                    remaining2,
                    (n - k) as nat,
                ));
                assert(entry_texts(remaining, (n - k + 1) as nat) =~= seq![ev.text@]
                    + entry_texts(remaining2, (n - k) as nat));
                assert(texts_of(out@) =~= texts_of(prev_out).push(ev.text@));
                assert(entry_texts(entries_bytes, n as nat) =~= texts_of(out@) + entry_texts(
                    remaining2,
                    (n - k) as nat,
                ));
            }
        }
        if pos != bytes.len() {
            proof {
                let remaining = bytes@.subrange(pos as int, bytes@.len() as int);
                assert(remaining.len() > 0);
                assert(!valid_entries(remaining, 0));
            }
            return None;
        }
        proof {
            let remaining = bytes@.subrange(pos as int, bytes@.len() as int);
            assert(remaining.len() == 0);
            assert(valid_entries(remaining, 0));
            assert(valid_entries(entries_bytes, n as nat));
            assert(entry_texts(entries_bytes, n as nat) =~= texts_of(out@));
            assert(distinct_seqs(texts_of(out@)));
            assert(valid_store_bytes(bytes@));
            assert(bytes@.subrange(4, 12) == spec_u64_to_le_bytes(n));
            assert(bytes@ =~= encode_store(out@));
        }
        Some(UserLearningSystem { patterns: out, modification_count: 0 })
    }
}

/// Whether every text's encoding length fits an unsigned 64-bit count;
/// true of every store a machine can hold.
pub open spec fn bounded_texts(s: Seq<LearnedPattern>) -> bool {
    forall|i: int| 0 <= i < s.len() ==> #[trigger] encode_utf8(s[i].text@).len() <= u64::MAX
}

/// The pieces of one encoded pattern, by offset.
proof fn lemma_entry_shape(p: LearnedPattern)
    requires
        encode_utf8(p.text@).len() <= u64::MAX,
    ensures
        encode_entry(p).len() == 24 + encode_utf8(p.text@).len(),
        spec_u64_from_le_bytes(encode_entry(p).subrange(0, 8)) == encode_utf8(p.text@).len(),
        encode_entry(p).subrange(8, 8 + encode_utf8(p.text@).len() as int) == encode_utf8(p.text@),
        encode_entry(p).subrange(
            8 + encode_utf8(p.text@).len() as int,
            16 + encode_utf8(p.text@).len() as int,
        ) == spec_u64_to_le_bytes(p.count),
        encode_entry(p).subrange(
            16 + encode_utf8(p.text@).len() as int,
            24 + encode_utf8(p.text@).len() as int,
        ) == spec_u64_to_le_bytes(p.last_used),
{
    lemma_auto_spec_u64_to_from_le_bytes();
    let tb = encode_utf8(p.text@);
    let l = tb.len() as int;
    let e = encode_entry(p);
    assert(e.len() == 24 + l);
    assert(e.subrange(0, 8) =~= spec_u64_to_le_bytes(tb.len() as u64));
    assert(spec_u64_from_le_bytes(spec_u64_to_le_bytes(tb.len() as u64)) == tb.len() as u64);
    assert(e.subrange(8, 8 + l) =~= tb);
    assert(e.subrange(8 + l, 16 + l) =~= spec_u64_to_le_bytes(p.count));
    assert(e.subrange(16 + l, 24 + l) =~= spec_u64_to_le_bytes(p.last_used));
}

/// Appending a pattern appends its encoding.
proof fn lemma_encode_list_push(s: Seq<LearnedPattern>, p: LearnedPattern)
    ensures
        encode_list(s.push(p)) == encode_list(s) + encode_entry(p),
    decreases s.len(),
{
    if s.len() == 0 {
        assert(s.push(p).first() == p);
        assert(s.push(p).drop_first() =~= s);
        assert(encode_list(s) =~= Seq::<u8>::empty());
        assert(encode_list(s.push(p)) =~= encode_list(s) + encode_entry(p));
    } else {
        assert(s.push(p).first() == s.first());
        assert(s.push(p).drop_first() =~= s.drop_first().push(p));
        lemma_encode_list_push(s.drop_first(), p);
        assert(encode_list(s.push(p)) =~= encode_list(s) + encode_entry(p));
    }
}

/// The encoding of a list of patterns is well formed, and its decoded
/// texts are the patterns' own.
proof fn lemma_encode_list_valid(s: Seq<LearnedPattern>)
    requires
        bounded_texts(s),
    ensures
        valid_entries(encode_list(s), s.len()),
        entry_texts(encode_list(s), s.len()) == texts_of(s),
    decreases s.len(),
{
    if s.len() == 0 {
        assert(entry_texts(encode_list(s), 0) =~= texts_of(s));
    } else {
        assert(bounded_texts(s.drop_first())) by {
            assert(forall|i: int|
                0 <= i < s.drop_first().len() ==> s.drop_first()[i] == #[trigger] s[i + 1]);
        }
        lemma_encode_list_valid(s.drop_first());
        let p = s.first();
        let b = encode_list(s);
        let e = encode_entry(p);
        let tb = encode_utf8(p.text@);
        let l = tb.len() as int;
        lemma_entry_shape(p);
        encode_utf8_valid_utf8(p.text@);
        encode_utf8_decode_utf8(p.text@);
        assert(b == e + encode_list(s.drop_first()));
        assert(b.subrange(0, 8) =~= e.subrange(0, 8));
        assert(spec_u64_from_le_bytes(b.subrange(0, 8)) == l);
        assert(b.subrange(8, 8 + l) =~= e.subrange(8, 8 + l));
        assert(b.subrange(24 + l, b.len() as int) =~= encode_list(s.drop_first()));
        assert(valid_entries(b, s.len()));
        assert(entry_texts(b, s.len()) =~= texts_of(s)) by {
            assert(decode_utf8(b.subrange(8, 8 + l)) == p.text@);
            assert(entry_texts(encode_list(s.drop_first()), s.drop_first().len()) == texts_of(
                s.drop_first(),
            ));
            assert(texts_of(s) =~= seq![p.text@] + texts_of(s.drop_first()));
        }
    }
}

/// A snapshot written by `to_bytes` always loads again.
///
/// Law: saving a well-formed store and loading the bytes back cannot
/// fail; together with [`lemma_store_encoding_injective`] the loaded
/// store holds the same patterns.
pub proof fn lemma_store_encoding_valid(s: Seq<LearnedPattern>)
    requires
        unique_texts(s),
        bounded_texts(s),
        s.len() <= u64::MAX,
    ensures
        valid_store_bytes(encode_store(s)),
{
    lemma_auto_spec_u32_to_from_le_bytes();
    lemma_auto_spec_u64_to_from_le_bytes();
    let b = encode_store(s);
    assert(b.subrange(0, 4) =~= spec_u32_to_le_bytes(STORE_VERSION));
    assert(b.subrange(4, 12) =~= spec_u64_to_le_bytes(s.len() as u64));
    assert(spec_u64_from_le_bytes(b.subrange(4, 12)) == s.len());
    assert(b.subrange(12, b.len() as int) =~= encode_list(s));
    lemma_encode_list_valid(s);
    assert(distinct_seqs(texts_of(s)));
}

/// The encoding determines the store: two pattern lists with the same
/// bytes agree in length and, entry for entry, in text, count and
/// last-used stamp.
///
/// Law: the persisted blob round-trips the whole map of learned
/// patterns; nothing is lost or altered by a save-and-load cycle.
pub proof fn lemma_store_encoding_injective(a: Seq<LearnedPattern>, b: Seq<LearnedPattern>)
    requires
        encode_store(a) == encode_store(b),
        bounded_texts(a),
        bounded_texts(b),
        a.len() <= u64::MAX,
        b.len() <= u64::MAX,
    ensures
        a.len() == b.len(),
        forall|i: int|
            0 <= i < a.len() ==> #[trigger] a[i].text@ == b[i].text@ && a[i].count == b[i].count
                && a[i].last_used == b[i].last_used,
{
    lemma_auto_spec_u32_to_from_le_bytes();
    lemma_auto_spec_u64_to_from_le_bytes();
    let ea = encode_store(a);
    let eb = encode_store(b);
    assert(ea.subrange(4, 12) =~= spec_u64_to_le_bytes(a.len() as u64));
    assert(eb.subrange(4, 12) =~= spec_u64_to_le_bytes(b.len() as u64));
    assert(spec_u64_from_le_bytes(ea.subrange(4, 12)) == a.len());
    assert(spec_u64_from_le_bytes(eb.subrange(4, 12)) == b.len());
    assert(ea.subrange(12, ea.len() as int) =~= encode_list(a));
    assert(eb.subrange(12, eb.len() as int) =~= encode_list(b));
    lemma_encode_list_injective(a, b);
}

/// The entry encoding determines each entry.
proof fn lemma_encode_list_injective(a: Seq<LearnedPattern>, b: Seq<LearnedPattern>)
    requires
        a.len() == b.len(),
        encode_list(a) == encode_list(b),
        bounded_texts(a),
        bounded_texts(b),
    ensures
        forall|i: int|
            0 <= i < a.len() ==> #[trigger] a[i].text@ == b[i].text@ && a[i].count == b[i].count
                && a[i].last_used == b[i].last_used,
    decreases a.len(),
{
    lemma_auto_spec_u64_to_from_le_bytes();
    if a.len() == 0 {
    } else {
        let ea = encode_list(a);
        let pa = a.first();
        let pb = b.first();
        let ta = encode_utf8(pa.text@);
        let tb = encode_utf8(pb.text@);
        lemma_entry_shape(pa);
        lemma_entry_shape(pb);
        assert(ea == encode_entry(pa) + encode_list(a.drop_first()));
        assert(ea == encode_entry(pb) + encode_list(b.drop_first()));
        assert(ea.subrange(0, 8) =~= encode_entry(pa).subrange(0, 8));
        assert(ea.subrange(0, 8) =~= encode_entry(pb).subrange(0, 8));
        assert(ta.len() == tb.len());
        let l = ta.len() as int;
        assert(ea.subrange(8, 8 + l) =~= encode_entry(pa).subrange(8, 8 + l));
        assert(ea.subrange(8, 8 + l) =~= encode_entry(pb).subrange(8, 8 + l));
        text::lemma_encode_utf8_injective(pa.text@, pb.text@);
        assert(ea.subrange(8 + l, 16 + l) =~= encode_entry(pa).subrange(8 + l, 16 + l));
        assert(ea.subrange(8 + l, 16 + l) =~= encode_entry(pb).subrange(8 + l, 16 + l));
        assert(spec_u64_from_le_bytes(spec_u64_to_le_bytes(pa.count)) == pa.count);
        assert(spec_u64_from_le_bytes(spec_u64_to_le_bytes(pb.count)) == pb.count);
        assert(pa.count == pb.count);
        assert(ea.subrange(16 + l, 24 + l) =~= encode_entry(pa).subrange(16 + l, 24 + l));
        assert(ea.subrange(16 + l, 24 + l) =~= encode_entry(pb).subrange(16 + l, 24 + l));
        assert(pa.last_used == pb.last_used);
        assert(ea.subrange(24 + l, ea.len() as int) =~= encode_list(a.drop_first()));
        assert(ea.subrange(24 + l, ea.len() as int) =~= encode_list(b.drop_first()));
        assert(bounded_texts(a.drop_first()) && bounded_texts(b.drop_first())) by {
            assert(forall|i: int|
                0 <= i < a.drop_first().len() ==> a.drop_first()[i] == #[trigger] a[i + 1]);
            assert(forall|i: int|
                0 <= i < b.drop_first().len() ==> b.drop_first()[i] == #[trigger] b[i + 1]);
        }
        lemma_encode_list_injective(a.drop_first(), b.drop_first());
        assert forall|i: int|
            0 <= i < a.len() implies #[trigger] a[i].text@ == b[i].text@ && a[i].count
            == b[i].count && a[i].last_used == b[i].last_used by {
            if i > 0 {
                assert(a[i] == a.drop_first()[i - 1]);
                assert(b[i] == b.drop_first()[i - 1]);
            }
        }
    }
}

/// The index of the pattern carrying the text `t`, if any.
fn find_pattern_index(patterns: &Vec<LearnedPattern>, t: &str) -> (r: Option<usize>)
    ensures
        (r matches Some(j) ==> 0 <= j < patterns@.len() && patterns@[j as int].text@ == t@),
        r is None ==> !has_pattern(patterns@, t@),
{
    let mut i: usize = 0;
    while i < patterns.len()
        invariant
            0 <= i <= patterns@.len(),
            forall|j: int| 0 <= j < i ==> #[trigger] patterns@[j].text@ != t@,
        decreases patterns@.len() - i,
    {
        if text::str_eq(patterns[i].text.as_str(), t) {
            return Some(i);
        }
        i = i + 1;
    }
    None
}

} // verus!
