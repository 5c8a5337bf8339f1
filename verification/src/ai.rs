//! Handling of AI provider responses.
//!
//! A model asked for command completions answers free-form text that
//! should contain a JSON array of strings. Extracting the suggestions —
//! the array when one parses, bulleted or plain lines otherwise — is
//! proved here; the network call that produces the response is the
//! embedding application's part.

use vstd::prelude::*;
use vstd::string::*;
use vstd::utf8::*;
use crate::context::{spec_lines, spec_trimmed};
use crate::text;

verus! {

/// What `serde_json::from_str` parses a text into when it is read as a
/// JSON array of strings: the strings in order, or nothing when the
/// text is no such array.
pub uninterp spec fn json_string_array(s: Seq<char>) -> Option<Seq<Seq<char>>>;

/// Relies on `serde_json::from_str::<Vec<String>>`: its result is a
/// function of the input text alone — the strings of a JSON string
/// array, an error otherwise.
#[verifier::external_body]
fn parse_json_string_array(s: &str) -> (r: Option<Vec<String>>)
    ensures
        r.deep_view() == json_string_array(s@),
{
    serde_json::from_str::<Vec<String>>(s).ok()
}

/// The offset of the first `[`, or the length when there is none.
pub open spec fn first_lbracket(b: Seq<u8>) -> nat
    decreases b.len(),
{
    if b.len() == 0 {
        0
    } else if b.first() == 91 {
        0
    } else {
        1 + first_lbracket(b.drop_first())
    }
}

proof fn lemma_first_lbracket(b: Seq<u8>)
    ensures
        first_lbracket(b) <= b.len(),
        forall|i: int| 0 <= i < first_lbracket(b) ==> b[i] != 91,
        first_lbracket(b) < b.len() ==> b[first_lbracket(b) as int] == 91,
    decreases b.len(),
{
    if b.len() > 0 && b.first() != 91 {
        lemma_first_lbracket(b.drop_first());
        assert forall|i: int| 0 <= i < first_lbracket(b) implies b[i] != 91 by {
            if i > 0 {
                assert(b.drop_first()[i - 1] == b[i]);
                assert(b.drop_first()[i - 1] != 91);
            }
        }
        if first_lbracket(b) < b.len() {
            assert(b[first_lbracket(b) as int] == b.drop_first()[first_lbracket(b) - 1]);
        }
    }
}

/// The offset of the last `]`, or the length when there is none.
pub open spec fn last_rbracket(b: Seq<u8>) -> nat
    decreases b.len(),
{
    if b.len() == 0 {
        0
    } else if b.last() == 93 {
        (b.len() - 1) as nat
    } else if last_rbracket(b.drop_last()) == b.drop_last().len() {
        b.len() as nat
    } else {
        last_rbracket(b.drop_last())
    }
}

proof fn lemma_last_rbracket(b: Seq<u8>)
    ensures
        last_rbracket(b) <= b.len(),
        forall|i: int| last_rbracket(b) < i < b.len() ==> b[i] != 93,
        last_rbracket(b) < b.len() ==> b[last_rbracket(b) as int] == 93,
        last_rbracket(b) == b.len() ==> forall|i: int| 0 <= i < b.len() ==> b[i] != 93,
    decreases b.len(),
{
    if b.len() > 0 && b.last() != 93 {
        lemma_last_rbracket(b.drop_last());
        assert(forall|i: int| 0 <= i < b.drop_last().len() ==> b.drop_last()[i] == #[trigger] b[i]);
    }
}

/// The item on one bulleted line: the bytes after a leading `- ` or
/// `* `, trimmed; nothing for other lines.
pub open spec fn bullet_of(line: Seq<u8>) -> Option<Seq<u8>> {
    if line.len() >= 2 && (line[0] == 45 || line[0] == 42) && line[1] == 32 {
        Some(spec_trimmed(line.subrange(2, line.len() as int)))
    } else {
        None
    }
}

/// The items of all bulleted lines whose bytes decode as text.
pub open spec fn bullet_list(lines: Seq<Seq<u8>>) -> Seq<Seq<u8>>
    decreases lines.len(),
{
    if lines.len() == 0 {
        Seq::<Seq<u8>>::empty()
    } else {
        let rest = bullet_list(lines.drop_first());
        match bullet_of(lines.first()) {
            Some(s) => {
                if valid_utf8(s) {
                    seq![s] + rest
                } else {
                    rest
                }
            },
            None => rest,
        }
    }
}

/// Every non-blank line, trimmed, whose bytes decode as text.
pub open spec fn nonblank_list(lines: Seq<Seq<u8>>) -> Seq<Seq<u8>>
    decreases lines.len(),
{
    if lines.len() == 0 {
        Seq::<Seq<u8>>::empty()
    } else {
        let rest = nonblank_list(lines.drop_first());
        let t = spec_trimmed(lines.first());
        if t.len() > 0 && valid_utf8(t) {
            seq![t] + rest
        } else {
            rest
        }
    }
}

/// One cached AI answer.
pub struct AiCacheEntry {
    /// The prompt that produced it
    pub key: String,
    /// The model's answer
    pub value: String,
    /// Insertion instant, seconds
    pub timestamp: u64,
}

/// All keys pairwise distinct.
pub open spec fn ai_unique_keys(s: Seq<AiCacheEntry>) -> bool {
    forall|i: int, j: int|
        0 <= i < j < s.len() ==> #[trigger] s[i].key@ != #[trigger] s[j].key@
}

/// Whether some entry carries the key `k`.
pub open spec fn ai_has_key(s: Seq<AiCacheEntry>, k: Seq<char>) -> bool {
    exists|i: int| 0 <= i < s.len() && #[trigger] s[i].key@ == k
}

/// Whether the entry is younger than the time-to-live at instant `now`.
pub open spec fn ai_entry_live(e: AiCacheEntry, now: u64, ttl_secs: u64) -> bool {
    crate::models::spec_elapsed(e.timestamp, now) < ttl_secs
}

/// Whether some entry carries the key `k` and is still live.
pub open spec fn ai_has_live_key(s: Seq<AiCacheEntry>, k: Seq<char>, now: u64, ttl_secs: u64) -> bool {
    exists|i: int|
        0 <= i < s.len() && #[trigger] s[i].key@ == k && ai_entry_live(s[i], now, ttl_secs)
}

/// The entries that are still live at instant `now`.
pub open spec fn ai_retain_live(s: Seq<AiCacheEntry>, now: u64, ttl_secs: u64) -> Seq<AiCacheEntry>
    decreases s.len(),
{
    if s.len() == 0 {
        Seq::<AiCacheEntry>::empty()
    } else {
        let prefix = ai_retain_live(s.drop_last(), now, ttl_secs);
        if ai_entry_live(s.last(), now, ttl_secs) {
            prefix.push(s.last())
        } else {
            prefix
        }
    }
}

/// The first index holding the minimal timestamp.
pub open spec fn ai_min_ts_index(s: Seq<AiCacheEntry>) -> int
    recommends
        s.len() > 0,
    decreases s.len(),
{
    if s.len() <= 1 {
        0
    } else {
        let m = ai_min_ts_index(s.drop_last());
        if s.last().timestamp < s[m].timestamp {
            s.len() - 1
        } else {
            m
        }
    }
}

/// What an insertion does to a full answer cache: expired entries go
/// first; if still at capacity, the single oldest entry goes.
pub open spec fn ai_cleanup_model(
    s: Seq<AiCacheEntry>,
    now: u64,
    ttl_secs: u64,
    max_entries: usize,
) -> Seq<AiCacheEntry> {
    let live = ai_retain_live(s, now, ttl_secs);
    if live.len() >= max_entries && live.len() > 0 {
        live.remove(ai_min_ts_index(live))
    } else {
        live
    }
}

/// What `set` leaves behind: eviction when full, then the entry for
/// `key` replaced or appended, stamped `now`.
pub open spec fn ai_set_post(
    s: Seq<AiCacheEntry>,
    key: Seq<char>,
    value: String,
    now: u64,
    ttl_secs: u64,
    max_entries: usize,
    r: Seq<AiCacheEntry>,
) -> bool {
    let base = if s.len() >= max_entries {
        ai_cleanup_model(s, now, ttl_secs, max_entries)
    } else {
        s
    };
    if ai_has_key(base, key) {
        &&& r.len() == base.len()
        &&& (forall|l: int|
            0 <= l < base.len() && #[trigger] base[l].key@ != key ==> #[trigger] r[l] == base[l])
        &&& (forall|l: int|
            0 <= l < base.len() && #[trigger] base[l].key@ == key ==> r[l].key@ == key
                && r[l].value == value && r[l].timestamp == now)
    } else {
        &&& r.len() == base.len() + 1
        &&& r.subrange(0, base.len() as int) == base
        &&& r.last().key@ == key
        &&& r.last().value == value
        &&& r.last().timestamp == now
    }
}

/// Removing one index keeps the keys pairwise distinct.
proof fn lemma_ai_remove_unique(s: Seq<AiCacheEntry>, i: int)
    requires
        ai_unique_keys(s),
        0 <= i < s.len(),
    ensures
        ai_unique_keys(s.remove(i)),
{
    let r = s.remove(i);
    assert forall|a: int, b: int| 0 <= a < b < r.len() implies #[trigger] r[a].key@
        != #[trigger] r[b].key@ by {
        let a0 = if a < i {
            a
        } else {
            a + 1
        };
        let b0 = if b < i {
            b
        } else {
            b + 1
        };
        assert(r[a] == s[a0]);
        assert(r[b] == s[b0]);
    }
}

/// Filtering keeps the keys pairwise distinct.
proof fn lemma_ai_retain_live_unique(s: Seq<AiCacheEntry>, now: u64, ttl_secs: u64)
    requires
        ai_unique_keys(s),
    ensures
        ai_unique_keys(ai_retain_live(s, now, ttl_secs)),
        forall|k: Seq<char>|
            #[trigger] ai_has_key(ai_retain_live(s, now, ttl_secs), k) ==> ai_has_key(s, k),
    decreases s.len(),
{
    if s.len() == 0 {
    } else {
        assert(ai_unique_keys(s.drop_last())) by {
            assert(forall|i: int|
                0 <= i < s.drop_last().len() ==> s.drop_last()[i] == #[trigger] s[i]);
        }
        lemma_ai_retain_live_unique(s.drop_last(), now, ttl_secs);
        let prefix = ai_retain_live(s.drop_last(), now, ttl_secs);
        let r = ai_retain_live(s, now, ttl_secs);
        assert forall|k: Seq<char>| #[trigger] ai_has_key(r, k) implies ai_has_key(s, k) by {
            let i = choose|i: int| 0 <= i < r.len() && #[trigger] r[i].key@ == k;
            if ai_entry_live(s.last(), now, ttl_secs) && i == r.len() - 1 {
                assert(s[s.len() - 1].key@ == k);
            } else {
                assert(prefix[i].key@ == k);
                assert(ai_has_key(prefix, k));
                assert(ai_has_key(s.drop_last(), k));
                let j = choose|j: int|
                    0 <= j < s.drop_last().len() && #[trigger] s.drop_last()[j].key@ == k;
                assert(s[j].key@ == k);
            }
        }
        if ai_entry_live(s.last(), now, ttl_secs) {
            assert forall|a: int, b: int| 0 <= a < b < r.len() implies #[trigger] r[a].key@
                != #[trigger] r[b].key@ by {
                if b == r.len() - 1 {
                    assert(r[a] == prefix[a]);
                    assert(ai_has_key(prefix, r[a].key@));
                    assert(ai_has_key(s.drop_last(), r[a].key@));
                    let j = choose|j: int|
                        0 <= j < s.drop_last().len() && #[trigger] s.drop_last()[j].key@
                            == r[a].key@;
                    assert(s[j].key@ == r[a].key@);
                    assert(s[j].key@ != s[s.len() - 1].key@);
                } else {
                    assert(r[a] == prefix[a] && r[b] == prefix[b]);
                }
            }
        }
    }
}

proof fn lemma_ai_min_ts_index_bounds(s: Seq<AiCacheEntry>)
    requires
        s.len() > 0,
    ensures
        0 <= ai_min_ts_index(s) < s.len(),
    decreases s.len(),
{
    if s.len() > 1 {
        lemma_ai_min_ts_index_bounds(s.drop_last());
    }
}

/// A time-bounded, capacity-bounded cache from prompt to answer.
pub struct AiCache {
    /// The cached answers, keys pairwise distinct
    pub entries: Vec<AiCacheEntry>,
    /// Capacity; one insertion into a full cache evicts
    pub max_entries: usize,
    /// Time-to-live of an entry, seconds
    pub ttl_secs: u64,
}

impl AiCache {
    /// The cache invariant: keys are pairwise distinct.
    pub open spec fn wf(self) -> bool {
        ai_unique_keys(self.entries@)
    }

    /// An empty cache.
    pub fn new(max_entries: usize, ttl_seconds: u64) -> (r: Self)
        ensures
            r.wf(),
            r.entries@.len() == 0,
            r.max_entries == max_entries,
            r.ttl_secs == ttl_seconds,
    {
        AiCache { entries: Vec::new(), max_entries, ttl_secs: ttl_seconds }
    }

    /// The cached answer for `key` if it exists and has not expired.
    #[verifier::loop_isolation(false)]
    pub fn get(&self, key: &str, now_secs: u64) -> (r: Option<String>)
        requires
            self.wf(),
        ensures
            (r is Some) == ai_has_live_key(self.entries@, key@, now_secs, self.ttl_secs),
            r matches Some(v) ==> forall|i: int|
                0 <= i < self.entries@.len() && #[trigger] self.entries@[i].key@ == key@ ==> v@
                    == self.entries@[i].value@,
    {
        let mut i: usize = 0;
        while i < self.entries.len()
            invariant
                0 <= i <= self.entries@.len(),
                forall|j: int| 0 <= j < i ==> #[trigger] self.entries@[j].key@ != key@,
            decreases self.entries@.len() - i,
        {
            if text::str_eq(self.entries[i].key.as_str(), key) {
                let e = &self.entries[i];
                let live = if now_secs >= e.timestamp {
                    now_secs - e.timestamp < self.ttl_secs
                } else {
                    0 < self.ttl_secs
                };
                if live {
                    return Some(e.value.clone());
                } else {
                    proof {
                        assert(forall|j: int|
                            0 <= j < self.entries@.len() && #[trigger] self.entries@[j].key@
                                == key@ ==> j == i);
                    }
                    return None;
                }
            }
            i = i + 1;
        }
        None
    }

    /// Stores `value` under `key` at instant `now_secs`; a full cache
    /// first drops its expired entries and then, if still full, its
    /// single oldest one.
    #[verifier::loop_isolation(false)]
    pub fn set(&mut self, key: &str, value: String, now_secs: u64)
        requires
            old(self).wf(),
        ensures
            final(self).wf(),
            final(self).max_entries == old(self).max_entries,
            final(self).ttl_secs == old(self).ttl_secs,
            ai_set_post(
                old(self).entries@,
                key@,
                value,
                now_secs,
                old(self).ttl_secs,
                old(self).max_entries,
                final(self).entries@,
            ),
    {
        let ghost orig = self.entries@;
        let ghost vv = value;
        if self.entries.len() >= self.max_entries {
            // phase one: drop expired entries
            let mut live: Vec<AiCacheEntry> = Vec::new();
            let ghost mut done: int = 0;
            while self.entries.len() > 0
                invariant
                    0 <= done <= orig.len(),
                    self.entries@ =~= orig.subrange(done, orig.len() as int),
                    live@ == ai_retain_live(orig.subrange(0, done), now_secs, self.ttl_secs),
                    self.ttl_secs == old(self).ttl_secs,
                    self.max_entries == old(self).max_entries,
                decreases self.entries@.len(),
            {
                let e = self.entries.remove(0);
                proof {
                    assert(e == orig[done]);
                    let prev = orig.subrange(0, done);
                    let next = orig.subrange(0, done + 1);
                    assert(next.drop_last() =~= prev);
                    assert(next.last() == orig[done]);
                }
                let keep = if now_secs >= e.timestamp {
                    now_secs - e.timestamp < self.ttl_secs
                } else {
                    0 < self.ttl_secs
                };
                if keep {
                    live.push(e);
                }
                proof {
                    done = done + 1;
                    assert(self.entries@ =~= orig.subrange(done, orig.len() as int));
                }
            }
            proof {
                assert(orig.subrange(0, orig.len() as int) =~= orig);
                lemma_ai_retain_live_unique(orig, now_secs, self.ttl_secs);
            }
            // phase two: if still full, drop the single oldest entry
            if live.len() >= self.max_entries && live.len() > 0 {
                let ghost before = live@;
                let mut idx: usize = 0;
                let mut m: usize = 1;
                while m < live.len()
                    invariant
                        0 <= idx < m <= live@.len(),
                        live@.len() > 0,
                        idx == ai_min_ts_index(live@.subrange(0, m as int)),
                        live@ == before,
                    decreases live@.len() - m,
                {
                    proof {
                        let prev = live@.subrange(0, m as int);
                        let next = live@.subrange(0, m + 1);
                        assert(next.drop_last() =~= prev);
                        assert(next.last() == live@[m as int]);
                        lemma_ai_min_ts_index_bounds(prev);
                    }
                    if live[m].timestamp < live[idx].timestamp {
                        idx = m;
                    }
                    m = m + 1;
                }
                proof {
                    assert(live@.subrange(0, live@.len() as int) =~= live@);
                    lemma_ai_min_ts_index_bounds(live@);
                    lemma_ai_remove_unique(live@, ai_min_ts_index(live@));
                }
                live.remove(idx);
            }
            self.entries = live;
            proof {
                assert(self.entries@ == ai_cleanup_model(
                    orig,
                    now_secs,
                    self.ttl_secs,
                    self.max_entries,
                ));
            }
        }
        let ghost base = self.entries@;
        proof {
            assert(ai_unique_keys(base));
        }
        // replace the entry for the key, or append a new one
        let mut i: usize = 0;
        while i < self.entries.len()
            invariant
                0 <= i <= self.entries@.len(),
                self.entries@ == base,
                self.max_entries == old(self).max_entries,
                self.ttl_secs == old(self).ttl_secs,
                forall|j: int| 0 <= j < i ==> #[trigger] self.entries@[j].key@ != key@,
            decreases self.entries@.len() - i,
        {
            if text::str_eq(self.entries[i].key.as_str(), key) {
                let e = AiCacheEntry { key: key.to_owned(), value, timestamp: now_secs };
                let ghost en = e;
                self.entries.set(i, e);
                proof {
                    assert(self.entries@ == base.update(i as int, en));
                    assert(forall|l: int|
                        0 <= l < base.len() && l != i ==> #[trigger] self.entries@[l] == base[l]);
                    assert(ai_unique_keys(self.entries@)) by {
                        assert(self.entries@[i as int].key@ == base[i as int].key@);
                    }
                    assert(ai_set_post(
                        orig,
                        key@,
                        vv,
                        now_secs,
                        old(self).ttl_secs,
                        old(self).max_entries,
                        self.entries@,
                    ));
                }
                return;
            }
            i = i + 1;
        }
        let e = AiCacheEntry { key: key.to_owned(), value, timestamp: now_secs };
        self.entries.push(e);
        proof {
            assert(!ai_has_key(base, key@));
            assert(final(self).entries@.subrange(0, base.len() as int) =~= base);
            assert(ai_unique_keys(self.entries@)) by {
                assert(forall|a: int|
                    0 <= a < base.len() ==> #[trigger] self.entries@[a] == base[a]);
            }
        }
    }

    /// Removes every entry.
    pub fn clear(&mut self)
        ensures
            final(self).wf(),
            final(self).entries@.len() == 0,
            final(self).max_entries == old(self).max_entries,
            final(self).ttl_secs == old(self).ttl_secs,
    {
        self.entries.clear();
    }
}

/// The suggestions in a model's response. The text between the first
/// `[` and the last `]` is read as a JSON array of strings; when that
/// fails, bulleted lines count; without any brackets, every non-blank
/// line counts. A line whose bytes do not decode as text is left out
/// whole — deliberately no replacement characters.
#[verifier::loop_isolation(false)]
#[verifier::rlimit(60)]
pub fn extract_suggestions(result: &str) -> (r: Vec<String>)
    ensures
        (extract_brackets_ok(result.spec_bytes()) && valid_utf8(bracket_piece(result.spec_bytes()))
            && json_string_array(decode_utf8(bracket_piece(result.spec_bytes()))) is Some) ==> Some(
            r.deep_view(),
        ) == json_string_array(decode_utf8(bracket_piece(result.spec_bytes()))),
        (extract_brackets_ok(result.spec_bytes()) && !(valid_utf8(
            bracket_piece(result.spec_bytes()),
        ) && json_string_array(decode_utf8(bracket_piece(result.spec_bytes()))) is Some)) ==> {
            &&& r@.len() == bullet_list(spec_lines(result.spec_bytes())).len()
            &&& forall|i: int|
                0 <= i < r@.len() ==> encode_utf8(#[trigger] r@[i]@) == bullet_list(
                    spec_lines(result.spec_bytes()),
                )[i]
        },
        !extract_brackets_ok(result.spec_bytes()) ==> {
            &&& r@.len() == nonblank_list(spec_lines(result.spec_bytes())).len()
            &&& forall|i: int|
                0 <= i < r@.len() ==> encode_utf8(#[trigger] r@[i]@) == nonblank_list(
                    spec_lines(result.spec_bytes()),
                )[i]
        },
{
    let bytes = result.as_bytes();
    proof {
        lemma_first_lbracket(bytes@);
        lemma_last_rbracket(bytes@);
    }
    // locate the first `[` and the last `]`
    let mut js: usize = 0;
    while js < bytes.len() && bytes[js] != 91
        invariant
            0 <= js <= bytes@.len(),
            forall|k: int| 0 <= k < js ==> bytes@[k] != 91,
        decreases bytes@.len() - js,
    {
        js = js + 1;
    }
    let mut je: usize = bytes.len();
    while je > 0 && bytes[je - 1] != 93
        invariant
            0 <= je <= bytes@.len(),
            forall|k: int| je <= k < bytes@.len() ==> bytes@[k] != 93,
        decreases je,
    {
        je = je - 1;
    }
    proof {
        assert(js == first_lbracket(bytes@)) by {
            if js < first_lbracket(bytes@) {
                assert(bytes@[js as int] != 91);
            }
            if js > first_lbracket(bytes@) {
                assert(bytes@[first_lbracket(bytes@) as int] == 91);
            }
        }
        if je == 0 {
            assert(last_rbracket(bytes@) == bytes@.len()) by {
                if last_rbracket(bytes@) < bytes@.len() {
                    assert(bytes@[last_rbracket(bytes@) as int] == 93);
                }
            }
        } else {
            assert(je - 1 == last_rbracket(bytes@)) by {
                if je - 1 < last_rbracket(bytes@) {
                    assert(last_rbracket(bytes@) < bytes@.len());
                    assert(bytes@[last_rbracket(bytes@) as int] == 93);
                }
                if je - 1 > last_rbracket(bytes@) {
                    assert(bytes@[je - 1] != 93);
                }
            }
        }
    }
    if js < bytes.len() && je > 0 && js < je {
        // read the bracketed region as a JSON array of strings
        let piece = vstd::slice::slice_to_vec(&bytes[js..je]);
        let ghost piecev = piece@;
        match text::string_from_utf8(piece) {
            Some(ps) => {
                proof {
                    encode_utf8_decode_utf8(ps@);
                    assert(ps@ == decode_utf8(piecev));
                }
                match parse_json_string_array(ps.as_str()) {
                    Some(v) => {
                        return v;
                    },
                    None => {},
                }
            },
            None => {},
        }
        // fall back to bulleted lines
        let lines = split_trimmed_candidates(bytes, true);
        return lines;
    }
    // no bracketed region: every non-blank line counts
    split_trimmed_candidates(bytes, false)
}

/// Whether the response holds a bracketed region.
pub open spec fn extract_brackets_ok(b: Seq<u8>) -> bool {
    first_lbracket(b) < b.len() && last_rbracket(b) < b.len() && first_lbracket(b) < last_rbracket(
        b,
    ) + 1
}

/// The bytes from the first `[` to the last `]`.
pub open spec fn bracket_piece(b: Seq<u8>) -> Seq<u8> {
    b.subrange(first_lbracket(b) as int, last_rbracket(b) as int + 1)
}

/// The bulleted items of the response when `bullets_only`, else every
/// non-blank line, each trimmed.
#[verifier::loop_isolation(false)]
#[verifier::rlimit(60)]
fn split_trimmed_candidates(output: &[u8], bullets_only: bool) -> (r: Vec<String>)
    ensures
        bullets_only ==> {
            &&& r@.len() == bullet_list(spec_lines(output@)).len()
            &&& forall|i: int|
                0 <= i < r@.len() ==> encode_utf8(#[trigger] r@[i]@) == bullet_list(
                    spec_lines(output@),
                )[i]
        },
        !bullets_only ==> {
            &&& r@.len() == nonblank_list(spec_lines(output@)).len()
            &&& forall|i: int|
                0 <= i < r@.len() ==> encode_utf8(#[trigger] r@[i]@) == nonblank_list(
                    spec_lines(output@),
                )[i]
        },
{
    let ghost full_b = bullet_list(spec_lines(output@));
    let ghost full_n = nonblank_list(spec_lines(output@));
    let mut out: Vec<String> = Vec::new();
    let ghost mut produced: Seq<Seq<u8>> = Seq::empty();
    let mut pos: usize = 0;
    proof {
        assert(output@.subrange(0, output@.len() as int) =~= output@);
        assert(produced + bullet_list(spec_lines(output@)) =~= bullet_list(spec_lines(output@)));
        assert(produced + nonblank_list(spec_lines(output@)) =~= nonblank_list(
            spec_lines(output@),
        ));
    }
    while pos < output.len()
        invariant
            0 <= pos <= output@.len(),
            out@.len() == produced.len(),
            forall|i: int| 0 <= i < produced.len() ==> encode_utf8(#[trigger] out@[i]@) == produced[i],
            bullets_only ==> full_b == produced + bullet_list(
                spec_lines(output@.subrange(pos as int, output@.len() as int)),
            ),
            !bullets_only ==> full_n == produced + nonblank_list(
                spec_lines(output@.subrange(pos as int, output@.len() as int)),
            ),
        decreases output@.len() - pos,
    {
        let ghost rem = output@.subrange(pos as int, output@.len() as int);
        let mut e: usize = pos;
        while e < output.len() && output[e] != 10
            invariant
                pos <= e <= output@.len(),
                forall|k: int| pos <= k < e ==> output@[k] != 10,
            decreases output@.len() - e,
        {
            e = e + 1;
        }
        let ghost line = output@.subrange(pos as int, e as int);
        proof {
            crate::context::lemma_first_nl(rem);
            assert(crate::context::first_nl(rem) == e - pos) by {
                if crate::context::first_nl(rem) < e - pos {
                    assert(output@[pos + crate::context::first_nl(rem)] == 10);
                }
                if crate::context::first_nl(rem) > e - pos {
                    assert(e < output@.len());
                    assert(rem[e - pos] != 10);
                }
            }
            assert(line =~= rem.subrange(0, crate::context::first_nl(rem) as int));
        }
        // the candidate bytes of this line, if any
        let is_bullet = e - pos >= 2 && (output[pos] == 45 || output[pos] == 42) && output[pos + 1]
            == 32;
        let mut taken = false;
        let ghost mut piece_spec: Seq<u8> = Seq::empty();
        if bullets_only {
            if is_bullet {
                let piece = crate::context::trimmed_bytes(&output[pos + 2..e]);
                proof {
                    assert(output@.subrange(pos + 2, e as int) =~= line.subrange(
                        2,
                        line.len() as int,
                    ));
                    piece_spec = spec_trimmed(line.subrange(2, line.len() as int));
                    assert(bullet_of(line) == Some(piece_spec));
                }
                match text::string_from_utf8(vstd::slice::slice_to_vec(piece)) {
                    Some(t) => {
                        out.push(t);
                        taken = true;
                        proof {
                            produced = produced.push(piece_spec);
                        }
                    },
                    None => {},
                }
            }
        } else {
            let piece = crate::context::trimmed_bytes(&output[pos..e]);
            if piece.len() > 0 {
                proof {
                    assert(output@.subrange(pos as int, e as int) =~= line);
                    piece_spec = spec_trimmed(line);
                }
                match text::string_from_utf8(vstd::slice::slice_to_vec(piece)) {
                    Some(t) => {
                        out.push(t);
                        taken = true;
                        proof {
                            produced = produced.push(piece_spec);
                        }
                    },
                    None => {},
                }
            }
        }
        let next = if e < output.len() {
            e + 1
        } else {
            e
        };
        proof {
            let rem2 = output@.subrange(next as int, output@.len() as int);
            if (e as int) < output@.len() {
                assert(rem2 =~= rem.subrange(
                    crate::context::first_nl(rem) as int + 1,
                    rem.len() as int,
                ));
                assert(spec_lines(rem) =~= seq![line] + spec_lines(rem2));
            } else {
                assert(rem2 =~= Seq::<u8>::empty());
                assert(line =~= rem);
                assert(spec_lines(rem) =~= seq![line]);
                assert(spec_lines(rem2) =~= Seq::<Seq<u8>>::empty());
            }
            assert(spec_lines(rem).first() == line);
            assert(spec_lines(rem).drop_first() =~= spec_lines(rem2));
            if bullets_only {
                if taken {
                    assert(bullet_list(spec_lines(rem)) =~= seq![piece_spec] + bullet_list(
                        spec_lines(rem2),
                    ));
                    assert(full_b =~= produced + bullet_list(spec_lines(rem2)));
                } else {
                    assert(bullet_list(spec_lines(rem)) =~= bullet_list(spec_lines(rem2)));
                }
            } else {
                if taken {
                    assert(nonblank_list(spec_lines(rem)) =~= seq![piece_spec] + nonblank_list(
                        spec_lines(rem2),
                    ));
                    assert(full_n =~= produced + nonblank_list(spec_lines(rem2)));
                } else {
                    assert(nonblank_list(spec_lines(rem)) =~= nonblank_list(spec_lines(rem2)));
                }
            }
        }
        pos = next;
    }
    proof {
        assert(spec_lines(output@.subrange(pos as int, output@.len() as int))
            =~= Seq::<Seq<u8>>::empty());
        if bullets_only {
            assert(full_b =~= produced);
        } else {
            assert(full_n =~= produced);
        }
        assert(out.deep_view().len() == out@.len());
    }
    out
}

} // verus!
