//! String and byte-sequence utilities shared by the whole crate.
//!
//! Executable code works on the UTF-8 bytes of each string; the contracts
//! connect those bytes back to the character sequences through vstd's
//! UTF-8 encoding functions, so callers can reason at the character level.

use vstd::prelude::*;
use vstd::string::*;
use vstd::utf8::*;

verus! {

/// Encoding a concatenation encodes each half in turn.
pub proof fn lemma_encode_utf8_concat(a: Seq<char>, b: Seq<char>)
    ensures
        encode_utf8(a + b) == encode_utf8(a) + encode_utf8(b),
    decreases a.len(),
{
    if a.len() == 0 {
        assert(a + b =~= b);
        assert(encode_utf8(a) =~= Seq::<u8>::empty());
        assert(encode_utf8(a) + encode_utf8(b) =~= encode_utf8(b));
    } else {
        lemma_encode_utf8_concat(a.drop_first(), b);
        assert((a + b).drop_first() =~= a.drop_first() + b);
        assert(encode_utf8(a + b) =~= encode_utf8(a) + encode_utf8(b));
    }
}

/// Two strings with the same UTF-8 bytes hold the same characters.
pub proof fn lemma_encode_utf8_injective(a: Seq<char>, b: Seq<char>)
    requires
        encode_utf8(a) == encode_utf8(b),
    ensures
        a == b,
{
    encode_utf8_decode_utf8(a);
    encode_utf8_decode_utf8(b);
}

/// The end of a valid UTF-8 prefix of a valid UTF-8 sequence is a
/// character boundary of the whole sequence.
pub proof fn lemma_valid_prefix_is_boundary(bytes: Seq<u8>, i: int)
    requires
        valid_utf8(bytes),
        0 <= i <= bytes.len(),
        valid_utf8(bytes.subrange(0, i)),
    ensures
        is_char_boundary(bytes, i),
    decreases bytes.len(),
{
    if i == 0 {
    } else {
        let prefix = bytes.subrange(0, i);
        let k = length_of_first_scalar(bytes);
        assert(valid_first_scalar(prefix));
        assert(prefix[0] == bytes[0]);
        assert(length_of_first_scalar(prefix) == k);
        assert(k <= i);
        let tail = pop_first_scalar(bytes);
        assert(pop_first_scalar(prefix) =~= tail.subrange(0, i - k));
        lemma_valid_prefix_is_boundary(tail, i - k);
    }
}

/// Stepping over a one-byte character keeps the position on a character
/// boundary.
proof fn lemma_boundary_step_ascii(bytes: Seq<u8>, i: int)
    requires
        valid_utf8(bytes),
        is_char_boundary(bytes, i),
        0 <= i < bytes.len(),
        is_leading_byte_width_1(bytes[i]),
    ensures
        is_char_boundary(bytes, i + 1),
    decreases bytes.len(),
{
    let lf = length_of_first_scalar(bytes);
    if i == 0 {
        assert(lf == 1);
        is_char_boundary_start_end_of_seq(bytes);
        reveal_with_fuel(is_char_boundary, 2);
    } else {
        let tail = pop_first_scalar(bytes);
        assert(is_char_boundary(tail, i - lf));
        assert(i - lf >= 0) by {
            if i < lf {
                assert(!is_char_boundary(tail, i - lf));
            }
        }
        assert(tail[i - lf] == bytes[i]);
        lemma_boundary_step_ascii(tail, i - lf);
        assert(is_char_boundary(tail, i - lf + 1));
    }
}

/// ASCII whitespace, as a command line separates its tokens.
pub open spec fn is_token_ws(x: u8) -> bool {
    x == 32 || x == 9 || x == 10 || x == 13
}

/// How many whitespace bytes `b` begins with.
pub open spec fn token_start(b: Seq<u8>) -> nat
    decreases b.len(),
{
    if b.len() == 0 {
        0
    } else if is_token_ws(b.first()) {
        1 + token_start(b.drop_first())
    } else {
        0
    }
}

proof fn lemma_token_start(b: Seq<u8>)
    ensures
        token_start(b) <= b.len(),
        forall|i: int| 0 <= i < token_start(b) ==> is_token_ws(b[i]),
        token_start(b) < b.len() ==> !is_token_ws(b[token_start(b) as int]),
    decreases b.len(),
{
    if b.len() > 0 && is_token_ws(b.first()) {
        lemma_token_start(b.drop_first());
        assert forall|i: int| 0 <= i < token_start(b) implies is_token_ws(b[i]) by {
            if i > 0 {
                assert(b.drop_first()[i - 1] == b[i]);
                assert(is_token_ws(b.drop_first()[i - 1]));
            }
        }
        if token_start(b) < b.len() {
            assert(b[token_start(b) as int] == b.drop_first()[token_start(b) - 1]);
        }
    }
}

/// The length of the whitespace-free run `b` begins with.
pub open spec fn token_len(b: Seq<u8>) -> nat
    decreases b.len(),
{
    if b.len() == 0 {
        0
    } else if is_token_ws(b.first()) {
        0
    } else {
        1 + token_len(b.drop_first())
    }
}

proof fn lemma_token_len(b: Seq<u8>)
    ensures
        token_len(b) <= b.len(),
        forall|i: int| 0 <= i < token_len(b) ==> !is_token_ws(b[i]),
        token_len(b) < b.len() ==> is_token_ws(b[token_len(b) as int]),
    decreases b.len(),
{
    if b.len() > 0 && !is_token_ws(b.first()) {
        lemma_token_len(b.drop_first());
        assert forall|i: int| 0 <= i < token_len(b) implies !is_token_ws(b[i]) by {
            if i > 0 {
                assert(b.drop_first()[i - 1] == b[i]);
                assert(!is_token_ws(b.drop_first()[i - 1]));
            }
        }
        if token_len(b) < b.len() {
            assert(b[token_len(b) as int] == b.drop_first()[token_len(b) - 1]);
        }
    }
}

/// The first whitespace-delimited token of `b`; empty when `b` is all
/// whitespace.
pub open spec fn spec_first_token(b: Seq<u8>) -> Seq<u8> {
    let a = token_start(b) as int;
    let rest = b.subrange(a, b.len() as int);
    rest.subrange(0, token_len(rest) as int)
}

/// The first whitespace-delimited token of a command line; the empty
/// string when there is none.
#[verifier::loop_isolation(false)]
pub fn first_token(input: &str) -> (r: String)
    ensures
        encode_utf8(r@) == spec_first_token(input.spec_bytes()),
{
    let bytes = input.as_bytes();
    proof {
        encode_utf8_valid_utf8(input@);
        lemma_token_start(bytes@);
    }
    let mut a: usize = 0;
    while a < bytes.len() && (bytes[a] == 32 || bytes[a] == 9 || bytes[a] == 10 || bytes[a] == 13)
        invariant
            0 <= a <= bytes@.len(),
            forall|k: int| 0 <= k < a ==> is_token_ws(bytes@[k]),
        decreases bytes@.len() - a,
    {
        a = a + 1;
    }
    proof {
        assert(a == token_start(bytes@)) by {
            if a < token_start(bytes@) {
                assert(is_token_ws(bytes@[a as int]));
            }
            if a > token_start(bytes@) {
                assert(!is_token_ws(bytes@[token_start(bytes@) as int]));
            }
        }
    }
    let ghost rest = bytes@.subrange(a as int, bytes@.len() as int);
    proof {
        lemma_token_len(rest);
    }
    let mut b: usize = a;
    while b < bytes.len() && !(bytes[b] == 32 || bytes[b] == 9 || bytes[b] == 10 || bytes[b] == 13)
        invariant
            a <= b <= bytes@.len(),
            forall|k: int| a <= k < b ==> !is_token_ws(bytes@[k]),
        decreases bytes@.len() - b,
    {
        b = b + 1;
    }
    proof {
        assert(b - a == token_len(rest)) by {
            if b - a < token_len(rest) {
                assert(!is_token_ws(rest[b - a]));
            }
            if b - a > token_len(rest) {
                assert(is_token_ws(rest[token_len(rest) as int]));
                assert(!is_token_ws(bytes@[a + token_len(rest)]));
            }
        }
        assert(spec_first_token(bytes@) =~= bytes@.subrange(a as int, b as int));
        // the token sits between character boundaries, so it is text
        assert(is_char_boundary(bytes@, a as int)) by {
            lemma_ws_run_boundary(bytes@, a as int);
        }
        valid_utf8_split(bytes@, a as int);
        if (b as int) < bytes@.len() {
            assert(is_char_boundary(rest, b - a)) by {
                is_char_boundary_iff_not_is_continuation_byte(rest, b - a);
                assert(rest[b - a] == bytes@[b as int]);
                assert(is_token_ws(bytes@[b as int]));
            }
            valid_utf8_split(rest, b - a);
            assert(rest.subrange(0, b - a) =~= bytes@.subrange(a as int, b as int));
        } else {
            assert(rest =~= bytes@.subrange(a as int, b as int));
        }
        assert(valid_utf8(bytes@.subrange(a as int, b as int)));
    }
    let piece = vstd::slice::slice_to_vec(&bytes[a..b]);
    match string_from_utf8(piece) {
        Some(t) => t,
        None => {
            // the token bytes were just shown to be valid text
            proof {
                assert(false);
            }
            String::new()
        },
    }
}

/// A run of ASCII whitespace from the start of a valid sequence ends on
/// a character boundary.
proof fn lemma_ws_run_boundary(bytes: Seq<u8>, a: int)
    requires
        valid_utf8(bytes),
        0 <= a <= bytes.len(),
        forall|k: int| 0 <= k < a ==> is_token_ws(bytes[k]),
    ensures
        is_char_boundary(bytes, a),
    decreases a,
{
    if a == 0 {
    } else {
        lemma_ws_run_boundary(bytes, a - 1);
        assert(is_leading_byte_width_1(bytes[a - 1]));
        lemma_boundary_step_ascii(bytes, a - 1);
    }
}

/// Equality of byte slices.
pub fn bytes_eq(a: &[u8], b: &[u8]) -> (r: bool)
    ensures
        r == (a@ == b@),
{
    if a.len() != b.len() {
        return false;
    }
    let mut i: usize = 0;
    while i < a.len()
        invariant
            0 <= i <= a@.len(),
            a@.len() == b@.len(),
            forall|j: int| 0 <= j < i ==> a@[j] == b@[j],
        decreases a@.len() - i,
    {
        if a[i] != b[i] {
            return false;
        }
        i = i + 1;
    }
    proof {
        assert(a@ =~= b@);
    }
    true
}

/// Whether `a` and `b` hold the same characters.
pub fn str_eq(a: &str, b: &str) -> (r: bool)
    ensures
        r == (a@ == b@),
{
    let r = bytes_eq(a.as_bytes(), b.as_bytes());
    proof {
        if a.spec_bytes() == b.spec_bytes() {
            lemma_encode_utf8_injective(a@, b@);
        }
    }
    r
}

/// Whether the characters of `p` are a prefix of the characters of `t`.
pub open spec fn spec_starts_with(t: Seq<char>, p: Seq<char>) -> bool {
    p.len() <= t.len() && t.subrange(0, p.len() as int) == p
}

/// Byte-level prefix and character-level prefix coincide for strings.
proof fn lemma_prefix_bytes_chars(t: &str, p: &str)
    ensures
        (p.spec_bytes().len() <= t.spec_bytes().len() && t.spec_bytes().subrange(
            0,
            p.spec_bytes().len() as int,
        ) == p.spec_bytes()) == spec_starts_with(t@, p@),
{
    let tb = t.spec_bytes();
    let pb = p.spec_bytes();
    encode_utf8_valid_utf8(t@);
    encode_utf8_valid_utf8(p@);
    if pb.len() <= tb.len() && tb.subrange(0, pb.len() as int) == pb {
        // byte prefix implies character prefix
        lemma_valid_prefix_is_boundary(tb, pb.len() as int);
        decode_utf8_split(tb, pb.len() as int);
        encode_utf8_decode_utf8(t@);
        encode_utf8_decode_utf8(p@);
        assert(t@ == decode_utf8(tb));
        assert(decode_utf8(tb.subrange(0, pb.len() as int)) == p@);
        assert(t@.subrange(0, p@.len() as int) =~= p@);
    }
    if spec_starts_with(t@, p@) {
        // character prefix implies byte prefix
        let rest = t@.subrange(p@.len() as int, t@.len() as int);
        assert(t@ =~= p@ + rest);
        lemma_encode_utf8_concat(p@, rest);
        assert(tb.subrange(0, pb.len() as int) =~= pb);
    }
}

/// Whether the bytes of `p` are a prefix of the bytes of `t`.
pub fn bytes_prefix(t: &[u8], p: &[u8]) -> (r: bool)
    ensures
        r == (p@.len() <= t@.len() && t@.subrange(0, p@.len() as int) == p@),
{
    if p.len() > t.len() {
        return false;
    }
    let mut i: usize = 0;
    while i < p.len()
        invariant
            0 <= i <= p@.len(),
            p@.len() <= t@.len(),
            forall|j: int| 0 <= j < i ==> t@[j] == p@[j],
        decreases p@.len() - i,
    {
        if t[i] != p[i] {
            proof {
                assert(t@.subrange(0, p@.len() as int)[i as int] != p@[i as int]);
            }
            return false;
        }
        i = i + 1;
    }
    proof {
        assert(t@.subrange(0, p@.len() as int) =~= p@);
    }
    true
}

/// Whether the string `t` starts with the prefix `p`.
pub fn str_starts_with(t: &str, p: &str) -> (r: bool)
    ensures
        r == spec_starts_with(t@, p@),
{
    let r = bytes_prefix(t.as_bytes(), p.as_bytes());
    proof {
        lemma_prefix_bytes_chars(t, p);
    }
    r
}

/// The characters of `t` after the prefix `p`, when `p` is a prefix of `t`.
pub fn strip_prefix_string(t: &str, p: &str) -> (r: Option<String>)
    ensures
        r is Some <==> spec_starts_with(t@, p@),
        r matches Some(s) ==> s@ == t@.subrange(p@.len() as int, t@.len() as int),
{
    if !str_starts_with(t, p) {
        return None;
    }
    let n = p.as_bytes().len();
    proof {
        encode_utf8_valid_utf8(t@);
        encode_utf8_valid_utf8(p@);
        lemma_prefix_bytes_chars(t, p);
        assert(n as int == p.spec_bytes().len());
        assert(t.spec_bytes().subrange(0, n as int) == p.spec_bytes());
        lemma_valid_prefix_is_boundary(t.spec_bytes(), n as int);
    }
    let (_, suffix) = t.split_at(n);
    proof {
        let tb = t.spec_bytes();
        let pb = p.spec_bytes();
        decode_utf8_split(tb, n as int);
        encode_utf8_decode_utf8(t@);
        encode_utf8_decode_utf8(p@);
        encode_utf8_decode_utf8(suffix@);
        assert(suffix.spec_bytes() =~= tb.subrange(n as int, tb.len() as int));
        assert(suffix@ == decode_utf8(tb.subrange(n as int, tb.len() as int)));
        let rest = t@.subrange(p@.len() as int, t@.len() as int);
        assert(t@ =~= p@ + rest);
        lemma_encode_utf8_concat(p@, rest);
        assert(encode_utf8(rest) =~= tb.subrange(n as int, tb.len() as int));
        lemma_encode_utf8_injective(suffix@, rest);
    }
    Some(suffix.to_owned())
}

/// Whether `n` occurs as a contiguous run inside `h`.
pub open spec fn spec_bytes_contains(h: Seq<u8>, n: Seq<u8>) -> bool {
    exists|i: int| 0 <= i <= h.len() - n.len() && #[trigger] h.subrange(i, i + n.len()) == n
}

/// Substring search on byte slices.
pub fn bytes_contains(h: &[u8], n: &[u8]) -> (r: bool)
    ensures
        r == spec_bytes_contains(h@, n@),
{
    if n.len() > h.len() {
        return false;
    }
    if n.len() == 0 {
        proof {
            assert(h@.subrange(0, 0 + n@.len() as int) =~= n@);
        }
        return true;
    }
    let mut i: usize = 0;
    let end = h.len() - n.len();
    while i <= end
        invariant
            0 <= i <= end + 1,
            end == h@.len() - n@.len(),
            1 <= n@.len() <= h@.len(),
            h@.len() <= usize::MAX,
            forall|k: int| #![trigger h@.subrange(k, k + n@.len())] 0 <= k < i ==> h@.subrange(
                k,
                k + n@.len(),
            ) != n@,
        decreases end + 1 - i,
    {
        if bytes_eq(&h[i..i + n.len()], n) {
            proof {
                assert(h@.subrange(i as int, i + n@.len()) == n@);
            }
            return true;
        }
        i = i + 1;
    }
    false
}

/// Whether the characters of `n` occur contiguously in `h`, compared by
/// their UTF-8 bytes.
pub fn str_contains(h: &str, n: &str) -> (r: bool)
    ensures
        r == spec_bytes_contains(h.spec_bytes(), n.spec_bytes()),
{
    bytes_contains(h.as_bytes(), n.as_bytes())
}

/// The decimal digit character for `d`.
pub open spec fn spec_digit_char(d: nat) -> char {
    if d == 0 {
        '0'
    } else if d == 1 {
        '1'
    } else if d == 2 {
        '2'
    } else if d == 3 {
        '3'
    } else if d == 4 {
        '4'
    } else if d == 5 {
        '5'
    } else if d == 6 {
        '6'
    } else if d == 7 {
        '7'
    } else if d == 8 {
        '8'
    } else {
        '9'
    }
}

/// The decimal digit string of `n`, most significant digit first.
pub open spec fn spec_decimal(n: nat) -> Seq<char>
    decreases n,
{
    if n < 10 {
        seq![spec_digit_char(n)]
    } else {
        spec_decimal(n / 10).push(spec_digit_char(n % 10))
    }
}

fn digit_str(d: u64) -> (r: &'static str)
    requires
        d < 10,
    ensures
        r@ == seq![spec_digit_char(d as nat)],
{
    proof {
        reveal_strlit("0");
        reveal_strlit("1");
        reveal_strlit("2");
        reveal_strlit("3");
        reveal_strlit("4");
        reveal_strlit("5");
        reveal_strlit("6");
        reveal_strlit("7");
        reveal_strlit("8");
        reveal_strlit("9");
    }
    let r = match d {
        0 => "0",
        1 => "1",
        2 => "2",
        3 => "3",
        4 => "4",
        5 => "5",
        6 => "6",
        7 => "7",
        8 => "8",
        _ => "9",
    };
    proof {
        assert(r@ =~= seq![spec_digit_char(d as nat)]);
    }
    r
}

/// Renders `n` in decimal.
pub fn u64_to_string(n: u64) -> (r: String)
    ensures
        r@ == spec_decimal(n as nat),
    decreases n,
{
    if n < 10 {
        digit_str(n).to_owned()
    } else {
        let s = u64_to_string(n / 10);
        let r = s.concat(digit_str(n % 10));
        proof {
            assert(r@ =~= spec_decimal((n / 10) as nat).push(spec_digit_char((n % 10) as nat)));
        }
        r
    }
}

/// ASCII upper-case letters folded to lower case; all other bytes kept.
pub open spec fn spec_lower_byte(b: u8) -> u8 {
    if 65 <= b <= 90 {
        (b + 32) as u8
    } else {
        b
    }
}

/// Whether two texts agree once ASCII letters are folded to lower case.
pub open spec fn spec_eq_ignore_ascii_case(a: Seq<char>, b: Seq<char>) -> bool {
    encode_utf8(a).map_values(|x: u8| spec_lower_byte(x)) == encode_utf8(b).map_values(
        |x: u8| spec_lower_byte(x),
    )
}

/// Case-insensitive equality over ASCII letters, as the byte sequences.
pub fn str_eq_ignore_ascii_case(a: &str, b: &str) -> (r: bool)
    ensures
        r == spec_eq_ignore_ascii_case(a@, b@),
{
    let ab = a.as_bytes();
    let bb = b.as_bytes();
    let ghost la = ab@.map_values(|x: u8| spec_lower_byte(x));
    let ghost lb = bb@.map_values(|x: u8| spec_lower_byte(x));
    if ab.len() != bb.len() {
        proof {
            assert(la.len() != lb.len());
        }
        return false;
    }
    let mut i: usize = 0;
    while i < ab.len()
        invariant
            0 <= i <= ab@.len(),
            ab@.len() == bb@.len(),
            ab@ == a.spec_bytes(),
            bb@ == b.spec_bytes(),
            la == ab@.map_values(|x: u8| spec_lower_byte(x)),
            lb == bb@.map_values(|x: u8| spec_lower_byte(x)),
            forall|j: int| 0 <= j < i ==> la[j] == lb[j],
        decreases ab@.len() - i,
    {
        let x = ab[i];
        let y = bb[i];
        let xl = if 65 <= x && x <= 90 {
            x + 32
        } else {
            x
        };
        let yl = if 65 <= y && y <= 90 {
            y + 32
        } else {
            y
        };
        if xl != yl {
            proof {
                assert(la[i as int] != lb[i as int]);
            }
            return false;
        }
        i = i + 1;
    }
    proof {
        assert(la =~= lb);
    }
    true
}

/// Relies on `String::from_utf8`: it succeeds exactly on valid UTF-8 input,
/// and the returned string consists of the characters those bytes encode.
#[verifier::external_body]
pub fn string_from_utf8(v: Vec<u8>) -> (r: Option<String>)
    ensures
        r is Some <==> valid_utf8(v@),
        r matches Some(s) ==> encode_utf8(s@) == v@,
{
    String::from_utf8(v).ok()
}

} // verus!
