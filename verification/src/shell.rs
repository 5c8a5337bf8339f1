//! Shell history parsing.
//!
//! Each shell writes its history file in its own shape; the entries a
//! prediction source can use are extracted here. Reading the files, and
//! everything else the shell integrations do over pipes and
//! subprocesses, is the embedding application's part.

use vstd::prelude::*;
use vstd::string::*;
use vstd::utf8::*;
use crate::context::{first_nl, lemma_first_nl, spec_lines, spec_trimmed};
use crate::text;

verus! {

/// The offset of the first `;`, or the length when there is none.
pub open spec fn first_semi(b: Seq<u8>) -> nat
    decreases b.len(),
{
    if b.len() == 0 {
        0
    } else if b.first() == 59 {
        0
    } else {
        1 + first_semi(b.drop_first())
    }
}

proof fn lemma_first_semi(b: Seq<u8>)
    ensures
        first_semi(b) <= b.len(),
        forall|i: int| 0 <= i < first_semi(b) ==> b[i] != 59,
        first_semi(b) < b.len() ==> b[first_semi(b) as int] == 59,
    decreases b.len(),
{
    if b.len() > 0 && b.first() != 59 {
        lemma_first_semi(b.drop_first());
        assert forall|i: int| 0 <= i < first_semi(b) implies b[i] != 59 by {
            if i > 0 {
                assert(b.drop_first()[i - 1] == b[i]);
                assert(b.drop_first()[i - 1] != 59);
            }
        }
        if first_semi(b) < b.len() {
            assert(b[first_semi(b) as int] == b.drop_first()[first_semi(b) - 1]);
        }
    }
}

/// The command on one zsh history line: what follows the first `;` of a
/// non-blank line, as the extended history format stores it.
pub open spec fn zsh_entry(line: Seq<u8>) -> Option<Seq<u8>> {
    if spec_trimmed(line).len() == 0 {
        None
    } else if first_semi(line) < line.len() {
        Some(line.subrange(first_semi(line) as int + 1, line.len() as int))
    } else {
        None
    }
}

/// The commands of all zsh history lines whose bytes decode as text.
pub open spec fn zsh_list(lines: Seq<Seq<u8>>) -> Seq<Seq<u8>>
    decreases lines.len(),
{
    if lines.len() == 0 {
        Seq::<Seq<u8>>::empty()
    } else {
        let rest = zsh_list(lines.drop_first());
        match zsh_entry(lines.first()) {
            Some(s) => {
                if valid_utf8(s) {
                    seq![s] + rest
                } else {
                    rest
                }
            },
            None => rest,
        }
    }
}

/// The history entries in a zsh history file, oldest first, at most
/// `limit` of them. An entry whose bytes do not decode as text is left
/// out whole — deliberately no replacement characters, so every entry
/// is a command as it was written.
#[verifier::loop_isolation(false)]
#[verifier::rlimit(60)]
pub fn parse_zsh_history(content: &[u8], limit: usize) -> (r: Vec<String>)
    ensures
        r@.len() == vstd::math::min(limit as int, zsh_list(spec_lines(content@)).len() as int),
        forall|i: int|
            0 <= i < r@.len() ==> encode_utf8(#[trigger] r@[i]@) == zsh_list(
                spec_lines(content@),
            )[i],
{
    let ghost full = zsh_list(spec_lines(content@));
    let mut out: Vec<String> = Vec::new();
    let ghost mut produced: Seq<Seq<u8>> = Seq::empty();
    let mut pos: usize = 0;
    proof {
        assert(content@.subrange(0, content@.len() as int) =~= content@);
        assert(produced + zsh_list(spec_lines(content@)) =~= zsh_list(spec_lines(content@)));
    }
    while pos < content.len() && out.len() < limit
        invariant
            0 <= pos <= content@.len(),
            out@.len() == produced.len(),
            out@.len() <= limit,
            forall|i: int| 0 <= i < produced.len() ==> encode_utf8(#[trigger] out@[i]@) == produced[i],
            full == produced + zsh_list(
                spec_lines(content@.subrange(pos as int, content@.len() as int)),
            ),
        decreases content@.len() - pos,
    {
        let ghost rem = content@.subrange(pos as int, content@.len() as int);
        let mut e: usize = pos;
        while e < content.len() && content[e] != 10
            invariant
                pos <= e <= content@.len(),
                forall|k: int| pos <= k < e ==> content@[k] != 10,
            decreases content@.len() - e,
        {
            e = e + 1;
        }
        let ghost line = content@.subrange(pos as int, e as int);
        proof {
            lemma_first_nl(rem);
            assert(first_nl(rem) == e - pos) by {
                if first_nl(rem) < e - pos {
                    assert(content@[pos + first_nl(rem)] == 10);
                }
                if first_nl(rem) > e - pos {
                    assert(e < content@.len());
                    assert(rem[e - pos] != 10);
                }
            }
            assert(line =~= rem.subrange(0, first_nl(rem) as int));
            lemma_first_semi(line);
        }
        // a non-blank line with a `;` yields the command after it
        let blank = crate::context::trimmed_bytes(&content[pos..e]).len() == 0;
        let mut semi: usize = pos;
        while semi < e && content[semi] != 59
            invariant
                pos <= semi <= e,
                forall|k: int| pos <= k < semi ==> content@[k] != 59,
            decreases e - semi,
        {
            semi = semi + 1;
        }
        proof {
            assert(content@.subrange(pos as int, e as int) =~= line);
            assert(semi - pos == first_semi(line)) by {
                if semi - pos < first_semi(line) {
                    assert(line[semi - pos] == 59);
                }
                if semi - pos > first_semi(line) {
                    assert(first_semi(line) < line.len());
                    assert(content@[pos + first_semi(line)] != 59);
                    assert(line[first_semi(line) as int] == 59);
                }
            }
        }
        let mut taken = false;
        let ghost mut piece_spec: Seq<u8> = Seq::empty();
        if !blank && semi < e {
            let piece = vstd::slice::slice_to_vec(&content[semi + 1..e]);
            proof {
                piece_spec = line.subrange(first_semi(line) as int + 1, line.len() as int);
                assert(piece@ =~= piece_spec);
                assert(zsh_entry(line) == Some(piece_spec));
            }
            match text::string_from_utf8(piece) {
                Some(t) => {
                    out.push(t);
                    taken = true;
                    proof {
                        produced = produced.push(piece_spec);
                    }
                },
                None => {},
            }
        }
        let next = if e < content.len() {
            e + 1
        } else {
            e
        };
        proof {
            let rem2 = content@.subrange(next as int, content@.len() as int);
            if (e as int) < content@.len() {
                assert(rem2 =~= rem.subrange(first_nl(rem) as int + 1, rem.len() as int));
                assert(spec_lines(rem) =~= seq![line] + spec_lines(rem2));
            } else {
                assert(rem2 =~= Seq::<u8>::empty());
                assert(line =~= rem);
                assert(spec_lines(rem) =~= seq![line]);
                assert(spec_lines(rem2) =~= Seq::<Seq<u8>>::empty());
            }
            assert(spec_lines(rem).first() == line);
            assert(spec_lines(rem).drop_first() =~= spec_lines(rem2));
            if taken {
                assert(zsh_list(spec_lines(rem)) =~= seq![piece_spec] + zsh_list(
                    spec_lines(rem2),
                ));
                assert(full =~= produced + zsh_list(spec_lines(rem2)));
            } else {
                assert(zsh_list(spec_lines(rem)) =~= zsh_list(spec_lines(rem2)));
            }
        }
        pos = next;
    }
    proof {
        if pos >= content@.len() {
            assert(spec_lines(content@.subrange(pos as int, content@.len() as int))
                =~= Seq::<Seq<u8>>::empty());
            assert(full =~= produced);
        } else {
            assert(out@.len() == limit);
            assert forall|i: int| 0 <= i < produced.len() implies produced[i] == full[i] by {}
        }
    }
    out
}

/// The marker that introduces a command in a fish history file.
pub open spec fn cmd_marker() -> Seq<u8> {
    seq![99u8, 109u8, 100u8, 58u8, 32u8]
}

/// The offset of the first `cmd: ` marker, or the length when there is
/// none.
pub open spec fn first_cmd(b: Seq<u8>) -> nat
    decreases b.len(),
{
    if b.len() < 5 {
        b.len() as nat
    } else if b.subrange(0, 5) == cmd_marker() {
        0
    } else {
        1 + first_cmd(b.drop_first())
    }
}

proof fn lemma_first_cmd(b: Seq<u8>)
    ensures
        first_cmd(b) <= b.len(),
        forall|i: int|
            0 <= i < first_cmd(b) && i + 5 <= b.len() ==> #[trigger] b.subrange(i, i + 5)
                != cmd_marker(),
        first_cmd(b) < b.len() ==> first_cmd(b) + 5 <= b.len() && b.subrange(
            first_cmd(b) as int,
            first_cmd(b) as int + 5,
        ) == cmd_marker(),
    decreases b.len(),
{
    if b.len() >= 5 && b.subrange(0, 5) != cmd_marker() {
        lemma_first_cmd(b.drop_first());
        assert forall|i: int|
            0 <= i < first_cmd(b) && i + 5 <= b.len() implies #[trigger] b.subrange(i, i + 5)
            != cmd_marker() by {
            if i > 0 {
                assert(b.drop_first().subrange(i - 1, i - 1 + 5) =~= b.subrange(i, i + 5));
                assert(b.drop_first().subrange(i - 1, i - 1 + 5) != cmd_marker());
            }
        }
        if first_cmd(b) < b.len() {
            assert(b.subrange(first_cmd(b) as int, first_cmd(b) as int + 5) =~= b.drop_first()
                .subrange(first_cmd(b) - 1, first_cmd(b) - 1 + 5));
        }
    }
}

/// The command on one fish history line: what follows the first `cmd: `
/// marker, trimmed.
pub open spec fn fish_entry(line: Seq<u8>) -> Option<Seq<u8>> {
    if first_cmd(line) < line.len() {
        Some(spec_trimmed(line.subrange(first_cmd(line) as int + 5, line.len() as int)))
    } else {
        None
    }
}

/// The commands of all fish history lines whose bytes decode as text.
pub open spec fn fish_list(lines: Seq<Seq<u8>>) -> Seq<Seq<u8>>
    decreases lines.len(),
{
    if lines.len() == 0 {
        Seq::<Seq<u8>>::empty()
    } else {
        let rest = fish_list(lines.drop_first());
        match fish_entry(lines.first()) {
            Some(s) => {
                if valid_utf8(s) {
                    seq![s] + rest
                } else {
                    rest
                }
            },
            None => rest,
        }
    }
}

/// The offset of the first `cmd: ` marker in `line`, or its length
/// when there is none.
#[verifier::loop_isolation(false)]
fn find_cmd_marker(line: &[u8]) -> (m: usize)
    ensures
        m == first_cmd(line@),
{
    proof {
        lemma_first_cmd(line@);
    }
    let n = line.len();
    let mut m: usize = 0;
    while n - m >= 5 && !(line[m] == 99 && line[m + 1] == 109 && line[m + 2] == 100 && line[m + 3]
        == 58 && line[m + 4] == 32)
        invariant
            0 <= m <= n,
            n == line@.len(),
            forall|k: int|
                0 <= k < m && k + 5 <= n ==> #[trigger] line@.subrange(k, k + 5) != cmd_marker(),
        decreases n - m,
    {
        proof {
            assert(line@.subrange(m as int, m as int + 5) != cmd_marker()) by {
                if line@.subrange(m as int, m as int + 5) == cmd_marker() {
                    assert(line@.subrange(m as int, m as int + 5)[0] == 99);
                    assert(line@.subrange(m as int, m as int + 5)[1] == 109);
                    assert(line@.subrange(m as int, m as int + 5)[2] == 100);
                    assert(line@.subrange(m as int, m as int + 5)[3] == 58);
                    assert(line@.subrange(m as int, m as int + 5)[4] == 32);
                }
            }
        }
        m = m + 1;
    }
    if n - m >= 5 {
        proof {
            assert(line@.subrange(m as int, m as int + 5) =~= cmd_marker());
            assert(m == first_cmd(line@)) by {
                if m > first_cmd(line@) {
                    assert(line@.subrange(
                        first_cmd(line@) as int,
                        first_cmd(line@) as int + 5,
                    ) == cmd_marker());
                }
            }
        }
        m
    } else {
        proof {
            assert(first_cmd(line@) == line@.len()) by {
                if first_cmd(line@) < line@.len() {
                    assert(line@.subrange(
                        first_cmd(line@) as int,
                        first_cmd(line@) as int + 5,
                    ) == cmd_marker());
                }
            }
        }
        n
    }
}

/// The history entries in a fish history file, oldest first, at most
/// `limit` of them. An entry whose bytes do not decode as text is left
/// out whole, as in the zsh reader.
#[verifier::loop_isolation(false)]
#[verifier::rlimit(80)]
pub fn parse_fish_history(content: &[u8], limit: usize) -> (r: Vec<String>)
    ensures
        r@.len() == vstd::math::min(limit as int, fish_list(spec_lines(content@)).len() as int),
        forall|i: int|
            0 <= i < r@.len() ==> encode_utf8(#[trigger] r@[i]@) == fish_list(
                spec_lines(content@),
            )[i],
{
    let ghost full = fish_list(spec_lines(content@));
    let mut out: Vec<String> = Vec::new();
    let ghost mut produced: Seq<Seq<u8>> = Seq::empty();
    let mut pos: usize = 0;
    proof {
        assert(content@.subrange(0, content@.len() as int) =~= content@);
        assert(produced + fish_list(spec_lines(content@)) =~= fish_list(spec_lines(content@)));
    }
    while pos < content.len() && out.len() < limit
        invariant
            0 <= pos <= content@.len(),
            out@.len() == produced.len(),
            out@.len() <= limit,
            forall|i: int| 0 <= i < produced.len() ==> encode_utf8(#[trigger] out@[i]@) == produced[i],
            full == produced + fish_list(
                spec_lines(content@.subrange(pos as int, content@.len() as int)),
            ),
        decreases content@.len() - pos,
    {
        let ghost rem = content@.subrange(pos as int, content@.len() as int);
        let mut e: usize = pos;
        while e < content.len() && content[e] != 10
            invariant
                pos <= e <= content@.len(),
                forall|k: int| pos <= k < e ==> content@[k] != 10,
            decreases content@.len() - e,
        {
            e = e + 1;
        }
        let ghost line = content@.subrange(pos as int, e as int);
        proof {
            lemma_first_nl(rem);
            assert(first_nl(rem) == e - pos) by {
                if first_nl(rem) < e - pos {
                    assert(content@[pos + first_nl(rem)] == 10);
                }
                if first_nl(rem) > e - pos {
                    assert(e < content@.len());
                    assert(rem[e - pos] != 10);
                }
            }
            assert(line =~= rem.subrange(0, first_nl(rem) as int));
            lemma_first_cmd(line);
        }
        // find the marker on this line
        let m_rel = find_cmd_marker(&content[pos..e]);
        proof {
            assert(content@.subrange(pos as int, e as int) =~= line);
        }
        let found = m_rel < e - pos;
        let mut taken = false;
        let ghost mut piece_spec: Seq<u8> = Seq::empty();
        if found {
            let piece = crate::context::trimmed_bytes(&content[pos + m_rel + 5..e]);
            proof {
                assert(content@.subrange(pos + m_rel + 5, e as int) =~= line.subrange(
                    first_cmd(line) as int + 5,
                    line.len() as int,
                ));
                piece_spec = spec_trimmed(
                    line.subrange(first_cmd(line) as int + 5, line.len() as int),
                );
                assert(fish_entry(line) == Some(piece_spec));
            }
            match text::string_from_utf8(vstd::slice::slice_to_vec(piece)) {
                Some(t) => {
                    out.push(t);
                    taken = true;
                    proof {
                        produced = produced.push(piece_spec);
                    }
                },
                None => {},
            }
        }
        let next = if e < content.len() {
            e + 1
        } else {
            e
        };
        proof {
            let rem2 = content@.subrange(next as int, content@.len() as int);
            if (e as int) < content@.len() {
                assert(rem2 =~= rem.subrange(first_nl(rem) as int + 1, rem.len() as int));
                assert(spec_lines(rem) =~= seq![line] + spec_lines(rem2));
            } else {
                assert(rem2 =~= Seq::<u8>::empty());
                assert(line =~= rem);
                assert(spec_lines(rem) =~= seq![line]);
                assert(spec_lines(rem2) =~= Seq::<Seq<u8>>::empty());
            }
            assert(spec_lines(rem).first() == line);
            assert(spec_lines(rem).drop_first() =~= spec_lines(rem2));
            if taken {
                assert(fish_list(spec_lines(rem)) =~= seq![piece_spec] + fish_list(
                    spec_lines(rem2),
                ));
                assert(full =~= produced + fish_list(spec_lines(rem2)));
            } else {
                assert(fish_list(spec_lines(rem)) =~= fish_list(spec_lines(rem2)));
            }
        }
        pos = next;
    }
    proof {
        if pos >= content@.len() {
            assert(spec_lines(content@.subrange(pos as int, content@.len() as int))
                =~= Seq::<Seq<u8>>::empty());
            assert(full =~= produced);
        }
    }
    out
}

} // verus!
