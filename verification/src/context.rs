//! Environment context for prediction.
//!
//! The analyzer turns plain facts about the working directory — which
//! marker files exist, what the version-control tool reported — into a
//! [`Context`] snapshot. Gathering those facts (filesystem checks,
//! subprocess calls) is the embedding application's part; the detection
//! policy and the parsing of the tool's output are proved here.

use vstd::prelude::*;
use vstd::string::*;
use vstd::utf8::*;
use crate::text;

verus! {

/// The detected kind of project in the working directory.
#[derive(Clone, Copy, Debug, PartialEq, Eq, Structural)]
pub enum ProjectType {
    /// A Cargo project
    Rust,
    /// An npm project
    Node,
    /// A Python project
    Python,
    /// A Go module
    Go,
    /// None of the known markers
    Unknown,
}

/// A point-in-time snapshot of the environment, built fresh per request
/// and never mutated afterwards.
#[derive(Debug)]
pub struct Context {
    /// The working directory the request was made in
    pub current_dir: String,
    /// Whether the directory belongs to a git repository
    pub in_git_repo: bool,
    /// Whether the directory holds container project markers
    pub in_docker_context: bool,
    /// The command token parsed from the current input
    pub current_command: String,
    /// The detected project kind
    pub project_type: ProjectType,
}

impl Clone for Context {
    /// A copy equal to the original in every field.
    fn clone(&self) -> (r: Self)
        ensures
            r == *self,
    {
        Context {
            current_dir: self.current_dir.clone(),
            in_git_repo: self.in_git_repo,
            in_docker_context: self.in_docker_context,
            current_command: self.current_command.clone(),
            project_type: self.project_type,
        }
    }
}

/// Plain facts about the environment, gathered by the embedding
/// application: which marker files exist in the working directory, what
/// the version-control tool answered, and the parsed command token.
pub struct ContextFacts {
    /// The working directory
    pub current_dir: String,
    /// The command token parsed from the current input
    pub current_command: String,
    /// Whether a `.git` marker directory exists
    pub has_git_dir: bool,
    /// What `git rev-parse --is-inside-work-tree` reported: success or
    /// failure of the call, or nothing when the tool could not run
    pub git_reports_work_tree: Option<bool>,
    /// Whether a `Dockerfile` exists
    pub has_dockerfile: bool,
    /// Whether a `docker-compose.yml` exists
    pub has_compose_file: bool,
    /// Whether a `Cargo.toml` exists
    pub has_cargo_manifest: bool,
    /// Whether a `package.json` exists
    pub has_node_manifest: bool,
    /// Whether a `requirements.txt` exists
    pub has_requirements_file: bool,
    /// Whether a `setup.py` exists
    pub has_setup_script: bool,
    /// Whether a `go.mod` exists
    pub has_go_module: bool,
}

/// The repository check: the marker directory decides cheaply; without
/// it, the tool's answer counts, and a failed invocation means no.
pub open spec fn spec_is_git_repository(f: ContextFacts) -> bool {
    f.has_git_dir || f.git_reports_work_tree == Some(true)
}

/// The container check: either marker file.
pub open spec fn spec_is_docker_context(f: ContextFacts) -> bool {
    f.has_dockerfile || f.has_compose_file
}

/// Project detection: the first matching marker in a fixed priority
/// order wins.
pub open spec fn spec_project_type(f: ContextFacts) -> ProjectType {
    if f.has_cargo_manifest {
        ProjectType::Rust
    } else if f.has_node_manifest {
        ProjectType::Node
    } else if f.has_requirements_file || f.has_setup_script {
        ProjectType::Python
    } else if f.has_go_module {
        ProjectType::Go
    } else {
        ProjectType::Unknown
    }
}

/// Derives a [`Context`] from environment facts.
pub struct ContextAnalyzer;

impl ContextAnalyzer {
    /// An analyzer.
    pub fn new() -> (r: Self)
        ensures
            r == ContextAnalyzer,
    {
        ContextAnalyzer
    }

    /// The context for one request: repository membership, container
    /// markers and project kind derived from `facts`.
    pub fn analyze(&self, facts: &ContextFacts) -> (r: Context)
        ensures
            r.current_dir@ == facts.current_dir@,
            r.in_git_repo == spec_is_git_repository(*facts),
            r.in_docker_context == spec_is_docker_context(*facts),
            r.current_command@ == facts.current_command@,
            r.project_type == spec_project_type(*facts),
    {
        Context {
            current_dir: facts.current_dir.clone(),
            in_git_repo: self.is_git_repository(facts),
            in_docker_context: self.is_docker_context(facts),
            current_command: facts.current_command.clone(),
            project_type: self.detect_project_type(facts),
        }
    }

    /// Whether the facts show a git repository.
    pub fn is_git_repository(&self, facts: &ContextFacts) -> (r: bool)
        ensures
            r == spec_is_git_repository(*facts),
    {
        if facts.has_git_dir {
            return true;
        }
        match facts.git_reports_work_tree {
            Some(ok) => ok,
            None => false,
        }
    }

    /// Whether the facts show a container project.
    pub fn is_docker_context(&self, facts: &ContextFacts) -> (r: bool)
        ensures
            r == spec_is_docker_context(*facts),
    {
        facts.has_dockerfile || facts.has_compose_file
    }

    /// The project kind the marker files show.
    pub fn detect_project_type(&self, facts: &ContextFacts) -> (r: ProjectType)
        ensures
            r == spec_project_type(*facts),
    {
        if facts.has_cargo_manifest {
            ProjectType::Rust
        } else if facts.has_node_manifest {
            ProjectType::Node
        } else if facts.has_requirements_file || facts.has_setup_script {
            ProjectType::Python
        } else if facts.has_go_module {
            ProjectType::Go
        } else {
            ProjectType::Unknown
        }
    }
}

/// Working-tree status flags parsed from the porcelain listing.
#[derive(Clone, Copy, Debug, PartialEq, Eq, Structural)]
pub struct GitStatus {
    /// Some tracked file is modified
    pub has_modified: bool,
    /// Some file is untracked
    pub has_untracked: bool,
}

/// Whether position `i` starts a line.
pub open spec fn line_start(s: Seq<u8>, i: int) -> bool {
    i == 0 || s[i - 1] == 10
}

/// Whether a line starting at `i` marks a modified file: it begins with
/// `M` or ` M`.
pub open spec fn modified_at(s: Seq<u8>, i: int) -> bool {
    &&& 0 <= i < s.len()
    &&& line_start(s, i)
    &&& (s[i] == 77 || (s[i] == 32 && i + 1 < s.len() && s[i + 1] == 77))
}

/// Whether a line starting at `i` marks an untracked file: it begins
/// with `??`.
pub open spec fn untracked_at(s: Seq<u8>, i: int) -> bool {
    &&& 0 <= i < s.len()
    &&& line_start(s, i)
    &&& s[i] == 63
    &&& i + 1 < s.len()
    &&& s[i + 1] == 63
}

/// Reads the porcelain status listing: a line beginning `M` or ` M`
/// shows a modified file, a line beginning `??` an untracked one.
#[verifier::loop_isolation(false)]
pub fn parse_git_status(output: &[u8]) -> (r: GitStatus)
    ensures
        r.has_modified == exists|i: int| modified_at(output@, i),
        r.has_untracked == exists|i: int| untracked_at(output@, i),
{
    let mut has_modified = false;
    let mut has_untracked = false;
    let mut i: usize = 0;
    while i < output.len()
        invariant
            0 <= i <= output@.len(),
            has_modified == exists|k: int| k < i && #[trigger] modified_at(output@, k),
            has_untracked == exists|k: int| k < i && #[trigger] untracked_at(output@, k),
        decreases output@.len() - i,
    {
        let at_start = i == 0 || output[i - 1] == 10;
        if at_start {
            let b = output[i];
            if b == 77 || (b == 32 && i + 1 < output.len() && output[i + 1] == 77) {
                proof {
                    assert(modified_at(output@, i as int));
                }
                has_modified = true;
            }
            if b == 63 && i + 1 < output.len() && output[i + 1] == 63 {
                proof {
                    assert(untracked_at(output@, i as int));
                }
                has_untracked = true;
            }
        }
        proof {
            if !has_modified && modified_at(output@, i as int) {
                assert(false);
            }
            if !has_untracked && untracked_at(output@, i as int) {
                assert(false);
            }
        }
        i = i + 1;
    }
    GitStatus { has_modified, has_untracked }
}

/// The offset of the first newline in `s`, or the length when there is
/// none.
pub open spec fn first_nl(s: Seq<u8>) -> nat
    decreases s.len(),
{
    if s.len() == 0 {
        0
    } else if s.first() == 10 {
        0
    } else {
        1 + first_nl(s.drop_first())
    }
}

pub proof fn lemma_first_nl(s: Seq<u8>)
    ensures
        first_nl(s) <= s.len(),
        forall|i: int| 0 <= i < first_nl(s) ==> s[i] != 10,
        first_nl(s) < s.len() ==> s[first_nl(s) as int] == 10,
    decreases s.len(),
{
    if s.len() > 0 && s.first() != 10 {
        lemma_first_nl(s.drop_first());
        assert forall|i: int| 0 <= i < first_nl(s) implies s[i] != 10 by {
            if i > 0 {
                assert(s.drop_first()[i - 1] == s[i]);
                assert(s.drop_first()[i - 1] != 10);
            }
        }
        if first_nl(s) < s.len() {
            assert(s.drop_first()[first_nl(s.drop_first()) as int] == 10);
            assert(s[first_nl(s) as int] == s.drop_first()[first_nl(s) - 1]);
        }
    }
}

/// `s` split at newlines. A trailing newline yields no empty last line.
pub open spec fn spec_lines(s: Seq<u8>) -> Seq<Seq<u8>>
    decreases s.len(),
{
    if s.len() == 0 {
        Seq::<Seq<u8>>::empty()
    } else {
        let e = first_nl(s) as int;
        if e >= s.len() {
            seq![s]
        } else {
            seq![s.subrange(0, e)] + spec_lines(s.subrange(e + 1, s.len() as int))
        }
    }
}

/// Blank bytes for trimming: space, tab, carriage return.
pub open spec fn is_blank(b: u8) -> bool {
    b == 32 || b == 9 || b == 13
}

/// How many blank bytes `s` begins with.
pub open spec fn trim_start_idx(s: Seq<u8>) -> nat
    decreases s.len(),
{
    if s.len() == 0 {
        0
    } else if is_blank(s.first()) {
        1 + trim_start_idx(s.drop_first())
    } else {
        0
    }
}

proof fn lemma_trim_start(s: Seq<u8>)
    ensures
        trim_start_idx(s) <= s.len(),
        forall|i: int| 0 <= i < trim_start_idx(s) ==> is_blank(s[i]),
        trim_start_idx(s) < s.len() ==> !is_blank(s[trim_start_idx(s) as int]),
    decreases s.len(),
{
    if s.len() > 0 && is_blank(s.first()) {
        lemma_trim_start(s.drop_first());
        assert forall|i: int| 0 <= i < trim_start_idx(s) implies is_blank(s[i]) by {
            if i > 0 {
                assert(s.drop_first()[i - 1] == s[i]);
                assert(is_blank(s.drop_first()[i - 1]));
            }
        }
        if trim_start_idx(s) < s.len() {
            assert(s[trim_start_idx(s) as int] == s.drop_first()[trim_start_idx(s) - 1]);
        }
    }
}

/// Where the trailing blank run of `s` begins.
pub open spec fn trim_end_idx(s: Seq<u8>) -> nat
    decreases s.len(),
{
    if s.len() == 0 {
        0
    } else if is_blank(s.last()) {
        trim_end_idx(s.drop_last())
    } else {
        s.len()
    }
}

proof fn lemma_trim_end(s: Seq<u8>)
    ensures
        trim_end_idx(s) <= s.len(),
        forall|i: int| trim_end_idx(s) <= i < s.len() ==> is_blank(s[i]),
        trim_end_idx(s) > 0 ==> !is_blank(s[trim_end_idx(s) - 1]),
    decreases s.len(),
{
    if s.len() > 0 && is_blank(s.last()) {
        lemma_trim_end(s.drop_last());
        assert(forall|i: int| 0 <= i < s.drop_last().len() ==> s.drop_last()[i] == #[trigger] s[i]);
    }
}

/// `s` with leading and trailing blanks removed.
pub open spec fn spec_trimmed(s: Seq<u8>) -> Seq<u8> {
    if trim_start_idx(s) >= trim_end_idx(s) {
        Seq::<u8>::empty()
    } else {
        s.subrange(trim_start_idx(s) as int, trim_end_idx(s) as int)
    }
}

/// The branch name on one listing line: the trimmed line, with a leading
/// `*` marker and the byte after it removed.
pub open spec fn branch_of(line: Seq<u8>) -> Seq<u8> {
    let t = spec_trimmed(line);
    if t.len() >= 1 && t[0] == 42 {
        if t.len() >= 2 {
            t.subrange(2, t.len() as int)
        } else {
            Seq::<u8>::empty()
        }
    } else {
        t
    }
}

/// The branch names of all lines whose bytes decode as text.
pub open spec fn branch_list(lines: Seq<Seq<u8>>) -> Seq<Seq<u8>>
    decreases lines.len(),
{
    if lines.len() == 0 {
        Seq::<Seq<u8>>::empty()
    } else {
        let b = branch_of(lines.first());
        let rest = branch_list(lines.drop_first());
        if valid_utf8(b) {
            seq![b] + rest
        } else {
            rest
        }
    }
}

/// The line with leading and trailing blanks removed.
#[verifier::loop_isolation(false)]
pub fn trimmed_bytes(line: &[u8]) -> (r: &[u8])
    ensures
        r@ == spec_trimmed(line@),
{
    let mut a: usize = 0;
    let e = line.len();
    while a < e && (line[a] == 32 || line[a] == 9 || line[a] == 13)
        invariant
            0 <= a <= e,
            e == line@.len(),
            forall|k: int| 0 <= k < a ==> is_blank(line@[k]),
        decreases e - a,
    {
        a = a + 1;
    }
    let mut b: usize = e;
    while b > a && (line[b - 1] == 32 || line[b - 1] == 9 || line[b - 1] == 13)
        invariant
            a <= b <= e,
            forall|k: int| b <= k < e ==> is_blank(line@[k]),
        decreases b,
    {
        b = b - 1;
    }
    proof {
        lemma_trim_start(line@);
        lemma_trim_end(line@);
        if a == e && b == a {
            assert(trim_start_idx(line@) == line@.len()) by {
                if trim_start_idx(line@) < line@.len() {
                    assert(is_blank(line@[trim_start_idx(line@) as int]));
                }
            }
            assert(spec_trimmed(line@) =~= line@.subrange(a as int, b as int));
        } else {
            assert(trim_start_idx(line@) == a) by {
                if trim_start_idx(line@) < a {
                    assert(is_blank(line@[trim_start_idx(line@) as int]));
                }
                if trim_start_idx(line@) > a {
                    assert(!is_blank(line@[a as int]));
                }
            }
            assert(trim_end_idx(line@) == b) by {
                if trim_end_idx(line@) < b {
                    assert(b > a);
                    assert(!is_blank(line@[b - 1]));
                    assert(is_blank(line@[b - 1]));
                }
                if trim_end_idx(line@) > b {
                    assert(!is_blank(line@[trim_end_idx(line@) - 1]));
                    assert(is_blank(line@[trim_end_idx(line@) - 1]));
                }
            }
            assert(spec_trimmed(line@) =~= line@.subrange(a as int, b as int));
        }
    }
    &line[a..b]
}

/// The branch name on one line, as bytes: the line trimmed, with a
/// leading `*` marker and the byte after it removed.
fn branch_of_line(line: &[u8]) -> (r: &[u8])
    ensures
        r@ == branch_of(line@),
{
    let t = trimmed_bytes(line);
    if t.len() >= 1 && t[0] == 42 {
        if t.len() >= 2 {
            proof {
                assert(t@.subrange(2, t@.len() as int) =~= branch_of(line@));
            }
            let n = t.len();
            &t[2..n]
        } else {
            proof {
                assert(branch_of(line@) =~= Seq::<u8>::empty());
            }
            &t[0..0]
        }
    } else {
        t
    }
}

/// Reads a branch listing: one name per line, the current branch marked
/// by a leading `*`. A line whose bytes do not decode as text is left
/// out whole — deliberately no replacement characters, so every
/// returned name consists of bytes the tool actually printed.
#[verifier::loop_isolation(false)]
#[verifier::rlimit(60)]
pub fn parse_branch_listing(output: &[u8]) -> (r: Vec<String>)
    ensures
        r@.len() == branch_list(spec_lines(output@)).len(),
        forall|i: int|
            0 <= i < r@.len() ==> encode_utf8(#[trigger] r@[i]@) == branch_list(
                spec_lines(output@),
            )[i],
{
    let ghost full = branch_list(spec_lines(output@));
    let mut out: Vec<String> = Vec::new();
    let ghost mut produced: Seq<Seq<u8>> = Seq::empty();
    let mut pos: usize = 0;
    proof {
        assert(output@.subrange(0, output@.len() as int) =~= output@);
        assert(produced + branch_list(spec_lines(output@)) =~= branch_list(spec_lines(output@)));
    }
    while pos < output.len()
        invariant
            0 <= pos <= output@.len(),
            out@.len() == produced.len(),
            forall|i: int| 0 <= i < produced.len() ==> encode_utf8(#[trigger] out@[i]@) == produced[i],
            full == produced + branch_list(
                spec_lines(output@.subrange(pos as int, output@.len() as int)),
            ),
        decreases output@.len() - pos,
    {
        let ghost rem = output@.subrange(pos as int, output@.len() as int);
        // find the end of the line
        let mut e: usize = pos;
        while e < output.len() && output[e] != 10
            invariant
                pos <= e <= output@.len(),
                forall|k: int| pos <= k < e ==> output@[k] != 10,
            decreases output@.len() - e,
        {
            e = e + 1;
        }
        let ghost line = output@.subrange(pos as int, e as int);
        proof {
            lemma_first_nl(rem);
            assert(first_nl(rem) == e - pos) by {
                if first_nl(rem) < e - pos {
                    assert(output@[pos + first_nl(rem)] == 10);
                }
                if first_nl(rem) > e - pos {
                    assert(e < output@.len());
                    assert(rem[e - pos] != 10);
                }
            }
            assert(line =~= rem.subrange(0, first_nl(rem) as int));
        }
        let piece = branch_of_line(&output[pos..e]);
        let tv = vstd::slice::slice_to_vec(piece);
        match text::string_from_utf8(tv) {
            Some(t) => {
                out.push(t);
                proof {
                    produced = produced.push(branch_of(line));
                }
            },
            None => {},
        }
        let next = if e < output.len() {
            e + 1
        } else {
            e
        };
        proof {
            let rem2 = output@.subrange(next as int, output@.len() as int);
            if (e as int) < output@.len() {
                assert(rem2 =~= rem.subrange(first_nl(rem) as int + 1, rem.len() as int));
                assert(spec_lines(rem) =~= seq![line] + spec_lines(rem2));
            } else {
                assert(rem2 =~= Seq::<u8>::empty());
                assert(line =~= rem);
                assert(spec_lines(rem) =~= seq![line]);
                assert(spec_lines(rem2) =~= Seq::<Seq<u8>>::empty());
            }
            assert(spec_lines(rem).first() == line);
            assert(spec_lines(rem).drop_first() =~= spec_lines(rem2));
            if valid_utf8(branch_of(line)) {
                assert(branch_list(spec_lines(rem)) =~= seq![branch_of(line)] + branch_list(
                    spec_lines(rem2),
                ));
                assert(full =~= produced + branch_list(spec_lines(rem2)));
            } else {
                assert(branch_list(spec_lines(rem)) =~= branch_list(spec_lines(rem2)));
            }
        }
        pos = next;
    }
    proof {
        assert(spec_lines(output@.subrange(pos as int, output@.len() as int))
            =~= Seq::<Seq<u8>>::empty());
        assert(full =~= produced);
    }
    out
}

} // verus!
