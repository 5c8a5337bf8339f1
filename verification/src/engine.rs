//! The prediction engine: cache lookup, context analysis, fan-out to the
//! prediction sources, learning adjustment, ranking, cache population.
//!
//! A cache hit answers immediately with the cached list; cached scores
//! are final. On a miss the sources contribute candidates, the learning
//! store boosts them, the ranker orders and deduplicates them, the list
//! is cut to the caller's limit and written back into the cache. The
//! sources are independent functions of the input and the context, so
//! an embedding application may run them in any order or concurrently;
//! the ranked result is the same either way.

use vstd::prelude::*;
use vstd::string::*;
use crate::cache::{has_key, has_live_key, set_model, PredictionCache};
use crate::context::{Context, ContextAnalyzer, ContextFacts, ProjectType};
use crate::learning::{adjust_model, UserLearningSystem};
use crate::models::{preds_eq, Confidence, Prediction, PredictionSource, PredictionType};
use crate::ranking::{rank_spec, PredictionRanker};
use crate::text;

verus! {

/// How many entries the prediction cache holds.
pub const CACHE_ENTRIES: usize = 1000;

/// How long a cache entry stays fresh, in milliseconds.
pub const CACHE_TTL_MS: u64 = 300000;

/// A freshly built candidate with the given text, kind, provenance and
/// confidence, stamped `now`.
pub open spec fn fresh_pred(
    p: Prediction,
    t: Seq<char>,
    ty: PredictionType,
    src: PredictionSource,
    conf: u32,
    now: u64,
) -> bool {
    &&& p.text@ == t
    &&& p.display_text@ == t
    &&& p.prediction_type == ty
    &&& p.source == src
    &&& p.confidence == Confidence(conf)
    &&& p.tokens_completed == 1
    &&& p.explanation is None
    &&& p.usage_count == 0
    &&& p.timestamp == now
    &&& p.metadata@.len() == 0
}

/// What the history source yields for each input.
pub open spec fn history_model(s: Seq<Prediction>, input: Seq<char>, now: u64) -> bool {
    if input.len() == 0 {
        &&& s.len() == 2
        &&& fresh_pred(
            s[0],
            "ls -la"@,
            PredictionType::FullCommand,
            PredictionSource::History,
            800,
            now,
        )
        &&& fresh_pred(
            s[1],
            "git status"@,
            PredictionType::FullCommand,
            PredictionSource::History,
            700,
            now,
        )
    } else if input == "g"@ {
        &&& s.len() == 1
        &&& fresh_pred(s[0], "git "@, PredictionType::NextToken, PredictionSource::History, 900, now)
    } else if input == "git "@ {
        &&& s.len() == 2
        &&& fresh_pred(
            s[0],
            "git status"@,
            PredictionType::FullCommand,
            PredictionSource::History,
            850,
            now,
        )
        &&& fresh_pred(
            s[1],
            "git pull"@,
            PredictionType::FullCommand,
            PredictionSource::History,
            800,
            now,
        )
    } else {
        s.len() == 0
    }
}

/// What the directory-context source yields for each input and project
/// kind.
pub open spec fn directory_model(s: Seq<Prediction>, input: Seq<char>, pt: ProjectType, now: u64) -> bool {
    if (input.len() == 0 || input == "."@ || input == "./"@) && pt
        == ProjectType::Rust {
        &&& s.len() == 2
        &&& fresh_pred(
            s[0],
            "cargo run"@,
            PredictionType::FullCommand,
            PredictionSource::DirectoryContext,
            850,
            now,
        )
        &&& fresh_pred(
            s[1],
            "cargo build"@,
            PredictionType::FullCommand,
            PredictionSource::DirectoryContext,
            800,
            now,
        )
    } else if (input.len() == 0 || input == "."@ || input == "./"@) && pt
        == ProjectType::Node {
        &&& s.len() == 2
        &&& fresh_pred(
            s[0],
            "npm run dev"@,
            PredictionType::FullCommand,
            PredictionSource::DirectoryContext,
            850,
            now,
        )
        &&& fresh_pred(
            s[1],
            "npm install"@,
            PredictionType::FullCommand,
            PredictionSource::DirectoryContext,
            800,
            now,
        )
    } else {
        s.len() == 0
    }
}

/// What the project-type source yields for each input and project kind.
pub open spec fn project_model(s: Seq<Prediction>, input: Seq<char>, pt: ProjectType, now: u64) -> bool {
    if input.len() == 0 && pt == ProjectType::Rust {
        &&& s.len() == 1
        &&& fresh_pred(
            s[0],
            "cargo test"@,
            PredictionType::FullCommand,
            PredictionSource::ProjectType,
            700,
            now,
        )
    } else if input.len() == 0 && pt == ProjectType::Python {
        &&& s.len() == 1
        &&& fresh_pred(
            s[0],
            "python -m venv .venv"@,
            PredictionType::FullCommand,
            PredictionSource::ProjectType,
            700,
            now,
        )
    } else {
        s.len() == 0
    }
}

/// What the git-context source yields for each input.
pub open spec fn git_model(s: Seq<Prediction>, input: Seq<char>, now: u64) -> bool {
    if input.len() == 0 {
        &&& s.len() == 1
        &&& fresh_pred(
            s[0],
            "git status"@,
            PredictionType::FullCommand,
            PredictionSource::GitContext,
            800,
            now,
        )
    } else if input == "git "@ {
        &&& s.len() == 2
        &&& fresh_pred(
            s[0],
            "git checkout "@,
            PredictionType::NextToken,
            PredictionSource::GitContext,
            700,
            now,
        )
        &&& fresh_pred(
            s[1],
            "git pull origin main"@,
            PredictionType::FullCommand,
            PredictionSource::GitContext,
            750,
            now,
        )
    } else {
        s.len() == 0
    }
}

/// How many candidates the history source yields.
pub open spec fn history_len(input: Seq<char>) -> int {
    if input.len() == 0 {
        2
    } else if input == "g"@ {
        1
    } else if input == "git "@ {
        2
    } else {
        0
    }
}

/// How many candidates the directory-context source yields.
pub open spec fn directory_len(input: Seq<char>, pt: ProjectType) -> int {
    if (input.len() == 0 || input == "."@ || input == "./"@) && (pt == ProjectType::Rust || pt
        == ProjectType::Node) {
        2
    } else {
        0
    }
}

/// How many candidates the project-type source yields.
pub open spec fn project_len(input: Seq<char>, pt: ProjectType) -> int {
    if input.len() == 0 && (pt == ProjectType::Rust || pt == ProjectType::Python) {
        1
    } else {
        0
    }
}

/// How many candidates the git-context source yields.
pub open spec fn git_len(input: Seq<char>, in_git_repo: bool) -> int {
    if !in_git_repo {
        0
    } else if input.len() == 0 {
        1
    } else if input == "git "@ {
        2
    } else {
        0
    }
}

/// The merged output of the sources, in fan-out order: history, then
/// directory context, then project type, then — inside a repository —
/// git context.
pub open spec fn merged_model(
    m: Seq<Prediction>,
    input: Seq<char>,
    in_git_repo: bool,
    pt: ProjectType,
    now: u64,
) -> bool {
    let hl = history_len(input);
    let dl = directory_len(input, pt);
    let pl = project_len(input, pt);
    let gl = git_len(input, in_git_repo);
    &&& m.len() == hl + dl + pl + gl
    &&& history_model(m.subrange(0, hl), input, now)
    &&& directory_model(m.subrange(hl, hl + dl), input, pt, now)
    &&& project_model(m.subrange(hl + dl, hl + dl + pl), input, pt, now)
    &&& (in_git_repo ==> git_model(m.subrange(hl + dl + pl, hl + dl + pl + gl), input, now))
}

/// The first `limit` elements.
pub open spec fn take_limit(s: Seq<Prediction>, limit: usize) -> Seq<Prediction> {
    if s.len() <= limit {
        s
    } else {
        s.subrange(0, limit as int)
    }
}

/// The full miss-path pipeline: merge, boost, rank, cut.
pub open spec fn pipeline_model(
    r: Seq<Prediction>,
    patterns: Seq<crate::learning::LearnedPattern>,
    input: Seq<char>,
    in_git_repo: bool,
    pt: ProjectType,
    limit: usize,
    now: u64,
) -> bool {
    exists|m: Seq<Prediction>|
        #[trigger] merged_model(m, input, in_git_repo, pt, now) && r == take_limit(
            rank_spec(adjust_model(patterns, m)),
            limit,
        )
}

/// The prediction pipeline's orchestrator. Shared across requests by the
/// embedding application; here a plain value.
pub struct PredictionEngine {
    /// Derives the context snapshot from environment facts
    pub context_analyzer: ContextAnalyzer,
    /// Orders and deduplicates the merged candidates
    pub prediction_ranker: PredictionRanker,
    /// The acceptance store that boosts learned commands
    pub user_learning: UserLearningSystem,
    /// The input-to-candidates cache
    pub prediction_cache: PredictionCache,
}

impl PredictionEngine {
    /// The engine invariant: the cache and the store are well formed.
    pub open spec fn wf(self) -> bool {
        &&& self.prediction_cache.wf()
        &&& self.user_learning.wf()
    }

    /// An engine with an empty cache and an empty learning store.
    pub fn new() -> (r: Self)
        ensures
            r.wf(),
            r.prediction_cache.entries@.len() == 0,
            r.prediction_cache.max_entries == CACHE_ENTRIES,
            r.prediction_cache.entry_ttl_ms == CACHE_TTL_MS,
            r.user_learning.patterns@.len() == 0,
            r.user_learning.modification_count == 0,
    {
        PredictionEngine {
            context_analyzer: ContextAnalyzer::new(),
            prediction_ranker: PredictionRanker::new(),
            user_learning: UserLearningSystem::new(),
            prediction_cache: PredictionCache::new(CACHE_ENTRIES, CACHE_TTL_MS),
        }
    }

    /// Candidates drawn from command history for the current input.
    pub fn predict_from_history(input: &str, now_ms: u64) -> (r: Vec<Prediction>)
        ensures
            history_model(r@, input@, now_ms),
    {
        let mut predictions: Vec<Prediction> = Vec::new();
        if input.is_empty() {
            predictions.push(
                Prediction::new(
                    "ls -la".to_owned(),
                    PredictionType::FullCommand,
                    PredictionSource::History,
                    Confidence(800),
                    now_ms,
                ),
            );
            predictions.push(
                Prediction::new(
                    "git status".to_owned(),
                    PredictionType::FullCommand,
                    PredictionSource::History,
                    Confidence(700),
                    now_ms,
                ),
            );
        } else if text::str_eq(input, "g") {
            predictions.push(
                Prediction::new(
                    "git ".to_owned(),
                    PredictionType::NextToken,
                    PredictionSource::History,
                    Confidence(900),
                    now_ms,
                ),
            );
        } else if text::str_eq(input, "git ") {
            predictions.push(
                Prediction::new(
                    "git status".to_owned(),
                    PredictionType::FullCommand,
                    PredictionSource::History,
                    Confidence(850),
                    now_ms,
                ),
            );
            predictions.push(
                Prediction::new(
                    "git pull".to_owned(),
                    PredictionType::FullCommand,
                    PredictionSource::History,
                    Confidence(800),
                    now_ms,
                ),
            );
        }
        predictions
    }

    /// Candidates drawn from the directory's contents for the current
    /// input and context.
    pub fn predict_from_directory_context(input: &str, context: &Context, now_ms: u64) -> (r: Vec<
        Prediction,
    >)
        ensures
            directory_model(r@, input@, context.project_type, now_ms),
    {
        let mut predictions: Vec<Prediction> = Vec::new();
        if input.is_empty() || text::str_eq(input, ".") || text::str_eq(input, "./") {
            match context.project_type {
                ProjectType::Rust => {
                    predictions.push(
                        Prediction::new(
                            "cargo run".to_owned(),
                            PredictionType::FullCommand,
                            PredictionSource::DirectoryContext,
                            Confidence(850),
                            now_ms,
                        ),
                    );
                    predictions.push(
                        Prediction::new(
                            "cargo build".to_owned(),
                            PredictionType::FullCommand,
                            PredictionSource::DirectoryContext,
                            Confidence(800),
                            now_ms,
                        ),
                    );
                },
                ProjectType::Node => {
                    predictions.push(
                        Prediction::new(
                            "npm run dev".to_owned(),
                            PredictionType::FullCommand,
                            PredictionSource::DirectoryContext,
                            Confidence(850),
                            now_ms,
                        ),
                    );
                    predictions.push(
                        Prediction::new(
                            "npm install".to_owned(),
                            PredictionType::FullCommand,
                            PredictionSource::DirectoryContext,
                            Confidence(800),
                            now_ms,
                        ),
                    );
                },
                _ => {},
            }
        }
        predictions
    }

    /// Candidates drawn from the detected project kind for the current
    /// input and context.
    pub fn predict_from_project_context(input: &str, context: &Context, now_ms: u64) -> (r: Vec<
        Prediction,
    >)
        ensures
            project_model(r@, input@, context.project_type, now_ms),
    {
        let mut predictions: Vec<Prediction> = Vec::new();
        if input.is_empty() {
            match context.project_type {
                ProjectType::Rust => {
                    predictions.push(
                        Prediction::new(
                            "cargo test".to_owned(),
                            PredictionType::FullCommand,
                            PredictionSource::ProjectType,
                            Confidence(700),
                            now_ms,
                        ),
                    );
                },
                ProjectType::Python => {
                    predictions.push(
                        Prediction::new(
                            "python -m venv .venv".to_owned(),
                            PredictionType::FullCommand,
                            PredictionSource::ProjectType,
                            Confidence(700),
                            now_ms,
                        ),
                    );
                },
                _ => {},
            }
        }
        predictions
    }

    /// Candidates drawn from repository state for the current input.
    pub fn predict_from_git_context(input: &str, _context: &Context, now_ms: u64) -> (r: Vec<
        Prediction,
    >)
        ensures
            git_model(r@, input@, now_ms),
    {
        let mut predictions: Vec<Prediction> = Vec::new();
        if input.is_empty() {
            predictions.push(
                Prediction::new(
                    "git status".to_owned(),
                    PredictionType::FullCommand,
                    PredictionSource::GitContext,
                    Confidence(800),
                    now_ms,
                ),
            );
        } else if text::str_eq(input, "git ") {
            predictions.push(
                Prediction::new(
                    "git checkout ".to_owned(),
                    PredictionType::NextToken,
                    PredictionSource::GitContext,
                    Confidence(700),
                    now_ms,
                ),
            );
            predictions.push(
                Prediction::new(
                    "git pull origin main".to_owned(),
                    PredictionType::FullCommand,
                    PredictionSource::GitContext,
                    Confidence(750),
                    now_ms,
                ),
            );
        }
        predictions
    }

    /// The miss path: fan out to the sources, merge, boost accepted
    /// commands, rank, and cut to `limit`.
    fn generate_predictions(&mut self, input: &str, context: &Context, limit: usize, now_ms: u64) -> (r: Vec<Prediction>)
        requires
            old(self).wf(),
        ensures
            final(self).wf(),
            *final(self) == (PredictionEngine { user_learning: final(self).user_learning, ..*old(self) }),
            final(self).user_learning == old(self).user_learning,
            pipeline_model(
                r@,
                old(self).user_learning.patterns@,
                input@,
                context.in_git_repo,
                context.project_type,
                limit,
                now_ms,
            ),
    {
        let mut merged = Self::predict_from_history(input, now_ms);
        let ghost h = merged@;
        let mut from_dir = Self::predict_from_directory_context(input, context, now_ms);
        let ghost d = from_dir@;
        merged.append(&mut from_dir);
        let mut from_project = Self::predict_from_project_context(input, context, now_ms);
        let ghost p = from_project@;
        merged.append(&mut from_project);
        let mut from_git: Vec<Prediction> = if context.in_git_repo {
            Self::predict_from_git_context(input, context, now_ms)
        } else {
            Vec::new()
        };
        let ghost g = from_git@;
        merged.append(&mut from_git);
        proof {
            assert(merged@ =~= h + d + p + g);
            let hl = history_len(input@);
            let dl = directory_len(input@, context.project_type);
            let pl = project_len(input@, context.project_type);
            let gl = git_len(input@, context.in_git_repo);
            assert(h.len() == hl && d.len() == dl && p.len() == pl && g.len() == gl);
            assert(merged@.subrange(0, hl) =~= h);
            assert(merged@.subrange(hl, hl + dl) =~= d);
            assert(merged@.subrange(hl + dl, hl + dl + pl) =~= p);
            assert(merged@.subrange(hl + dl + pl, hl + dl + pl + gl) =~= g);
            assert(merged_model(
                merged@,
                input@,
                context.in_git_repo,
                context.project_type,
                now_ms,
            ));
        }
        let ghost m = merged@;
        self.user_learning.adjust_scores(&mut merged, input);
        self.prediction_ranker.rank(&mut merged);
        proof {
            assert(merged@ == rank_spec(adjust_model(self.user_learning.patterns@, m)));
        }
        let ghost ranked = merged@;
        merged.truncate(limit);
        proof {
            assert(merged@ == take_limit(ranked, limit));
        }
        merged
    }

    /// The primary entry point: the ranked, deduplicated candidate list
    /// for `input`, at most `limit` long. A live cache entry answers as
    /// it is; otherwise the full pipeline runs and a non-empty result is
    /// cached under the raw input.
    pub fn predict(&mut self, input: &str, limit: usize, now_ms: u64, facts: &ContextFacts) -> (r:
        Vec<Prediction>)
        requires
            old(self).wf(),
        ensures
            final(self).wf(),
            final(self).prediction_cache.max_entries == old(self).prediction_cache.max_entries,
            final(self).prediction_cache.entry_ttl_ms == old(self).prediction_cache.entry_ttl_ms,
            final(self).user_learning == old(self).user_learning,
            // a live cache entry answers unchanged
            has_live_key(
                old(self).prediction_cache.entries@,
                input@,
                now_ms,
                old(self).prediction_cache.entry_ttl_ms,
            ) ==> {
                &&& *final(self) == *old(self)
                &&& forall|i: int|
                    0 <= i < old(self).prediction_cache.entries@.len() && #[trigger] old(
                        self,
                    ).prediction_cache.entries@[i].key@ == input@ ==> preds_eq(
                        r@,
                        old(self).prediction_cache.entries@[i].predictions@,
                    )
            },
            // a miss runs the pipeline on the analyzed context
            !has_live_key(
                old(self).prediction_cache.entries@,
                input@,
                now_ms,
                old(self).prediction_cache.entry_ttl_ms,
            ) ==> {
                &&& pipeline_model(
                    r@,
                    old(self).user_learning.patterns@,
                    input@,
                    crate::context::spec_is_git_repository(*facts),
                    crate::context::spec_project_type(*facts),
                    limit,
                    now_ms,
                )
                &&& (r@.len() > 0 ==> exists|i: int|
                    {
                        &&& 0 <= i < final(self).prediction_cache.entries@.len()
                        &&& #[trigger] final(self).prediction_cache.entries@[i].key@ == input@
                        &&& final(self).prediction_cache.entries@[i].timestamp == now_ms
                        &&& preds_eq(final(self).prediction_cache.entries@[i].predictions@, r@)
                    })
                &&& (r@.len() == 0 ==> final(self).prediction_cache.entries@ == old(
                    self,
                ).prediction_cache.entries@)
            },
    {
        // fast path: a live cached answer is final
        match self.prediction_cache.get(input, now_ms) {
            Some(predictions) => {
                return predictions;
            },
            None => {},
        }
        // derive the context snapshot from the environment facts
        let context = self.context_analyzer.analyze(facts);
        // fan out, merge, boost, rank, cut
        let result = self.generate_predictions(input, &context, limit, now_ms);
        // cache the final list under the raw input
        let ghost before = self.prediction_cache.entries@;
        let key = input.to_owned();
        let ghost keyv = key;
        let cached = clone_predictions(&result);
        let ghost cachedv = cached;
        self.prediction_cache.set(key, cached, now_ms);
        proof {
            if result@.len() > 0 {
                let entries = self.prediction_cache.entries@;
                let model = set_model(
                    before,
                    keyv,
                    cachedv,
                    now_ms,
                    old(self).prediction_cache.entry_ttl_ms,
                    old(self).prediction_cache.max_entries,
                );
                assert(entries == model);
                let base = if before.len() >= old(self).prediction_cache.max_entries {
                    crate::cache::cleanup_model(
                        before,
                        now_ms,
                        old(self).prediction_cache.entry_ttl_ms,
                        old(self).prediction_cache.max_entries,
                    )
                } else {
                    before
                };
                if has_key(base, keyv@) {
                    let i = choose|i: int|
                        0 <= i < base.len() && #[trigger] base[i].key@ == keyv@;
                    assert(entries[i].key@ == input@);
                    assert(entries[i].timestamp == now_ms);
                    assert(preds_eq(entries[i].predictions@, result@)) by {
                        assert(preds_eq(cachedv@, result@));
                    }
                } else {
                    let i = base.len() as int;
                    assert(entries[i].key@ == input@);
                    assert(preds_eq(entries[i].predictions@, result@)) by {
                        assert(preds_eq(cachedv@, result@));
                    }
                }
            }
        }
        result
    }

    /// Records that the user accepted `prediction`, feeding the learning
    /// store; the result says whether a snapshot save is due.
    pub fn record_prediction_accepted(&mut self, prediction: &Prediction, now_secs: u64) -> (save_due: bool)
        requires
            old(self).wf(),
            old(self).user_learning.modification_count < u64::MAX,
        ensures
            final(self).wf(),
            *final(self) == (PredictionEngine { user_learning: final(self).user_learning, ..*old(self) }),
            crate::learning::recorded_acceptance(
                old(self).user_learning,
                final(self).user_learning,
                prediction.text@,
                now_secs,
            ),
            save_due == (old(self).user_learning.modification_count % crate::learning::SAVE_INTERVAL
                == 0),
    {
        self.user_learning.record_accepted_prediction(prediction, now_secs)
    }
}

/// A copy of a candidate list, equal entry for entry.
pub fn clone_predictions(v: &Vec<Prediction>) -> (r: Vec<Prediction>)
    ensures
        preds_eq(r@, v@),
{
    let mut r: Vec<Prediction> = Vec::new();
    let mut i: usize = 0;
    while i < v.len()
        invariant
            0 <= i <= v@.len(),
            r@.len() == i,
            forall|j: int| 0 <= j < i ==> crate::models::pred_eq(#[trigger] r@[j], #[trigger] v@[j]),
        decreases v@.len() - i,
    {
        r.push(v[i].clone());
        i = i + 1;
    }
    r
}

} // verus!
