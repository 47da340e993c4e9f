//! The six-stage matching engine and the single-target lookup.
use crate::algorithms::edges_fit;
use crate::pipeline::{
    all_edges_fit, build_matches, confidence_of, details_of, details_pair, passes, pipeline_matches,
    run_stages_exec, score_pair, similarity_of, MatchConfig, Scoring, Stage,
};
use crate::{
    functions_view, matches_view, ConfigError, FunctionInfo, FunctionMatch, FunctionView,
    MatchType, MatchView, SCORE_ONE,
};
use vstd::prelude::*;

verus! {

/// The stages in order: exact hash, name, MD-index, small primes, the
/// out-degree gate, fuzzy.
pub open spec fn six_stages() -> Seq<Stage> {
    seq![
        Stage::ExactHash,
        Stage::Name,
        Stage::MdIndex,
        Stage::SmallPrimes,
        Stage::Isomorphic,
        Stage::Fuzzy,
    ]
}

/// The tag of a single-target match: Exact above 0.9 similarity, else
/// Structural above 0.8 confidence, else Heuristic.
pub open spec fn single_match_type(similarity: nat, confidence: nat) -> MatchType {
    if similarity > 900_000 {
        MatchType::Exact
    } else if confidence > 800_000 {
        MatchType::StructuralMatch
    } else {
        MatchType::Heuristic
    }
}

pub open spec fn single_match(target: FunctionView, c: FunctionView) -> MatchView {
    MatchView {
        function_a: target,
        function_b: c,
        similarity: similarity_of(Scoring::Weighted, target, c) as u64,
        confidence: confidence_of(Scoring::Weighted, target, c) as u64,
        match_type: single_match_type(
            similarity_of(Scoring::Weighted, target, c),
            confidence_of(Scoring::Weighted, target, c),
        ),
        details: details_of(Scoring::Weighted, target, c),
    }
}

/// The matches of the candidates that pass both thresholds, in order.
pub open spec fn single_candidates(cfg: MatchConfig, target: FunctionView, cs: Seq<FunctionView>) -> Seq<
    MatchView,
>
    decreases cs.len(),
{
    if cs.len() == 0 {
        Seq::empty()
    } else {
        let rest = single_candidates(cfg, target, cs.drop_last());
        if passes(cfg, target, cs.last()) {
            rest.push(single_match(target, cs.last()))
        } else {
            rest
        }
    }
}

/// The first position whose confidence is below `c`.
pub open spec fn insert_position(sorted: Seq<MatchView>, c: u64, p: int) -> int
    decreases sorted.len() - p,
{
    if p < 0 || p >= sorted.len() || sorted[p].confidence < c {
        if p < 0 {
            0
        } else {
            p
        }
    } else {
        insert_position(sorted, c, p + 1)
    }
}

/// `ms` sorted by descending confidence, equal confidences in their order.
pub open spec fn sort_by_confidence(ms: Seq<MatchView>) -> Seq<MatchView>
    decreases ms.len(),
{
    if ms.len() == 0 {
        Seq::empty()
    } else {
        let sorted = sort_by_confidence(ms.drop_last());
        sorted.insert(insert_position(sorted, ms.last().confidence, 0), ms.last())
    }
}

pub struct MatchingEngine {
    pub confidence_threshold: u64,
    pub similarity_threshold: u64,
}

impl MatchingEngine {
    pub open spec fn config(&self) -> MatchConfig {
        MatchConfig {
            similarity_threshold: self.similarity_threshold,
            confidence_threshold: self.confidence_threshold,
            scoring: Scoring::Weighted,
        }
    }

    /// Confidence threshold 0.5, similarity threshold 0.6.
    pub fn new() -> (r: Self)
        ensures
            r.confidence_threshold == 500_000,
            r.similarity_threshold == 600_000,
    {
        MatchingEngine { confidence_threshold: 500_000, similarity_threshold: 600_000 }
    }

    /// An engine with the given thresholds, each of which must lie in [0, 1].
    pub fn with_thresholds(confidence: u64, similarity: u64) -> (r: Result<Self, ConfigError>)
        ensures
            confidence > SCORE_ONE ==> r == Err::<Self, ConfigError>(
                ConfigError::ConfidenceThresholdOutOfRange,
            ),
            confidence <= SCORE_ONE && similarity > SCORE_ONE ==> r == Err::<Self, ConfigError>(
                ConfigError::SimilarityThresholdOutOfRange,
            ),
            confidence <= SCORE_ONE && similarity <= SCORE_ONE ==> (r matches Ok(e)
                && e.confidence_threshold == confidence && e.similarity_threshold == similarity),
    {
        if confidence > SCORE_ONE {
            return Err(ConfigError::ConfidenceThresholdOutOfRange);
        }
        if similarity > SCORE_ONE {
            return Err(ConfigError::SimilarityThresholdOutOfRange);
        }
        Ok(MatchingEngine { confidence_threshold: confidence, similarity_threshold: similarity })
    }

    fn config_exec(&self) -> (r: MatchConfig)
        ensures
            r == self.config(),
    {
        MatchConfig {
            similarity_threshold: self.similarity_threshold,
            confidence_threshold: self.confidence_threshold,
            scoring: Scoring::Weighted,
        }
    }

    /// Runs the six stages and returns the matches, stage by stage.
    pub fn match_functions(&self, functions_a: &[FunctionInfo], functions_b: &[FunctionInfo]) -> (r: Vec<
        FunctionMatch,
    >)
        requires
            all_edges_fit(functions_view(functions_a@)),
            all_edges_fit(functions_view(functions_b@)),
        ensures
            matches_view(r@) == pipeline_matches(
                six_stages(),
                self.config(),
                functions_view(functions_a@),
                functions_view(functions_b@),
            ),
    {
        let stages = [
            Stage::ExactHash,
            Stage::Name,
            Stage::MdIndex,
            Stage::SmallPrimes,
            Stage::Isomorphic,
            Stage::Fuzzy,
        ];
        assert(stages@ =~= six_stages());
        let cfg = self.config_exec();
        let claims = run_stages_exec(&stages, cfg, functions_a, functions_b);
        build_matches(cfg, functions_a, functions_b, &claims)
    }

    /// Matches `target_function` against each candidate, keeps those that
    /// pass both thresholds and sorts them by descending confidence.
    pub fn match_single_function(&self, target_function: &FunctionInfo, candidates: &[FunctionInfo]) -> (r:
        Vec<FunctionMatch>)
        requires
            edges_fit(target_function@),
            all_edges_fit(functions_view(candidates@)),
        ensures
            matches_view(r@) == sort_by_confidence(
                single_candidates(self.config(), target_function@, functions_view(candidates@)),
            ),
    {
        let ghost cs = functions_view(candidates@);
        let ghost t = target_function@;
        let ghost cfg = self.config();
        let mut out: Vec<FunctionMatch> = Vec::new();
        let mut i: usize = 0;
        while i < candidates.len()
            invariant
                i <= candidates@.len(),
                cs == functions_view(candidates@),
                t == target_function@,
                cfg == self.config(),
                edges_fit(t),
                all_edges_fit(cs),
                matches_view(out@) == sort_by_confidence(single_candidates(cfg, t, cs.take(i as int))),
            decreases candidates@.len() - i,
        {
            assert(cs.take(i + 1).drop_last() =~= cs.take(i as int));
            assert(cs[i as int] == candidates@[i as int]@);
            assert(edges_fit(cs[i as int]));
            let c = &candidates[i];
            let (sim, conf) = score_pair(Scoring::Weighted, target_function, c);
            if sim >= self.similarity_threshold && conf >= self.confidence_threshold {
                let match_type = if sim > 900_000 {
                    MatchType::Exact
                } else if conf > 800_000 {
                    MatchType::StructuralMatch
                } else {
                    MatchType::Heuristic
                };
                let m = FunctionMatch {
                    function_a: target_function.clone(),
                    function_b: c.clone(),
                    similarity: sim,
                    confidence: conf,
                    match_type,
                    details: details_pair(Scoring::Weighted, target_function, c),
                };
                let ghost sorted = matches_view(out@);
                let ghost mv = m@;
                let ghost prev = single_candidates(cfg, t, cs.take(i as int));
                assert(mv == single_match(t, cs[i as int]));
                assert(single_candidates(cfg, t, cs.take(i + 1)) == prev.push(mv));
                assert(prev.push(mv).drop_last() =~= prev);
                let mut p: usize = 0;
                while p < out.len()
                    invariant
                        p <= out@.len(),
                        sorted == matches_view(out@),
                        mv.confidence == conf,
                        insert_position(sorted, conf, 0) == insert_position(sorted, conf, p as int),
                    ensures
                        p <= out@.len(),
                        insert_position(sorted, conf, 0) == p,
                    decreases out@.len() - p,
                {
                    if out[p].confidence < conf {
                        break;
                    }
                    p += 1;
                }
                out.insert(p, m);
                assert(matches_view(out@) =~= sorted.insert(p as int, mv));
            } else {
                assert(!passes(cfg, t, cs[i as int]));
            }
            i += 1;
        }
        assert(cs.take(candidates@.len() as int) =~= cs);
        out
    }
}

} // verus!
