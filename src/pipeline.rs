//! The staged matching machine that both engines drive.
//!
//! A run keeps which A- and B-functions are claimed and the pairs matched so
//! far. Each stage visits the unclaimed A-functions in order and pairs each
//! with an unclaimed B-function that the stage admits. First-fit stages take
//! the first such B-function in index order; ranking stages take the one with
//! the highest confidence, the first seen on ties. The fuzzy stage proposes
//! its targets against the claims at its start and commits them in A order.
use crate::algorithms::{
    bb_score, cfg_score, confidence, edge_score, edges_fit, function_similarity, instruction_score,
    isomorphic_gate, md_index, mnemonics, primes_product, DiffAlgorithms,
};
use crate::engine::{
    call_similarity, detailed_details, detailed_similarity, engine_confidence, name_similarity,
    shape_gate, BinaryDiffEngine,
};
use crate::{
    functions_view, matches_view, FunctionInfo, FunctionMatch, FunctionView, MatchDetails,
    MatchType, MatchView, SCORE_ONE,
};
use rayon::iter::{IntoParallelIterator, ParallelIterator};
use vstd::prelude::*;
use vstd::string::StrSliceExecFns;

verus! {

/// Which similarity and confidence a run scores pairs with.
#[derive(Debug, Clone, Copy, PartialEq, Eq, Structural)]
pub enum Scoring {
    /// The weighted similarity of `DiffAlgorithms` and its confidence.
    Weighted,
    /// The detailed similarity of `BinaryDiffEngine` and its confidence.
    Detailed,
}

/// A matching stage, named by the candidates it admits.
#[derive(Debug, Clone, Copy, PartialEq, Eq, Structural)]
pub enum Stage {
    /// Equal CFG and call-graph hashes, with no threshold.
    ExactHash,
    /// Equal names.
    Name,
    /// Equal MD-index.
    MdIndex,
    /// Equal small-primes product.
    SmallPrimes,
    /// The out-degree gate, best confidence first.
    Isomorphic,
    /// The size and complexity gate, best confidence first.
    Shape,
    /// Any candidate, best confidence first, proposed in parallel.
    Fuzzy,
}

/// Thresholds and scoring of a run.
#[derive(Debug, Clone, Copy, PartialEq, Eq, Structural)]
pub struct MatchConfig {
    pub similarity_threshold: u64,
    pub confidence_threshold: u64,
    pub scoring: Scoring,
}

pub open spec fn all_edges_fit(fs: Seq<FunctionView>) -> bool {
    forall|k: int| 0 <= k < fs.len() ==> edges_fit(#[trigger] fs[k])
}

pub open spec fn similarity_of(scoring: Scoring, a: FunctionView, b: FunctionView) -> nat {
    match scoring {
        Scoring::Weighted => function_similarity(a, b),
        Scoring::Detailed => detailed_similarity(a, b),
    }
}

pub open spec fn confidence_of(scoring: Scoring, a: FunctionView, b: FunctionView) -> nat {
    match scoring {
        Scoring::Weighted => confidence(a, b, function_similarity(a, b)),
        Scoring::Detailed => engine_confidence(a, b, detailed_similarity(a, b)),
    }
}

pub open spec fn details_of(scoring: Scoring, a: FunctionView, b: FunctionView) -> MatchDetails {
    match scoring {
        Scoring::Weighted => MatchDetails {
            cfg_similarity: cfg_score(a, b) as u64,
            bb_similarity: bb_score(a, b) as u64,
            instruction_similarity: instruction_score(a, b) as u64,
            edge_similarity: edge_score(a, b) as u64,
            name_similarity: name_similarity(a.name, b.name) as u64,
            call_similarity: call_similarity(a, b) as u64,
        },
        Scoring::Detailed => detailed_details(a, b),
    }
}

/// Both scores meet their thresholds.
pub open spec fn passes(cfg: MatchConfig, a: FunctionView, b: FunctionView) -> bool {
    similarity_of(cfg.scoring, a, b) >= cfg.similarity_threshold && confidence_of(
        cfg.scoring,
        a,
        b,
    ) >= cfg.confidence_threshold
}

/// The CFG hash and the call-graph hash joined by an underscore.
pub open spec fn exact_key(f: FunctionView) -> Seq<char> {
    f.cfg_hash + seq!['_'] + f.call_graph_hash
}

/// The candidate filter of a stage.
pub open spec fn key_filter(stage: Stage, a: FunctionView, b: FunctionView) -> bool {
    match stage {
        Stage::ExactHash => exact_key(a) == exact_key(b),
        Stage::Name => a.name == b.name,
        Stage::MdIndex => md_index(a) == md_index(b),
        Stage::SmallPrimes => primes_product(mnemonics(a)) == primes_product(mnemonics(b)),
        Stage::Isomorphic => isomorphic_gate(a, b),
        Stage::Shape => shape_gate(a, b),
        Stage::Fuzzy => true,
    }
}

/// A stage admits a candidate that passes its filter and, but for the
/// exact-hash stage, both thresholds.
pub open spec fn admits(stage: Stage, cfg: MatchConfig, a: FunctionView, b: FunctionView) -> bool {
    key_filter(stage, a, b) && (stage == Stage::ExactHash || passes(cfg, a, b))
}

pub open spec fn ranks_by_confidence(stage: Stage) -> bool {
    stage == Stage::Isomorphic || stage == Stage::Shape || stage == Stage::Fuzzy
}

pub open spec fn stage_match_type(stage: Stage) -> MatchType {
    match stage {
        Stage::ExactHash => MatchType::Exact,
        Stage::Isomorphic => MatchType::StructuralMatch,
        Stage::Shape => MatchType::StructuralMatch,
        _ => MatchType::Heuristic,
    }
}

/// The first unclaimed admitted B-index from `j` on.
pub open spec fn first_admitted(
    stage: Stage,
    cfg: MatchConfig,
    a: FunctionView,
    fb: Seq<FunctionView>,
    cb: Seq<bool>,
    j: int,
) -> Option<int>
    decreases fb.len() - j,
{
    if j < 0 || j >= fb.len() {
        None
    } else if !cb[j] && admits(stage, cfg, a, fb[j]) {
        Some(j)
    } else {
        first_admitted(stage, cfg, a, fb, cb, j + 1)
    }
}

/// Among the first `j` B-indices, the unclaimed admitted one of highest
/// confidence, the earliest among equals.
pub open spec fn best_admitted(
    stage: Stage,
    cfg: MatchConfig,
    a: FunctionView,
    fb: Seq<FunctionView>,
    cb: Seq<bool>,
    j: nat,
) -> Option<int>
    decreases j,
{
    if j == 0 {
        None
    } else {
        let prev = best_admitted(stage, cfg, a, fb, cb, (j - 1) as nat);
        let k = j - 1;
        if !cb[k] && admits(stage, cfg, a, fb[k]) && match prev {
            None => true,
            Some(p) => confidence_of(cfg.scoring, a, fb[k]) > confidence_of(cfg.scoring, a, fb[p]),
        } {
            Some(k)
        } else {
            prev
        }
    }
}

/// The B-index that a stage pairs `a` with, given the claims `cb`.
pub open spec fn choose_target(
    stage: Stage,
    cfg: MatchConfig,
    a: FunctionView,
    fb: Seq<FunctionView>,
    cb: Seq<bool>,
) -> Option<int> {
    if ranks_by_confidence(stage) {
        best_admitted(stage, cfg, a, fb, cb, fb.len())
    } else {
        first_admitted(stage, cfg, a, fb, cb, 0)
    }
}

pub struct MatchPair {
    pub a: int,
    pub b: int,
    pub match_type: MatchType,
}

/// Claims on both sides and the pairs matched, in order.
pub struct MatchState {
    pub claimed_a: Seq<bool>,
    pub claimed_b: Seq<bool>,
    pub pairs: Seq<MatchPair>,
}

pub open spec fn initial_state(na: nat, nb: nat) -> MatchState {
    MatchState {
        claimed_a: Seq::new(na, |i: int| false),
        claimed_b: Seq::new(nb, |j: int| false),
        pairs: Seq::empty(),
    }
}

/// A stage's visit of A-function `i`; `snapshot` holds the B-claims at the
/// stage's start, which the fuzzy stage proposes against.
pub open spec fn stage_step(
    stage: Stage,
    cfg: MatchConfig,
    fa: Seq<FunctionView>,
    fb: Seq<FunctionView>,
    snapshot: Seq<bool>,
    s: MatchState,
    i: int,
) -> MatchState {
    if s.claimed_a[i] {
        s
    } else {
        let view = if stage == Stage::Fuzzy {
            snapshot
        } else {
            s.claimed_b
        };
        match choose_target(stage, cfg, fa[i], fb, view) {
            Some(j) => if s.claimed_b[j] {
                s
            } else {
                MatchState {
                    claimed_a: s.claimed_a.update(i, true),
                    claimed_b: s.claimed_b.update(j, true),
                    pairs: s.pairs.push(MatchPair { a: i, b: j, match_type: stage_match_type(stage) }),
                }
            },
            None => s,
        }
    }
}

/// The state after a stage has visited the first `i` A-functions.
pub open spec fn stage_prefix(
    stage: Stage,
    cfg: MatchConfig,
    fa: Seq<FunctionView>,
    fb: Seq<FunctionView>,
    s0: MatchState,
    i: nat,
) -> MatchState
    decreases i,
{
    if i == 0 {
        s0
    } else {
        stage_step(
            stage,
            cfg,
            fa,
            fb,
            s0.claimed_b,
            stage_prefix(stage, cfg, fa, fb, s0, (i - 1) as nat),
            i - 1,
        )
    }
}

pub open spec fn run_stage(
    stage: Stage,
    cfg: MatchConfig,
    fa: Seq<FunctionView>,
    fb: Seq<FunctionView>,
    s0: MatchState,
) -> MatchState {
    stage_prefix(stage, cfg, fa, fb, s0, fa.len())
}

/// The stages run one after the other.
pub open spec fn run_stages(
    stages: Seq<Stage>,
    cfg: MatchConfig,
    fa: Seq<FunctionView>,
    fb: Seq<FunctionView>,
    s0: MatchState,
) -> MatchState
    decreases stages.len(),
{
    if stages.len() == 0 {
        s0
    } else {
        run_stage(stages.last(), cfg, fa, fb, run_stages(stages.drop_last(), cfg, fa, fb, s0))
    }
}

pub open spec fn final_state(
    stages: Seq<Stage>,
    cfg: MatchConfig,
    fa: Seq<FunctionView>,
    fb: Seq<FunctionView>,
) -> MatchState {
    run_stages(stages, cfg, fa, fb, initial_state(fa.len(), fb.len()))
}

/// The match that a pair stands for.
pub open spec fn match_of(
    cfg: MatchConfig,
    fa: Seq<FunctionView>,
    fb: Seq<FunctionView>,
    p: MatchPair,
) -> MatchView {
    MatchView {
        function_a: fa[p.a],
        function_b: fb[p.b],
        similarity: similarity_of(cfg.scoring, fa[p.a], fb[p.b]) as u64,
        confidence: confidence_of(cfg.scoring, fa[p.a], fb[p.b]) as u64,
        match_type: p.match_type,
        details: details_of(cfg.scoring, fa[p.a], fb[p.b]),
    }
}

pub open spec fn matches_of(
    cfg: MatchConfig,
    fa: Seq<FunctionView>,
    fb: Seq<FunctionView>,
    pairs: Seq<MatchPair>,
) -> Seq<MatchView> {
    pairs.map_values(|p: MatchPair| match_of(cfg, fa, fb, p))
}

/// The matches of a full run.
pub open spec fn pipeline_matches(
    stages: Seq<Stage>,
    cfg: MatchConfig,
    fa: Seq<FunctionView>,
    fb: Seq<FunctionView>,
) -> Seq<MatchView> {
    matches_of(cfg, fa, fb, final_state(stages, cfg, fa, fb).pairs)
}

/// The functions whose claim flag is unset, in order.
pub open spec fn unclaimed(fs: Seq<FunctionView>, claimed: Seq<bool>) -> Seq<FunctionView>
    decreases fs.len(),
{
    if fs.len() == 0 {
        Seq::empty()
    } else {
        let rest = unclaimed(fs.drop_last(), claimed);
        if claimed[fs.len() - 1] {
            rest
        } else {
            rest.push(fs.last())
        }
    }
}

pub open spec fn as_index(o: Option<usize>) -> Option<int> {
    match o {
        Some(j) => Some(j as int),
        None => None,
    }
}

/// Executable claims and pairs.
pub struct Claims {
    pub claimed_a: Vec<bool>,
    pub claimed_b: Vec<bool>,
    pub pairs: Vec<(usize, usize, MatchType)>,
}

pub open spec fn pair_view(t: (usize, usize, MatchType)) -> MatchPair {
    MatchPair { a: t.0 as int, b: t.1 as int, match_type: t.2 }
}

impl View for Claims {
    type V = MatchState;

    open spec fn view(&self) -> MatchState {
        MatchState {
            claimed_a: self.claimed_a@,
            claimed_b: self.claimed_b@,
            pairs: self.pairs@.map_values(|t: (usize, usize, MatchType)| pair_view(t)),
        }
    }
}

proof fn lemma_first_admitted_range(
    stage: Stage,
    cfg: MatchConfig,
    a: FunctionView,
    fb: Seq<FunctionView>,
    cb: Seq<bool>,
    j: int,
)
    requires
        0 <= j,
    ensures
        first_admitted(stage, cfg, a, fb, cb, j) matches Some(k) ==> j <= k < fb.len() && !cb[k]
            && admits(stage, cfg, a, fb[k]),
    decreases fb.len() - j,
{
    if j < fb.len() && !(!cb[j] && admits(stage, cfg, a, fb[j])) {
        lemma_first_admitted_range(stage, cfg, a, fb, cb, j + 1);
    }
}

proof fn lemma_best_admitted_range(
    stage: Stage,
    cfg: MatchConfig,
    a: FunctionView,
    fb: Seq<FunctionView>,
    cb: Seq<bool>,
    j: nat,
)
    ensures
        best_admitted(stage, cfg, a, fb, cb, j) matches Some(k) ==> 0 <= k < j && !cb[k] && admits(
            stage,
            cfg,
            a,
            fb[k],
        ),
    decreases j,
{
    if j > 0 {
        lemma_best_admitted_range(stage, cfg, a, fb, cb, (j - 1) as nat);
    }
}

/// The chosen B-index is in range, unclaimed and admitted.
pub proof fn lemma_choose_target_range(
    stage: Stage,
    cfg: MatchConfig,
    a: FunctionView,
    fb: Seq<FunctionView>,
    cb: Seq<bool>,
)
    ensures
        choose_target(stage, cfg, a, fb, cb) matches Some(k) ==> 0 <= k < fb.len() && !cb[k]
            && admits(stage, cfg, a, fb[k]),
{
    lemma_first_admitted_range(stage, cfg, a, fb, cb, 0);
    lemma_best_admitted_range(stage, cfg, a, fb, cb, fb.len());
}

/// The CFG hash and call-graph hash of `a` and `b`, each joined by an
/// underscore, are equal.
fn exact_keys_equal(a: &FunctionInfo, b: &FunctionInfo) -> (r: bool)
    ensures
        r == (exact_key(a@) == exact_key(b@)),
{
    let ka = a.cfg_hash.as_str();
    let ca = a.call_graph_hash.as_str();
    let kb = b.cfg_hash.as_str();
    let cb = b.call_graph_hash.as_str();
    let la = ka.unicode_len();
    let lb = kb.unicode_len();
    let ma = ca.unicode_len();
    let mb = cb.unicode_len();
    let ghost xa = exact_key(a@);
    let ghost xb = exact_key(b@);
    if la as u128 + ma as u128 != lb as u128 + mb as u128 {
        assert(xa.len() != xb.len());
        return false;
    }
    let n: u128 = la as u128 + ma as u128 + 1;
    let mut k: u128 = 0;
    while k < n
        invariant
            la == a.cfg_hash@.len(),
            ma == a.call_graph_hash@.len(),
            lb == b.cfg_hash@.len(),
            mb == b.call_graph_hash@.len(),
            ka@ == a.cfg_hash@,
            ca@ == a.call_graph_hash@,
            kb@ == b.cfg_hash@,
            cb@ == b.call_graph_hash@,
            xa == exact_key(a@),
            xb == exact_key(b@),
            n == la + ma + 1,
            la + ma == lb + mb,
            xa.len() == n,
            xb.len() == n,
            k <= n,
            forall|q: int| 0 <= q < k ==> xa[q] == xb[q],
        decreases n - k,
    {
        let x = if k < la as u128 {
            ka.get_char(k as usize)
        } else if k == la as u128 {
            '_'
        } else {
            ca.get_char((k - la as u128 - 1) as usize)
        };
        let y = if k < lb as u128 {
            kb.get_char(k as usize)
        } else if k == lb as u128 {
            '_'
        } else {
            cb.get_char((k - lb as u128 - 1) as usize)
        };
        assert(x == xa[k as int]);
        assert(y == xb[k as int]);
        if x != y {
            return false;
        }
        k += 1;
    }
    assert(xa =~= xb);
    true
}

/// The candidate filter of `stage` on `a` and `b`.
fn key_filter_exec(stage: Stage, a: &FunctionInfo, b: &FunctionInfo) -> (r: bool)
    ensures
        r == key_filter(stage, a@, b@),
{
    match stage {
        Stage::ExactHash => exact_keys_equal(a, b),
        Stage::Name => a.name == b.name,
        Stage::MdIndex => {
            let ma = DiffAlgorithms::calculate_md_index(a);
            let mb = DiffAlgorithms::calculate_md_index(b);
            ma == mb
        },
        Stage::SmallPrimes => {
            DiffAlgorithms::calculate_small_primes_product(a)
                == DiffAlgorithms::calculate_small_primes_product(b)
        },
        Stage::Isomorphic => DiffAlgorithms::is_isomorphic_subgraph(a, b),
        Stage::Shape => BinaryDiffEngine::is_structurally_similar(a, b),
        Stage::Fuzzy => true,
    }
}

/// Similarity and confidence of a pair under `scoring`.
pub fn score_pair(scoring: Scoring, a: &FunctionInfo, b: &FunctionInfo) -> (r: (u64, u64))
    requires
        edges_fit(a@),
        edges_fit(b@),
    ensures
        r.0 == similarity_of(scoring, a@, b@),
        r.1 == confidence_of(scoring, a@, b@),
        r.0 <= r.1 <= SCORE_ONE,
{
    match scoring {
        Scoring::Weighted => {
            let sim = DiffAlgorithms::calculate_function_similarity(a, b);
            (sim, DiffAlgorithms::calculate_confidence(a, b, sim))
        },
        Scoring::Detailed => {
            let (sim, _) = BinaryDiffEngine::calculate_detailed_similarity(a, b);
            (sim, BinaryDiffEngine::calculate_confidence(a, b, sim))
        },
    }
}

/// The per-metric sub-scores of a pair under `scoring`.
pub fn details_pair(scoring: Scoring, a: &FunctionInfo, b: &FunctionInfo) -> (r: MatchDetails)
    requires
        edges_fit(a@),
        edges_fit(b@),
    ensures
        r == details_of(scoring, a@, b@),
{
    match scoring {
        Scoring::Weighted => MatchDetails {
            cfg_similarity: DiffAlgorithms::calculate_cfg_similarity(a, b),
            bb_similarity: DiffAlgorithms::calculate_basic_block_similarity(a, b),
            instruction_similarity: DiffAlgorithms::calculate_instruction_similarity(a, b),
            edge_similarity: DiffAlgorithms::calculate_edge_similarity(a, b),
            name_similarity: BinaryDiffEngine::calculate_name_similarity(&a.name, &b.name),
            call_similarity: BinaryDiffEngine::calculate_call_similarity(a, b),
        },
        Scoring::Detailed => {
            let (_, d) = BinaryDiffEngine::calculate_detailed_similarity(a, b);
            d
        },
    }
}

/// Whether `stage` admits `b` for `a`, and the pair's confidence.
fn admit_pair(stage: Stage, cfg: MatchConfig, a: &FunctionInfo, b: &FunctionInfo) -> (r: (bool, u64))
    requires
        edges_fit(a@),
        edges_fit(b@),
    ensures
        r.0 == admits(stage, cfg, a@, b@),
        r.0 ==> r.1 == confidence_of(cfg.scoring, a@, b@),
{
    if !key_filter_exec(stage, a, b) {
        return (false, 0);
    }
    let (sim, conf) = score_pair(cfg.scoring, a, b);
    if stage == Stage::ExactHash {
        return (true, conf);
    }
    (sim >= cfg.similarity_threshold && conf >= cfg.confidence_threshold, conf)
}

/// The B-index that `stage` pairs `a` with, given the claims `cb`.
pub fn choose_target_exec(
    stage: Stage,
    cfg: MatchConfig,
    a: &FunctionInfo,
    fb: &[FunctionInfo],
    cb: &Vec<bool>,
) -> (r: Option<usize>)
    requires
        edges_fit(a@),
        all_edges_fit(functions_view(fb@)),
        cb@.len() == fb@.len(),
    ensures
        as_index(r) == choose_target(stage, cfg, a@, functions_view(fb@), cb@),
        r matches Some(j) ==> j < fb@.len(),
{
    let ghost fbv = functions_view(fb@);
    let n = fb.len();
    if stage == Stage::Isomorphic || stage == Stage::Shape || stage == Stage::Fuzzy {
        let mut best: Option<usize> = None;
        let mut best_conf: u64 = 0;
        let mut j: usize = 0;
        while j < n
            invariant
                n == fb@.len(),
                fbv == functions_view(fb@),
                cb@.len() == n,
                edges_fit(a@),
                all_edges_fit(fbv),
                ranks_by_confidence(stage),
                j <= n,
                as_index(best) == best_admitted(stage, cfg, a@, fbv, cb@, j as nat),
                best matches Some(p) ==> p < j && best_conf == confidence_of(cfg.scoring, a@, fbv[p as int]),
            decreases n - j,
        {
            assert(fbv[j as int] == fb@[j as int]@);
            assert(edges_fit(fbv[j as int]));
            if !cb[j] {
                let (ok, conf) = admit_pair(stage, cfg, a, &fb[j]);
                if ok {
                    let better = match best {
                        None => true,
                        Some(_) => conf > best_conf,
                    };
                    if better {
                        best = Some(j);
                        best_conf = conf;
                    }
                }
            }
            j += 1;
        }
        best
    } else {
        let mut j: usize = 0;
        while j < n
            invariant
                n == fb@.len(),
                fbv == functions_view(fb@),
                cb@.len() == n,
                edges_fit(a@),
                all_edges_fit(fbv),
                !ranks_by_confidence(stage),
                j <= n,
                first_admitted(stage, cfg, a@, fbv, cb@, 0) == first_admitted(
                    stage,
                    cfg,
                    a@,
                    fbv,
                    cb@,
                    j as int,
                ),
            decreases n - j,
        {
            assert(fbv[j as int] == fb@[j as int]@);
            assert(edges_fit(fbv[j as int]));
            if !cb[j] {
                let (ok, _) = admit_pair(stage, cfg, a, &fb[j]);
                if ok {
                    return Some(j);
                }
            }
            j += 1;
        }
        None
    }
}

/// What the fuzzy stage proposes for A-function `i`: nothing when it is
/// claimed, else its target against the claims `cb`.
pub open spec fn proposal(
    cfg: MatchConfig,
    fa: Seq<FunctionView>,
    fb: Seq<FunctionView>,
    ca: Seq<bool>,
    cb: Seq<bool>,
    i: int,
) -> Option<int> {
    if ca[i] {
        None
    } else {
        choose_target(Stage::Fuzzy, cfg, fa[i], fb, cb)
    }
}

/// The fuzzy stage's proposal for A-function `i`.
pub fn propose(
    cfg: MatchConfig,
    fa: &[FunctionInfo],
    fb: &[FunctionInfo],
    ca: &Vec<bool>,
    cb: &Vec<bool>,
    i: usize,
) -> (r: Option<usize>)
    requires
        i < fa@.len(),
        ca@.len() == fa@.len(),
        cb@.len() == fb@.len(),
        all_edges_fit(functions_view(fa@)),
        all_edges_fit(functions_view(fb@)),
    ensures
        as_index(r) == proposal(cfg, functions_view(fa@), functions_view(fb@), ca@, cb@, i as int),
        r matches Some(j) ==> j < fb@.len(),
{
    if ca[i] {
        return None;
    }
    assert(functions_view(fa@)[i as int] == fa@[i as int]@);
    choose_target_exec(Stage::Fuzzy, cfg, &fa[i], fb, cb)
}

/// Relies on rayon's indexed parallel iterators: `(0..n).into_par_iter().map(f)`
/// collected into a `Vec` holds `f(i)` at index `i`.
#[verifier::external_body]
fn propose_all(
    cfg: MatchConfig,
    fa: &[FunctionInfo],
    fb: &[FunctionInfo],
    ca: &Vec<bool>,
    cb: &Vec<bool>,
) -> (r: Vec<Option<usize>>)
    requires
        ca@.len() == fa@.len(),
        cb@.len() == fb@.len(),
        all_edges_fit(functions_view(fa@)),
        all_edges_fit(functions_view(fb@)),
    ensures
        r@.len() == fa@.len(),
        forall|i: int|
            0 <= i < fa@.len() ==> as_index(#[trigger] r@[i]) == proposal(
                cfg,
                functions_view(fa@),
                functions_view(fb@),
                ca@,
                cb@,
                i,
            ),
        forall|i: int| 0 <= i < fa@.len() ==> (#[trigger] r@[i] matches Some(j) ==> j < fb@.len()),
{
    (0..fa.len()).into_par_iter().map(|i| propose(cfg, fa, fb, ca, cb, i)).collect()
}

/// Runs one stage over the claims.
pub fn run_stage_exec(
    stage: Stage,
    cfg: MatchConfig,
    fa: &[FunctionInfo],
    fb: &[FunctionInfo],
    claims: &mut Claims,
)
    requires
        old(claims).claimed_a@.len() == fa@.len(),
        old(claims).claimed_b@.len() == fb@.len(),
        all_edges_fit(functions_view(fa@)),
        all_edges_fit(functions_view(fb@)),
    ensures
        final(claims)@ == run_stage(stage, cfg, functions_view(fa@), functions_view(fb@), old(claims)@),
        final(claims).claimed_a@.len() == fa@.len(),
        final(claims).claimed_b@.len() == fb@.len(),
{
    let ghost fav = functions_view(fa@);
    let ghost fbv = functions_view(fb@);
    let ghost s0 = claims@;
    let proposals: Vec<Option<usize>> = if stage == Stage::Fuzzy {
        propose_all(cfg, fa, fb, &claims.claimed_a, &claims.claimed_b)
    } else {
        Vec::new()
    };
    let n = fa.len();
    let mut i: usize = 0;
    while i < n
        invariant
            n == fa@.len(),
            fav == functions_view(fa@),
            fbv == functions_view(fb@),
            all_edges_fit(fav),
            all_edges_fit(fbv),
            i <= n,
            s0.claimed_a.len() == n,
            claims.claimed_a@.len() == n,
            claims.claimed_b@.len() == fb@.len(),
            claims@ == stage_prefix(stage, cfg, fav, fbv, s0, i as nat),
            claims.claimed_a@.subrange(i as int, n as int) == s0.claimed_a.subrange(i as int, n as int),
            stage == Stage::Fuzzy ==> proposals@.len() == n,
            stage == Stage::Fuzzy ==> forall|q: int|
                0 <= q < n ==> as_index(#[trigger] proposals@[q]) == proposal(
                    cfg,
                    fav,
                    fbv,
                    s0.claimed_a,
                    s0.claimed_b,
                    q,
                ),
            stage == Stage::Fuzzy ==> forall|q: int|
                0 <= q < n ==> (#[trigger] proposals@[q] matches Some(j) ==> j < fb@.len()),
        decreases n - i,
    {
        let ghost s = claims@;
        assert(claims.claimed_a@[i as int] == claims.claimed_a@.subrange(i as int, n as int)[0]);
        assert(s0.claimed_a[i as int] == s0.claimed_a.subrange(i as int, n as int)[0]);
        if !claims.claimed_a[i] {
            let choice = if stage == Stage::Fuzzy {
                proposals[i]
            } else {
                assert(fav[i as int] == fa@[i as int]@);
                choose_target_exec(stage, cfg, &fa[i], fb, &claims.claimed_b)
            };
            assert(as_index(choice) == choose_target(
                stage,
                cfg,
                fav[i as int],
                fbv,
                if stage == Stage::Fuzzy {
                    s0.claimed_b
                } else {
                    s.claimed_b
                },
            ));
            match choice {
                Some(j) => {
                    if !claims.claimed_b[j] {
                        claims.claimed_a.set(i, true);
                        claims.claimed_b.set(j, true);
                        claims.pairs.push((i, j, stage_match_type_exec(stage)));
                        assert(claims@.pairs =~= s.pairs.push(
                            MatchPair { a: i as int, b: j as int, match_type: stage_match_type(stage) },
                        ));
                    }
                },
                None => {},
            }
        }
        proof {
            assert forall|q: int| i < q < n implies claims.claimed_a@[q] == s0.claimed_a[q] by {
                assert(s.claimed_a[q] == s.claimed_a.subrange(i as int, n as int)[q - i]);
                assert(s0.claimed_a[q] == s0.claimed_a.subrange(i as int, n as int)[q - i]);
            }
            assert(claims.claimed_a@.subrange(i + 1, n as int) =~= s0.claimed_a.subrange(
                i + 1,
                n as int,
            ));
        }
        i += 1;
    }
}

/// Claims have the run's lengths, every pair joins two claimed in-range
/// functions, no function is in two pairs, and every claim has its pair.
pub open spec fn state_wf(s: MatchState, na: nat, nb: nat) -> bool {
    &&& s.claimed_a.len() == na
    &&& s.claimed_b.len() == nb
    &&& forall|k: int|
        0 <= k < s.pairs.len() ==> 0 <= #[trigger] s.pairs[k].a < na && 0 <= s.pairs[k].b < nb
            && s.claimed_a[s.pairs[k].a] && s.claimed_b[s.pairs[k].b]
    &&& forall|k1: int, k2: int|
        0 <= k1 < s.pairs.len() && 0 <= k2 < s.pairs.len() && k1 != k2 ==> #[trigger] s.pairs[k1].a
            != #[trigger] s.pairs[k2].a && s.pairs[k1].b != s.pairs[k2].b
    &&& forall|i: int|
        0 <= i < na && #[trigger] s.claimed_a[i] ==> exists|k: int|
            0 <= k < s.pairs.len() && #[trigger] s.pairs[k].a == i
    &&& forall|j: int|
        0 <= j < nb && #[trigger] s.claimed_b[j] ==> exists|k: int|
            0 <= k < s.pairs.len() && #[trigger] s.pairs[k].b == j
}

/// What is claimed stays claimed, and the pairs found so far stay in place.
pub open spec fn extends(s: MatchState, t: MatchState) -> bool {
    &&& s.claimed_a.len() == t.claimed_a.len()
    &&& s.claimed_b.len() == t.claimed_b.len()
    &&& forall|i: int| 0 <= i < s.claimed_a.len() && s.claimed_a[i] ==> #[trigger] t.claimed_a[i]
    &&& forall|j: int| 0 <= j < s.claimed_b.len() && s.claimed_b[j] ==> #[trigger] t.claimed_b[j]
    &&& s.pairs.len() <= t.pairs.len()
    &&& forall|k: int| 0 <= k < s.pairs.len() ==> #[trigger] t.pairs[k] == s.pairs[k]
    &&& forall|k: int|
        s.pairs.len() <= k < t.pairs.len() ==> 0 <= #[trigger] t.pairs[k].a < s.claimed_a.len() && 0
            <= t.pairs[k].b < s.claimed_b.len() && !s.claimed_b[t.pairs[k].b] && !s.claimed_a[t.pairs[k].a]
}

proof fn lemma_step_wf(
    stage: Stage,
    cfg: MatchConfig,
    fa: Seq<FunctionView>,
    fb: Seq<FunctionView>,
    snapshot: Seq<bool>,
    s: MatchState,
    i: int,
)
    requires
        state_wf(s, fa.len(), fb.len()),
        0 <= i < fa.len(),
        snapshot.len() == fb.len(),
    ensures
        state_wf(stage_step(stage, cfg, fa, fb, snapshot, s, i), fa.len(), fb.len()),
        extends(s, stage_step(stage, cfg, fa, fb, snapshot, s, i)),
{
    let t = stage_step(stage, cfg, fa, fb, snapshot, s, i);
    let view = if stage == Stage::Fuzzy {
        snapshot
    } else {
        s.claimed_b
    };
    lemma_choose_target_range(stage, cfg, fa[i], fb, view);
    if t != s {
        let j = choose_target(stage, cfg, fa[i], fb, view)->Some_0;
        let n = s.pairs.len();
        assert(t.pairs[n as int] == MatchPair { a: i, b: j, match_type: stage_match_type(stage) });
        assert forall|k: int| 0 <= k < n implies t.pairs[k].a != i && t.pairs[k].b != j by {
            assert(s.pairs[k] == t.pairs[k]);
        }
        assert forall|q: int| 0 <= q < fa.len() && #[trigger] t.claimed_a[q] implies exists|k: int|
            0 <= k < t.pairs.len() && #[trigger] t.pairs[k].a == q by {
            if q == i {
                assert(t.pairs[n as int].a == q);
            } else {
                assert(s.claimed_a[q]);
                let k = choose|k: int| 0 <= k < s.pairs.len() && #[trigger] s.pairs[k].a == q;
                assert(t.pairs[k] == s.pairs[k]);
            }
        }
        assert forall|q: int| 0 <= q < fb.len() && #[trigger] t.claimed_b[q] implies exists|k: int|
            0 <= k < t.pairs.len() && #[trigger] t.pairs[k].b == q by {
            if q == j {
                assert(t.pairs[n as int].b == q);
            } else {
                assert(s.claimed_b[q]);
                let k = choose|k: int| 0 <= k < s.pairs.len() && #[trigger] s.pairs[k].b == q;
                assert(t.pairs[k] == s.pairs[k]);
            }
        }
    }
}

proof fn lemma_extends_trans(s: MatchState, t: MatchState, u: MatchState)
    requires
        extends(s, t),
        extends(t, u),
    ensures
        extends(s, u),
{
    assert forall|k: int| s.pairs.len() <= k < u.pairs.len() implies 0 <= #[trigger] u.pairs[k].a
        < s.claimed_a.len() && 0 <= u.pairs[k].b < s.claimed_b.len() && !s.claimed_b[u.pairs[k].b]
        && !s.claimed_a[u.pairs[k].a] by {
        if k >= t.pairs.len() {
            let pb = u.pairs[k].b;
            let pa = u.pairs[k].a;
            if s.claimed_b[pb] {
                assert(t.claimed_b[pb]);
            }
            if s.claimed_a[pa] {
                assert(t.claimed_a[pa]);
            }
        } else {
            assert(u.pairs[k] == t.pairs[k]);
        }
    }
}

proof fn lemma_prefix_wf(
    stage: Stage,
    cfg: MatchConfig,
    fa: Seq<FunctionView>,
    fb: Seq<FunctionView>,
    s0: MatchState,
    i: nat,
)
    requires
        state_wf(s0, fa.len(), fb.len()),
        i <= fa.len(),
    ensures
        state_wf(stage_prefix(stage, cfg, fa, fb, s0, i), fa.len(), fb.len()),
        extends(s0, stage_prefix(stage, cfg, fa, fb, s0, i)),
    decreases i,
{
    if i > 0 {
        lemma_prefix_wf(stage, cfg, fa, fb, s0, (i - 1) as nat);
        let p = stage_prefix(stage, cfg, fa, fb, s0, (i - 1) as nat);
        lemma_step_wf(stage, cfg, fa, fb, s0.claimed_b, p, i - 1);
        lemma_extends_trans(s0, p, stage_prefix(stage, cfg, fa, fb, s0, i));
    }
}

/// A stage keeps a run well formed, keeps every claim and pair it found, and
/// pairs only functions that were unclaimed when it began.
pub proof fn lemma_stage_wf(
    stage: Stage,
    cfg: MatchConfig,
    fa: Seq<FunctionView>,
    fb: Seq<FunctionView>,
    s0: MatchState,
)
    requires
        state_wf(s0, fa.len(), fb.len()),
    ensures
        state_wf(run_stage(stage, cfg, fa, fb, s0), fa.len(), fb.len()),
        extends(s0, run_stage(stage, cfg, fa, fb, s0)),
{
    lemma_prefix_wf(stage, cfg, fa, fb, s0, fa.len());
}

proof fn lemma_extends_refl(s: MatchState)
    ensures
        extends(s, s),
{
}

/// Any list of stages keeps a run well formed and only ever adds claims.
pub proof fn lemma_stages_wf(
    stages: Seq<Stage>,
    cfg: MatchConfig,
    fa: Seq<FunctionView>,
    fb: Seq<FunctionView>,
    s0: MatchState,
)
    requires
        state_wf(s0, fa.len(), fb.len()),
    ensures
        state_wf(run_stages(stages, cfg, fa, fb, s0), fa.len(), fb.len()),
        extends(s0, run_stages(stages, cfg, fa, fb, s0)),
    decreases stages.len(),
{
    if stages.len() == 0 {
        lemma_extends_refl(s0);
    } else {
        lemma_stages_wf(stages.drop_last(), cfg, fa, fb, s0);
        let p = run_stages(stages.drop_last(), cfg, fa, fb, s0);
        lemma_stage_wf(stages.last(), cfg, fa, fb, p);
        lemma_extends_trans(s0, p, run_stages(stages, cfg, fa, fb, s0));
    }
}

pub proof fn lemma_initial_wf(na: nat, nb: nat)
    ensures
        state_wf(initial_state(na, nb), na, nb),
{
}

proof fn lemma_first_admitted_none(
    stage: Stage,
    cfg: MatchConfig,
    a: FunctionView,
    fb: Seq<FunctionView>,
    cb: Seq<bool>,
    j: int,
    q: int,
)
    requires
        0 <= j <= q < fb.len(),
        first_admitted(stage, cfg, a, fb, cb, j) is None,
    ensures
        cb[q] || !admits(stage, cfg, a, fb[q]),
    decreases q - j,
{
    if j < q {
        lemma_first_admitted_none(stage, cfg, a, fb, cb, j + 1, q);
    }
}

proof fn lemma_exact_prefix(
    cfg: MatchConfig,
    fa: Seq<FunctionView>,
    fb: Seq<FunctionView>,
    s0: MatchState,
    i: nat,
)
    requires
        state_wf(s0, fa.len(), fb.len()),
        i <= fa.len(),
    ensures
        forall|p: int, q: int|
            #![trigger exact_key(fa[p]), exact_key(fb[q])]
            0 <= p < i && 0 <= q < fb.len() && exact_key(fa[p]) == exact_key(fb[q]) ==> stage_prefix(
                Stage::ExactHash,
                cfg,
                fa,
                fb,
                s0,
                i,
            ).claimed_a[p] || stage_prefix(Stage::ExactHash, cfg, fa, fb, s0, i).claimed_b[q],
    decreases i,
{
    if i > 0 {
        let prev = stage_prefix(Stage::ExactHash, cfg, fa, fb, s0, (i - 1) as nat);
        let cur = stage_prefix(Stage::ExactHash, cfg, fa, fb, s0, i);
        lemma_exact_prefix(cfg, fa, fb, s0, (i - 1) as nat);
        lemma_prefix_wf(Stage::ExactHash, cfg, fa, fb, s0, (i - 1) as nat);
        lemma_step_wf(Stage::ExactHash, cfg, fa, fb, s0.claimed_b, prev, i - 1);
        assert forall|p: int, q: int|
            #![trigger exact_key(fa[p]), exact_key(fb[q])]
            0 <= p < i && 0 <= q < fb.len() && exact_key(fa[p]) == exact_key(fb[q]) implies cur.claimed_a[p]
            || cur.claimed_b[q] by {
            if p < i - 1 {
                if prev.claimed_a[p] {
                    assert(cur.claimed_a[p]);
                } else {
                    assert(prev.claimed_b[q]);
                    assert(cur.claimed_b[q]);
                }
            } else if !prev.claimed_a[p] {
                lemma_choose_target_range(Stage::ExactHash, cfg, fa[p], fb, prev.claimed_b);
                if first_admitted(Stage::ExactHash, cfg, fa[p], fb, prev.claimed_b, 0) is None {
                    lemma_first_admitted_none(Stage::ExactHash, cfg, fa[p], fb, prev.claimed_b, 0, q);
                    assert(prev.claimed_b[q]);
                    assert(cur.claimed_b[q]);
                } else {
                    assert(cur.claimed_a[p]);
                }
            } else {
                assert(cur.claimed_a[p]);
            }
        }
    }
}

/// The exact-hash stage leaves no unclaimed pair with equal CFG and
/// call-graph hashes, whatever the thresholds: it runs first from no claims,
/// and afterwards every such pair has a claimed side.
pub proof fn lemma_exact_hash_first_pass(cfg: MatchConfig, fa: Seq<FunctionView>, fb: Seq<FunctionView>)
    ensures
        forall|p: int, q: int|
            #![trigger exact_key(fa[p]), exact_key(fb[q])]
            0 <= p < fa.len() && 0 <= q < fb.len() && exact_key(fa[p]) == exact_key(fb[q])
                ==> run_stage(Stage::ExactHash, cfg, fa, fb, initial_state(fa.len(), fb.len())).claimed_a[p]
                || run_stage(Stage::ExactHash, cfg, fa, fb, initial_state(fa.len(), fb.len())).claimed_b[q],
{
    lemma_initial_wf(fa.len(), fb.len());
    lemma_exact_prefix(cfg, fa, fb, initial_state(fa.len(), fb.len()), fa.len());
}

/// Claims only grow: after the first `k` stages of a run, a B-function that
/// is claimed stays claimed through stage `k`, and stage `k` pairs only
/// B-functions that no earlier stage claimed.
pub proof fn lemma_monotonic_claiming(
    stages: Seq<Stage>,
    cfg: MatchConfig,
    fa: Seq<FunctionView>,
    fb: Seq<FunctionView>,
    k: int,
)
    requires
        0 <= k < stages.len(),
    ensures
        ({
            let before = run_stages(stages.take(k), cfg, fa, fb, initial_state(fa.len(), fb.len()));
            let after = run_stages(stages.take(k + 1), cfg, fa, fb, initial_state(fa.len(), fb.len()));
            &&& forall|j: int| 0 <= j < fb.len() && before.claimed_b[j] ==> #[trigger] after.claimed_b[j]
            &&& forall|q: int|
                before.pairs.len() <= q < after.pairs.len() ==> 0 <= #[trigger] after.pairs[q].b < fb.len()
                    && !before.claimed_b[after.pairs[q].b]
        }),
{
    let s0 = initial_state(fa.len(), fb.len());
    lemma_initial_wf(fa.len(), fb.len());
    lemma_stages_wf(stages.take(k), cfg, fa, fb, s0);
    assert(stages.take(k + 1).drop_last() =~= stages.take(k));
    assert(stages.take(k + 1).last() == stages[k]);
    let before = run_stages(stages.take(k), cfg, fa, fb, s0);
    assert(run_stages(stages.take(k + 1), cfg, fa, fb, s0) == run_stage(stages[k], cfg, fa, fb, before));
    lemma_stage_wf(stages[k], cfg, fa, fb, before);
    let after = run_stages(stages.take(k + 1), cfg, fa, fb, s0);
    assert forall|q: int| before.pairs.len() <= q < after.pairs.len() implies 0 <= #[trigger] after.pairs[q].b
        < fb.len() && !before.claimed_b[after.pairs[q].b] by {
        assert(0 <= after.pairs[q].a < fa.len());
    }
}

pub open spec fn addresses_distinct(fs: Seq<FunctionView>) -> bool {
    forall|p: int, q: int| 0 <= p < q < fs.len() ==> #[trigger] fs[p].address != #[trigger] fs[q].address
}

/// Every function that `unclaimed` keeps is an unclaimed one of `fs`.
pub proof fn lemma_unclaimed_origin(fs: Seq<FunctionView>, claimed: Seq<bool>)
    requires
        claimed.len() >= fs.len(),
    ensures
        forall|k: int|
            0 <= k < unclaimed(fs, claimed).len() ==> exists|i: int|
                0 <= i < fs.len() && !claimed[i] && #[trigger] unclaimed(fs, claimed)[k] == fs[i],
    decreases fs.len(),
{
    if fs.len() > 0 {
        let n = fs.len() - 1;
        let front = fs.drop_last();
        let rest = unclaimed(front, claimed);
        lemma_unclaimed_origin(front, claimed);
        let u = unclaimed(fs, claimed);
        assert(u == if claimed[n] { rest } else { rest.push(fs[n]) });
        assert forall|k: int| 0 <= k < u.len() implies exists|i: int|
            0 <= i < fs.len() && !claimed[i] && #[trigger] u[k] == fs[i] by {
            if k < rest.len() {
                let i = choose|i: int| 0 <= i < front.len() && !claimed[i] && #[trigger] rest[k] == front[i];
                assert(u[k] == fs[i]);
            } else {
                assert(u[k] == fs[n]);
            }
        }
    }
}

/// Every unclaimed function of `fs` is kept by `unclaimed`.
pub proof fn lemma_unclaimed_complete(fs: Seq<FunctionView>, claimed: Seq<bool>)
    requires
        claimed.len() >= fs.len(),
    ensures
        forall|i: int|
            0 <= i < fs.len() && !claimed[i] ==> exists|k: int|
                0 <= k < unclaimed(fs, claimed).len() && unclaimed(fs, claimed)[k] == #[trigger] fs[i],
    decreases fs.len(),
{
    if fs.len() > 0 {
        let n = fs.len() - 1;
        let front = fs.drop_last();
        let rest = unclaimed(front, claimed);
        lemma_unclaimed_complete(front, claimed);
        let u = unclaimed(fs, claimed);
        assert(u == if claimed[n] { rest } else { rest.push(fs[n]) });
        assert forall|i: int| 0 <= i < fs.len() && !claimed[i] implies exists|k: int|
            0 <= k < u.len() && u[k] == #[trigger] fs[i] by {
            if i < n {
                assert(front[i] == fs[i]);
                let k = choose|k: int| 0 <= k < rest.len() && rest[k] == #[trigger] front[i];
                assert(u[k] == rest[k]);
            } else {
                assert(u[rest.len() as int] == fs[i]);
            }
        }
    }
}

/// With distinct addresses in `fs`, `unclaimed` keeps no address twice.
pub proof fn lemma_unclaimed_distinct(fs: Seq<FunctionView>, claimed: Seq<bool>)
    requires
        claimed.len() >= fs.len(),
        addresses_distinct(fs),
    ensures
        addresses_distinct(unclaimed(fs, claimed)),
    decreases fs.len(),
{
    if fs.len() > 0 {
        let n = fs.len() - 1;
        let front = fs.drop_last();
        let rest = unclaimed(front, claimed);
        assert forall|p: int, q: int| 0 <= p < q < front.len() implies #[trigger] front[p].address
            != #[trigger] front[q].address by {
            assert(front[p] == fs[p]);
            assert(front[q] == fs[q]);
        }
        lemma_unclaimed_distinct(front, claimed);
        lemma_unclaimed_origin(front, claimed);
        let u = unclaimed(fs, claimed);
        assert(u == if claimed[n] { rest } else { rest.push(fs[n]) });
        if !claimed[n] {
            assert forall|p: int, q: int| 0 <= p < q < u.len() implies #[trigger] u[p].address
                != #[trigger] u[q].address by {
                assert(u[p] == rest[p]);
                if q < rest.len() {
                    assert(u[q] == rest[q]);
                } else {
                    let i = choose|i: int| 0 <= i < front.len() && !claimed[i] && #[trigger] rest[p] == front[i];
                    assert(fs[i] == front[i]);
                    assert(u[q] == fs[n]);
                }
            }
        }
    }
}

/// Before a stage visits A-function `x`, its claim flag is the one the stage
/// began with.
proof fn lemma_prefix_untouched(
    stage: Stage,
    cfg: MatchConfig,
    fa: Seq<FunctionView>,
    fb: Seq<FunctionView>,
    s0: MatchState,
    p: nat,
)
    requires
        state_wf(s0, fa.len(), fb.len()),
        p <= fa.len(),
    ensures
        forall|x: int|
            p <= x < fa.len() ==> #[trigger] stage_prefix(stage, cfg, fa, fb, s0, p).claimed_a[x]
                == s0.claimed_a[x],
    decreases p,
{
    if p > 0 {
        lemma_prefix_untouched(stage, cfg, fa, fb, s0, (p - 1) as nat);
        lemma_prefix_wf(stage, cfg, fa, fb, s0, (p - 1) as nat);
        let prev = stage_prefix(stage, cfg, fa, fb, s0, (p - 1) as nat);
        assert forall|x: int| p <= x < fa.len() implies #[trigger] stage_prefix(stage, cfg, fa, fb, s0, p).claimed_a[x]
            == s0.claimed_a[x] by {
            assert(prev.claimed_a[x] == s0.claimed_a[x]);
        }
    }
}

/// After a stage visits A-function `x`, later visits leave its claim flag.
proof fn lemma_prefix_keeps(
    stage: Stage,
    cfg: MatchConfig,
    fa: Seq<FunctionView>,
    fb: Seq<FunctionView>,
    s0: MatchState,
    x: int,
    p: nat,
)
    requires
        state_wf(s0, fa.len(), fb.len()),
        0 <= x < p <= fa.len(),
    ensures
        stage_prefix(stage, cfg, fa, fb, s0, p).claimed_a[x] == stage_prefix(
            stage,
            cfg,
            fa,
            fb,
            s0,
            (x + 1) as nat,
        ).claimed_a[x],
    decreases p,
{
    if p > x + 1 {
        lemma_prefix_keeps(stage, cfg, fa, fb, s0, x, (p - 1) as nat);
        lemma_prefix_wf(stage, cfg, fa, fb, s0, (p - 1) as nat);
    }
}

/// Between two points of a stage, claims and pairs only grow.
proof fn lemma_prefix_extends(
    stage: Stage,
    cfg: MatchConfig,
    fa: Seq<FunctionView>,
    fb: Seq<FunctionView>,
    s0: MatchState,
    p: nat,
    q: nat,
)
    requires
        state_wf(s0, fa.len(), fb.len()),
        p <= q <= fa.len(),
    ensures
        extends(stage_prefix(stage, cfg, fa, fb, s0, p), stage_prefix(stage, cfg, fa, fb, s0, q)),
    decreases q,
{
    if q == p {
        lemma_extends_refl(stage_prefix(stage, cfg, fa, fb, s0, p));
    } else {
        lemma_prefix_extends(stage, cfg, fa, fb, s0, p, (q - 1) as nat);
        lemma_prefix_wf(stage, cfg, fa, fb, s0, (q - 1) as nat);
        let prev = stage_prefix(stage, cfg, fa, fb, s0, (q - 1) as nat);
        lemma_step_wf(stage, cfg, fa, fb, s0.claimed_b, prev, q - 1);
        lemma_extends_trans(
            stage_prefix(stage, cfg, fa, fb, s0, p),
            prev,
            stage_prefix(stage, cfg, fa, fb, s0, q),
        );
    }
}

/// While no earlier A-function proposes `j`, the fuzzy stage leaves `j`
/// unclaimed.
proof fn lemma_fuzzy_avoids(
    cfg: MatchConfig,
    fa: Seq<FunctionView>,
    fb: Seq<FunctionView>,
    s0: MatchState,
    j: int,
    p: nat,
)
    requires
        state_wf(s0, fa.len(), fb.len()),
        p <= fa.len(),
        0 <= j < fb.len(),
        !s0.claimed_b[j],
        forall|h: int| 0 <= h < p ==> proposal(cfg, fa, fb, s0.claimed_a, s0.claimed_b, h) != Some(j),
    ensures
        !stage_prefix(Stage::Fuzzy, cfg, fa, fb, s0, p).claimed_b[j],
    decreases p,
{
    if p > 0 {
        let h = p - 1;
        lemma_fuzzy_avoids(cfg, fa, fb, s0, j, (p - 1) as nat);
        lemma_prefix_wf(Stage::Fuzzy, cfg, fa, fb, s0, (p - 1) as nat);
        lemma_prefix_untouched(Stage::Fuzzy, cfg, fa, fb, s0, (p - 1) as nat);
        lemma_choose_target_range(Stage::Fuzzy, cfg, fa[h], fb, s0.claimed_b);
        let prev = stage_prefix(Stage::Fuzzy, cfg, fa, fb, s0, (p - 1) as nat);
        assert(prev.claimed_a[h] == s0.claimed_a[h]);
        assert(proposal(cfg, fa, fb, s0.claimed_a, s0.claimed_b, h) != Some(j));
    }
}

/// The fuzzy stage commits in A order: when A-functions `i < k` both propose
/// B-function `j` against the claims at the stage's start, and no A-function
/// before `i` proposes `j`, then `i` is paired with `j`, and `k` ends the
/// stage unclaimed and in no pair.
pub proof fn lemma_fuzzy_commit_order(
    cfg: MatchConfig,
    fa: Seq<FunctionView>,
    fb: Seq<FunctionView>,
    s0: MatchState,
    i: int,
    k: int,
    j: int,
)
    requires
        state_wf(s0, fa.len(), fb.len()),
        0 <= i < k < fa.len(),
        proposal(cfg, fa, fb, s0.claimed_a, s0.claimed_b, i) == Some(j),
        proposal(cfg, fa, fb, s0.claimed_a, s0.claimed_b, k) == Some(j),
        forall|h: int| 0 <= h < i ==> proposal(cfg, fa, fb, s0.claimed_a, s0.claimed_b, h) != Some(j),
    ensures
        ({
            let t = run_stage(Stage::Fuzzy, cfg, fa, fb, s0);
            &&& exists|q: int|
                0 <= q < t.pairs.len() && #[trigger] t.pairs[q] == MatchPair {
                    a: i,
                    b: j,
                    match_type: MatchType::Heuristic,
                }
            &&& t.claimed_b[j]
            &&& !t.claimed_a[k]
            &&& forall|q: int| 0 <= q < t.pairs.len() ==> #[trigger] t.pairs[q].a != k
        }),
{
    let n = fa.len();
    lemma_choose_target_range(Stage::Fuzzy, cfg, fa[i], fb, s0.claimed_b);
    lemma_fuzzy_avoids(cfg, fa, fb, s0, j, i as nat);
    lemma_prefix_untouched(Stage::Fuzzy, cfg, fa, fb, s0, i as nat);
    lemma_prefix_wf(Stage::Fuzzy, cfg, fa, fb, s0, i as nat);
    let pi = stage_prefix(Stage::Fuzzy, cfg, fa, fb, s0, i as nat);
    let pi1 = stage_prefix(Stage::Fuzzy, cfg, fa, fb, s0, (i + 1) as nat);
    assert(!pi.claimed_a[i]);
    assert(!pi.claimed_b[j]);
    let q0 = pi.pairs.len() as int;
    assert(pi1.pairs[q0] == MatchPair { a: i, b: j, match_type: MatchType::Heuristic });
    assert(pi1.claimed_b[j]);
    lemma_prefix_wf(Stage::Fuzzy, cfg, fa, fb, s0, (i + 1) as nat);
    lemma_prefix_extends(Stage::Fuzzy, cfg, fa, fb, s0, (i + 1) as nat, k as nat);
    lemma_prefix_extends(Stage::Fuzzy, cfg, fa, fb, s0, (i + 1) as nat, n);
    let pk = stage_prefix(Stage::Fuzzy, cfg, fa, fb, s0, k as nat);
    assert(pk.claimed_b[j]);
    lemma_prefix_untouched(Stage::Fuzzy, cfg, fa, fb, s0, k as nat);
    assert(pk.claimed_a[k] == s0.claimed_a[k]);
    let pk1 = stage_prefix(Stage::Fuzzy, cfg, fa, fb, s0, (k + 1) as nat);
    assert(!pk1.claimed_a[k]);
    lemma_prefix_keeps(Stage::Fuzzy, cfg, fa, fb, s0, k, n);
    let t = run_stage(Stage::Fuzzy, cfg, fa, fb, s0);
    assert(t.pairs[q0] == pi1.pairs[q0]);
    assert(t.claimed_b[j]);
    assert(!t.claimed_a[k]);
    lemma_prefix_wf(Stage::Fuzzy, cfg, fa, fb, s0, n);
    assert forall|q: int| 0 <= q < t.pairs.len() implies #[trigger] t.pairs[q].a != k by {
        if t.pairs[q].a == k {
            assert(t.claimed_a[t.pairs[q].a]);
        }
    }
}

proof fn lemma_stage_no_candidate(
    stage: Stage,
    cfg: MatchConfig,
    fa: Seq<FunctionView>,
    fb: Seq<FunctionView>,
    s0: MatchState,
    i: int,
    p: nat,
)
    requires
        state_wf(s0, fa.len(), fb.len()),
        0 <= i < fa.len(),
        p <= fa.len(),
        !s0.claimed_a[i],
        forall|j: int| 0 <= j < fb.len() ==> !admits(stage, cfg, fa[i], #[trigger] fb[j]),
    ensures
        !stage_prefix(stage, cfg, fa, fb, s0, p).claimed_a[i],
    decreases p,
{
    if p > 0 {
        lemma_stage_no_candidate(stage, cfg, fa, fb, s0, i, (p - 1) as nat);
        lemma_prefix_wf(stage, cfg, fa, fb, s0, (p - 1) as nat);
        let prev = stage_prefix(stage, cfg, fa, fb, s0, (p - 1) as nat);
        lemma_choose_target_range(stage, cfg, fa[i], fb, s0.claimed_b);
        lemma_choose_target_range(stage, cfg, fa[i], fb, prev.claimed_b);
    }
}

/// An A-function for which no stage of the list admits any B-function stays
/// unclaimed through the whole run.
pub proof fn lemma_no_candidate_stays_unclaimed(
    stages: Seq<Stage>,
    cfg: MatchConfig,
    fa: Seq<FunctionView>,
    fb: Seq<FunctionView>,
    s0: MatchState,
    i: int,
)
    requires
        state_wf(s0, fa.len(), fb.len()),
        0 <= i < fa.len(),
        !s0.claimed_a[i],
        forall|st: Stage, j: int|
            stages.contains(st) && 0 <= j < fb.len() ==> !#[trigger] admits(st, cfg, fa[i], fb[j]),
    ensures
        !run_stages(stages, cfg, fa, fb, s0).claimed_a[i],
    decreases stages.len(),
{
    if stages.len() > 0 {
        let front = stages.drop_last();
        assert forall|st: Stage, j: int| front.contains(st) && 0 <= j < fb.len() implies !#[trigger] admits(
            st,
            cfg,
            fa[i],
            fb[j],
        ) by {
            let q = choose|q: int| 0 <= q < front.len() && front[q] == st;
            assert(stages[q] == st);
        }
        lemma_no_candidate_stays_unclaimed(front, cfg, fa, fb, s0, i);
        lemma_stages_wf(front, cfg, fa, fb, s0);
        assert(stages.contains(stages.last()));
        lemma_stage_no_candidate(
            stages.last(),
            cfg,
            fa,
            fb,
            run_stages(front, cfg, fa, fb, s0),
            i,
            fa.len(),
        );
    }
}

/// Every pair a stage adds joins functions that the stage admits, and carries
/// the stage's match type.
proof fn lemma_prefix_pairs_admitted(
    stage: Stage,
    cfg: MatchConfig,
    fa: Seq<FunctionView>,
    fb: Seq<FunctionView>,
    s0: MatchState,
    p: nat,
)
    requires
        state_wf(s0, fa.len(), fb.len()),
        p <= fa.len(),
    ensures
        forall|q: int|
            s0.pairs.len() <= q < stage_prefix(stage, cfg, fa, fb, s0, p).pairs.len() ==> admits(
                stage,
                cfg,
                fa[#[trigger] stage_prefix(stage, cfg, fa, fb, s0, p).pairs[q].a],
                fb[stage_prefix(stage, cfg, fa, fb, s0, p).pairs[q].b],
            ) && stage_prefix(stage, cfg, fa, fb, s0, p).pairs[q].match_type == stage_match_type(stage),
    decreases p,
{
    if p > 0 {
        lemma_prefix_pairs_admitted(stage, cfg, fa, fb, s0, (p - 1) as nat);
        lemma_prefix_wf(stage, cfg, fa, fb, s0, (p - 1) as nat);
        let prev = stage_prefix(stage, cfg, fa, fb, s0, (p - 1) as nat);
        let cur = stage_prefix(stage, cfg, fa, fb, s0, p);
        lemma_choose_target_range(stage, cfg, fa[p - 1], fb, s0.claimed_b);
        lemma_choose_target_range(stage, cfg, fa[p - 1], fb, prev.claimed_b);
        assert forall|q: int| s0.pairs.len() <= q < cur.pairs.len() implies admits(
            stage,
            cfg,
            fa[#[trigger] cur.pairs[q].a],
            fb[cur.pairs[q].b],
        ) && cur.pairs[q].match_type == stage_match_type(stage) by {
            if q < prev.pairs.len() {
                assert(cur.pairs[q] == prev.pairs[q]);
                assert(admits(stage, cfg, fa[prev.pairs[q].a], fb[prev.pairs[q].b]));
                assert(prev.pairs[q].match_type == stage_match_type(stage));
            } else {
                let view = if stage == Stage::Fuzzy {
                    s0.claimed_b
                } else {
                    prev.claimed_b
                };
                let c = choose_target(stage, cfg, fa[p - 1], fb, view);
                assert(cur != prev);
                assert(c is Some);
                assert(cur.pairs[q] == MatchPair {
                    a: p - 1,
                    b: c->Some_0,
                    match_type: stage_match_type(stage),
                });
                assert(admits(stage, cfg, fa[p - 1], fb[c->Some_0]));
            }
        }
    }
}

proof fn lemma_stages_prefix_extends(
    stages: Seq<Stage>,
    cfg: MatchConfig,
    fa: Seq<FunctionView>,
    fb: Seq<FunctionView>,
    m: int,
)
    requires
        1 <= m <= stages.len(),
    ensures
        extends(
            run_stages(stages.take(1), cfg, fa, fb, initial_state(fa.len(), fb.len())),
            run_stages(stages.take(m), cfg, fa, fb, initial_state(fa.len(), fb.len())),
        ),
    decreases m,
{
    let s0 = initial_state(fa.len(), fb.len());
    lemma_initial_wf(fa.len(), fb.len());
    if m == 1 {
        lemma_extends_refl(run_stages(stages.take(1), cfg, fa, fb, s0));
    } else {
        lemma_stages_prefix_extends(stages, cfg, fa, fb, m - 1);
        lemma_monotonic_claiming(stages, cfg, fa, fb, m - 1);
        let before = run_stages(stages.take(m - 1), cfg, fa, fb, s0);
        lemma_stages_wf(stages.take(m - 1), cfg, fa, fb, s0);
        assert(stages.take(m).drop_last() =~= stages.take(m - 1));
        assert(stages.take(m).last() == stages[m - 1]);
        lemma_stage_wf(stages[m - 1], cfg, fa, fb, before);
        lemma_extends_trans(
            run_stages(stages.take(1), cfg, fa, fb, s0),
            before,
            run_stages(stages.take(m), cfg, fa, fb, s0),
        );
    }
}

/// In a run whose first stage is the exact-hash stage, an A-function and a
/// B-function whose CFG and call-graph hashes match each other's and no other
/// function's on either side are paired as an exact match by that first
/// stage, whatever the thresholds; the first stage's pairs are all exact and
/// come before every pair of a later stage.
pub proof fn lemma_unique_exact_pair(
    stages: Seq<Stage>,
    cfg: MatchConfig,
    fa: Seq<FunctionView>,
    fb: Seq<FunctionView>,
    i: int,
    j: int,
)
    requires
        stages.len() > 0,
        stages[0] == Stage::ExactHash,
        0 <= i < fa.len(),
        0 <= j < fb.len(),
        exact_key(fa[i]) == exact_key(fb[j]),
        forall|p: int| 0 <= p < fa.len() && p != i ==> exact_key(#[trigger] fa[p]) != exact_key(fa[i]),
        forall|q: int| 0 <= q < fb.len() && q != j ==> exact_key(#[trigger] fb[q]) != exact_key(fb[j]),
    ensures
        ({
            let first = run_stage(Stage::ExactHash, cfg, fa, fb, initial_state(fa.len(), fb.len()));
            let t = final_state(stages, cfg, fa, fb);
            &&& first.pairs.len() <= t.pairs.len()
            &&& exists|k: int|
                0 <= k < first.pairs.len() && #[trigger] t.pairs[k] == MatchPair {
                    a: i,
                    b: j,
                    match_type: MatchType::Exact,
                }
            &&& forall|k: int| 0 <= k < first.pairs.len() ==> (#[trigger] t.pairs[k]).match_type == MatchType::Exact
        }),
{
    let s0 = initial_state(fa.len(), fb.len());
    lemma_initial_wf(fa.len(), fb.len());
    let first = run_stage(Stage::ExactHash, cfg, fa, fb, s0);
    assert(stages.take(1).drop_last() =~= Seq::<Stage>::empty());
    assert(run_stages(Seq::<Stage>::empty(), cfg, fa, fb, s0) == s0);
    assert(stages.take(1).last() == Stage::ExactHash);
    assert(run_stages(stages.take(1), cfg, fa, fb, s0) == first);
    lemma_stages_prefix_extends(stages, cfg, fa, fb, stages.len() as int);
    assert(stages.take(stages.len() as int) =~= stages);
    let t = final_state(stages, cfg, fa, fb);
    lemma_stage_wf(Stage::ExactHash, cfg, fa, fb, s0);
    lemma_prefix_pairs_admitted(Stage::ExactHash, cfg, fa, fb, s0, fa.len());
    lemma_exact_hash_first_pass(cfg, fa, fb);
    assert(first.claimed_a[i] || first.claimed_b[j]);
    let k = if first.claimed_a[i] {
        choose|k: int| 0 <= k < first.pairs.len() && #[trigger] first.pairs[k].a == i
    } else {
        choose|k: int| 0 <= k < first.pairs.len() && #[trigger] first.pairs[k].b == j
    };
    let pk = first.pairs[k];
    assert(admits(Stage::ExactHash, cfg, fa[pk.a], fb[pk.b]));
    assert(0 <= pk.a < fa.len() && 0 <= pk.b < fb.len());
    if first.claimed_a[i] {
        if pk.b != j {
            assert(exact_key(fb[pk.b]) != exact_key(fb[j]));
        }
    } else {
        if pk.a != i {
            assert(exact_key(fa[pk.a]) != exact_key(fa[i]));
        }
    }
    assert(t.pairs[k] == pk);
    assert forall|q: int| 0 <= q < first.pairs.len() implies (#[trigger] t.pairs[q]).match_type == MatchType::Exact by {
        assert(t.pairs[q] == first.pairs[q]);
        assert(admits(Stage::ExactHash, cfg, fa[first.pairs[q].a], fb[first.pairs[q].b]));
        assert(first.pairs[q].match_type == stage_match_type(Stage::ExactHash));
    }
}

/// Runs the stages in order from no claims.
pub fn run_stages_exec(stages: &[Stage], cfg: MatchConfig, fa: &[FunctionInfo], fb: &[FunctionInfo]) -> (r:
    Claims)
    requires
        all_edges_fit(functions_view(fa@)),
        all_edges_fit(functions_view(fb@)),
    ensures
        r@ == final_state(stages@, cfg, functions_view(fa@), functions_view(fb@)),
        state_wf(r@, fa@.len(), fb@.len()),
{
    let ghost fav = functions_view(fa@);
    let ghost fbv = functions_view(fb@);
    let mut claims = Claims { claimed_a: Vec::new(), claimed_b: Vec::new(), pairs: Vec::new() };
    let mut i: usize = 0;
    while i < fa.len()
        invariant
            i <= fa@.len(),
            claims.claimed_a@ =~= Seq::new(i as nat, |q: int| false),
            claims.claimed_b@.len() == 0,
            claims.pairs@.len() == 0,
        decreases fa@.len() - i,
    {
        claims.claimed_a.push(false);
        i += 1;
    }
    let mut j: usize = 0;
    while j < fb.len()
        invariant
            j <= fb@.len(),
            claims.claimed_a@ =~= Seq::new(fa@.len(), |q: int| false),
            claims.claimed_b@ =~= Seq::new(j as nat, |q: int| false),
            claims.pairs@.len() == 0,
        decreases fb@.len() - j,
    {
        claims.claimed_b.push(false);
        j += 1;
    }
    assert(claims@.pairs =~= Seq::<MatchPair>::empty());
    assert(claims@.claimed_a =~= initial_state(fa@.len(), fb@.len()).claimed_a);
    assert(claims@.claimed_b =~= initial_state(fa@.len(), fb@.len()).claimed_b);
    proof {
        lemma_initial_wf(fa@.len(), fb@.len());
    }
    let mut k: usize = 0;
    while k < stages.len()
        invariant
            k <= stages@.len(),
            fav == functions_view(fa@),
            fbv == functions_view(fb@),
            all_edges_fit(fav),
            all_edges_fit(fbv),
            claims@ == run_stages(stages@.take(k as int), cfg, fav, fbv, initial_state(fa@.len(), fb@.len())),
            claims.claimed_a@.len() == fa@.len(),
            claims.claimed_b@.len() == fb@.len(),
        decreases stages@.len() - k,
    {
        assert(stages@.take(k + 1).drop_last() =~= stages@.take(k as int));
        run_stage_exec(stages[k], cfg, fa, fb, &mut claims);
        k += 1;
    }
    assert(stages@.take(stages@.len() as int) =~= stages@);
    proof {
        lemma_stages_wf(stages@, cfg, fav, fbv, initial_state(fa@.len(), fb@.len()));
    }
    claims
}

/// The matches that the pairs stand for, in pair order.
pub fn build_matches(cfg: MatchConfig, fa: &[FunctionInfo], fb: &[FunctionInfo], claims: &Claims) -> (r:
    Vec<FunctionMatch>)
    requires
        all_edges_fit(functions_view(fa@)),
        all_edges_fit(functions_view(fb@)),
        state_wf(claims@, fa@.len(), fb@.len()),
    ensures
        matches_view(r@) == matches_of(cfg, functions_view(fa@), functions_view(fb@), claims@.pairs),
{
    let ghost fav = functions_view(fa@);
    let ghost fbv = functions_view(fb@);
    let ghost target = matches_of(cfg, fav, fbv, claims@.pairs);
    let mut out: Vec<FunctionMatch> = Vec::new();
    let mut k: usize = 0;
    while k < claims.pairs.len()
        invariant
            k <= claims.pairs@.len(),
            fav == functions_view(fa@),
            fbv == functions_view(fb@),
            all_edges_fit(fav),
            all_edges_fit(fbv),
            state_wf(claims@, fa@.len(), fb@.len()),
            target == matches_of(cfg, fav, fbv, claims@.pairs),
            out@.len() == k,
            forall|q: int| 0 <= q < k ==> #[trigger] out@[q]@ == target[q],
        decreases claims.pairs@.len() - k,
    {
        let (ia, ib, kind) = claims.pairs[k];
        assert(claims@.pairs[k as int] == pair_view(claims.pairs@[k as int]));
        assert(0 <= claims@.pairs[k as int].a < fa@.len());
        assert(fav[ia as int] == fa@[ia as int]@);
        assert(fbv[ib as int] == fb@[ib as int]@);
        let a = &fa[ia];
        let b = &fb[ib];
        let (sim, conf) = score_pair(cfg.scoring, a, b);
        let details = details_pair(cfg.scoring, a, b);
        let m = FunctionMatch {
            function_a: a.clone(),
            function_b: b.clone(),
            similarity: sim,
            confidence: conf,
            match_type: kind,
            details,
        };
        out.push(m);
        k += 1;
    }
    assert(matches_view(out@) =~= target);
    out
}

/// The functions whose claim flag is unset, in order.
pub fn unclaimed_functions(fs: &[FunctionInfo], claimed: &Vec<bool>) -> (r: Vec<FunctionInfo>)
    requires
        claimed@.len() == fs@.len(),
    ensures
        crate::functions_view(r@) == unclaimed(functions_view(fs@), claimed@),
{
    let ghost fsv = functions_view(fs@);
    let mut out: Vec<FunctionInfo> = Vec::new();
    let mut i: usize = 0;
    while i < fs.len()
        invariant
            i <= fs@.len(),
            claimed@.len() == fs@.len(),
            fsv == functions_view(fs@),
            functions_view(out@) == unclaimed(fsv.take(i as int), claimed@),
        decreases fs@.len() - i,
    {
        let ghost before = out@;
        assert(fsv.take(i + 1).drop_last() =~= fsv.take(i as int));
        if !claimed[i] {
            out.push(fs[i].clone());
            assert(functions_view(out@) =~= functions_view(before).push(fsv[i as int]));
        }
        i += 1;
    }
    assert(fsv.take(fs@.len() as int) =~= fsv);
    out
}

fn stage_match_type_exec(stage: Stage) -> (r: MatchType)
    ensures
        r == stage_match_type(stage),
{
    match stage {
        Stage::ExactHash => MatchType::Exact,
        Stage::Isomorphic => MatchType::StructuralMatch,
        Stage::Shape => MatchType::StructuralMatch,
        _ => MatchType::Heuristic,
    }
}

} // verus!
