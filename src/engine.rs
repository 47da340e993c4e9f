//! The diff engine: its detailed per-metric scoring, and a diff of two
//! function lists assembled into a `DiffResult`.
use crate::algorithms::{
    abs_diff, abs_diff_u64, block_count, lemma_closeness_bounded, boost_if, closeness, count_closeness, max_nat, min_nat,
    ratio, scaled_ratio, sizes_close, sizes_close_exec, weighted, BOOST, NAME_BOOST,
};
use crate::pipeline::{
    addresses_distinct, admits, all_edges_fit, build_matches, final_state, initial_state,
    lemma_initial_wf, lemma_no_candidate_stays_unclaimed, lemma_stages_wf, lemma_unclaimed_complete, lemma_unclaimed_distinct, lemma_unclaimed_origin,
    matches_of, pipeline_matches, run_stages_exec, unclaimed, unclaimed_functions,
    MatchConfig, MatchPair, Scoring, Stage,
};
use crate::{
    functions_view, matches_view, ConfigError, DiffResult, DiffView, FunctionInfo, FunctionMatch,
    FunctionView, MatchDetails, MatchView, SCORE_ONE,
};
use vstd::prelude::*;
use vstd::string::StrSliceExecFns;

verus! {

/// The score of two names of which one lies inside the other (0.7).
pub const CONTAINED_NAME_SCORE: u64 = 700_000;

/// `needle` occurs in `hay` as a contiguous run.
pub open spec fn is_substring(needle: Seq<char>, hay: Seq<char>) -> bool {
    exists|k: int|
        0 <= k && k + needle.len() <= hay.len() && #[trigger] hay.subrange(k, k + needle.len())
            == needle
}

/// How many characters of `a`, counted with repetition, occur somewhere in `b`.
pub open spec fn common_chars(a: Seq<char>, b: Seq<char>) -> nat
    decreases a.len(),
{
    if a.len() == 0 {
        0
    } else {
        common_chars(a.drop_last(), b) + if b.contains(a.last()) {
            1nat
        } else {
            0nat
        }
    }
}

/// 1 for equal names, 0.7 when one contains the other, else the share of
/// A's characters found in B over the longer name's length.
pub open spec fn name_similarity(a: Seq<char>, b: Seq<char>) -> nat {
    if a == b {
        SCORE_ONE as nat
    } else if is_substring(b, a) || is_substring(a, b) {
        CONTAINED_NAME_SCORE as nat
    } else {
        ratio(common_chars(a, b), max_nat(a.len(), b.len()))
    }
}

pub open spec fn detailed_cfg(a: FunctionView, b: FunctionView) -> nat {
    if a.cfg_hash == b.cfg_hash {
        SCORE_ONE as nat
    } else {
        0
    }
}

pub open spec fn detailed_bb(a: FunctionView, b: FunctionView) -> nat {
    closeness(block_count(a), block_count(b))
}

pub open spec fn detailed_instruction(a: FunctionView, b: FunctionView) -> nat {
    closeness(a.instruction_count as nat, b.instruction_count as nat)
}

/// The complexity-based edge sub-score.
pub open spec fn detailed_edge(a: FunctionView, b: FunctionView) -> nat {
    closeness(a.cyclomatic_complexity as nat, b.cyclomatic_complexity as nat)
}

pub open spec fn call_similarity(a: FunctionView, b: FunctionView) -> nat {
    closeness(a.call_count as nat, b.call_count as nat)
}

pub open spec fn detailed_similarity(a: FunctionView, b: FunctionView) -> nat {
    weighted(detailed_cfg(a, b), detailed_bb(a, b), detailed_instruction(a, b), detailed_edge(a, b))
}

pub open spec fn detailed_details(a: FunctionView, b: FunctionView) -> MatchDetails {
    MatchDetails {
        cfg_similarity: detailed_cfg(a, b) as u64,
        bb_similarity: detailed_bb(a, b) as u64,
        instruction_similarity: detailed_instruction(a, b) as u64,
        edge_similarity: detailed_edge(a, b) as u64,
        name_similarity: name_similarity(a.name, b.name) as u64,
        call_similarity: call_similarity(a, b) as u64,
    }
}

/// Similarity plus 0.1 each for close sizes, complexities and block counts
/// within 2, and 0.2 for equal names, at most 1.
pub open spec fn engine_confidence(a: FunctionView, b: FunctionView, similarity: nat) -> nat {
    min_nat(
        similarity + boost_if(sizes_close(a.size as nat, b.size as nat), BOOST) + boost_if(
            abs_diff(a.cyclomatic_complexity as nat, b.cyclomatic_complexity as nat) < 2,
            BOOST,
        ) + boost_if(abs_diff(block_count(a), block_count(b)) < 2, BOOST) + boost_if(
            a.name == b.name,
            NAME_BOOST,
        ),
        SCORE_ONE as nat,
    )
}

/// Block counts and complexities within 2 and sizes within 30%.
pub open spec fn shape_gate(a: FunctionView, b: FunctionView) -> bool {
    abs_diff(block_count(a), block_count(b)) <= 2 && abs_diff(
        a.cyclomatic_complexity as nat,
        b.cyclomatic_complexity as nat,
    ) <= 2 && 10 * abs_diff(a.size as nat, b.size as nat) < 3 * max_nat(a.size as nat, b.size as nat)
}

/// Every detailed similarity lies in [0, 1], and every engine confidence lies
/// between the similarity it starts from and 1.
pub proof fn lemma_detailed_scores_bounded(a: FunctionView, b: FunctionView)
    ensures
        detailed_similarity(a, b) <= SCORE_ONE,
        detailed_similarity(a, b) <= engine_confidence(a, b, detailed_similarity(a, b)) <= SCORE_ONE,
{
    lemma_closeness_bounded(block_count(a), block_count(b));
    lemma_closeness_bounded(a.instruction_count as nat, b.instruction_count as nat);
    lemma_closeness_bounded(a.cyclomatic_complexity as nat, b.cyclomatic_complexity as nat);
}

/// `needle` occurs in `hay`.
pub fn contains_str(hay: &str, needle: &str) -> (r: bool)
    ensures
        r == is_substring(needle@, hay@),
{
    let lh = hay.unicode_len();
    let ln = needle.unicode_len();
    if ln > lh {
        proof {
            assert forall|k: int|
                0 <= k && k + needle@.len() <= hay@.len() implies #[trigger] hay@.subrange(
                k,
                k + needle@.len(),
            ) != needle@ by {}
        }
        return false;
    }
    let mut k: usize = 0;
    while k <= lh - ln
        invariant
            lh == hay@.len(),
            ln == needle@.len(),
            ln <= lh,
            k <= lh - ln + 1,
            forall|q: int| 0 <= q < k ==> #[trigger] hay@.subrange(q, q + ln) != needle@,
        decreases lh - ln + 1 - k,
    {
        let mut t: usize = 0;
        while t < ln
            invariant
                lh == hay@.len(),
                ln == needle@.len(),
                k + ln <= lh,
                t <= ln,
                forall|p: int| 0 <= p < t ==> hay@[k + p] == needle@[p],
            ensures
                t <= ln,
                forall|p: int| 0 <= p < t ==> hay@[k + p] == needle@[p],
                t < ln ==> hay@[k + t] != needle@[t as int],
            decreases ln - t,
        {
            if hay.get_char(k + t) != needle.get_char(t) {
                break;
            }
            t += 1;
        }
        if t == ln {
            assert(hay@.subrange(k as int, k + ln) =~= needle@);
            return true;
        }
        assert(hay@.subrange(k as int, k + ln)[t as int] != needle@[t as int]);
        k += 1;
    }
    false
}

proof fn lemma_equal_as_substring(a: Seq<char>, b: Seq<char>)
    ensures
        (a.len() == b.len() && is_substring(b, a)) <==> a == b,
{
    if a == b {
        assert(a.subrange(0int, 0int + b.len()) =~= b);
        assert(is_substring(b, a));
    }
    if a.len() == b.len() && is_substring(b, a) {
        let k = choose|k: int|
            0 <= k && k + b.len() <= a.len() && #[trigger] a.subrange(k, k + b.len()) == b;
        assert(k == 0);
        assert(a.subrange(0, a.len() as int) =~= a);
        assert(a == b);
    }
}

/// `c` occurs in `s`.
fn contains_char(s: &str, c: char) -> (r: bool)
    ensures
        r == s@.contains(c),
{
    let n = s.unicode_len();
    let mut i: usize = 0;
    while i < n
        invariant
            n == s@.len(),
            i <= n,
            forall|q: int| 0 <= q < i ==> s@[q] != c,
        decreases n - i,
    {
        if s.get_char(i) == c {
            return true;
        }
        i += 1;
    }
    false
}

fn common_chars_exec(a: &str, b: &str) -> (r: usize)
    ensures
        r == common_chars(a@, b@),
        r <= a@.len(),
{
    let n = a.unicode_len();
    let mut count: usize = 0;
    let mut i: usize = 0;
    while i < n
        invariant
            n == a@.len(),
            i <= n,
            count == common_chars(a@.take(i as int), b@),
            count <= i,
        decreases n - i,
    {
        assert(a@.take(i + 1).drop_last() =~= a@.take(i as int));
        if contains_char(b, a.get_char(i)) {
            count += 1;
        }
        i += 1;
    }
    assert(a@.take(n as int) =~= a@);
    count
}

/// The engine's stages in order: exact hash, name, the size and complexity
/// gate, fuzzy.
pub open spec fn engine_stages() -> Seq<Stage> {
    seq![Stage::ExactHash, Stage::Name, Stage::Shape, Stage::Fuzzy]
}

pub open spec fn similarity_sum(ms: Seq<MatchView>) -> nat
    decreases ms.len(),
{
    if ms.len() == 0 {
        0
    } else {
        similarity_sum(ms.drop_last()) + ms.last().similarity as nat
    }
}

/// The mean similarity of the matches, rounded down; 0 when there is none.
pub open spec fn mean_similarity(ms: Seq<MatchView>) -> nat {
    if ms.len() == 0 {
        0
    } else {
        similarity_sum(ms) / ms.len()
    }
}

/// The diff of two function lists: the matches, the functions of each side
/// that no match claimed, and the mean similarity.
pub open spec fn diff_view(
    cfg: MatchConfig,
    fa: Seq<FunctionView>,
    fb: Seq<FunctionView>,
    binary_a_name: Seq<char>,
    binary_b_name: Seq<char>,
    analysis_time: u64,
) -> DiffView {
    let s = final_state(engine_stages(), cfg, fa, fb);
    let ms = matches_of(cfg, fa, fb, s.pairs);
    DiffView {
        matched_functions: ms,
        unmatched_functions_a: unclaimed(fa, s.claimed_a),
        unmatched_functions_b: unclaimed(fb, s.claimed_b),
        similarity_score: mean_similarity(ms) as u64,
        analysis_time,
        binary_a_name,
        binary_b_name,
    }
}

/// The mean similarity of the matches, rounded down; 0 when there is none.
pub fn mean_similarity_exec(ms: &Vec<FunctionMatch>) -> (r: u64)
    ensures
        r == mean_similarity(matches_view(ms@)),
{
    let ghost v = matches_view(ms@);
    let n = ms.len();
    if n == 0 {
        return 0;
    }
    let mut sum: u128 = 0;
    let mut i: usize = 0;
    while i < n
        invariant
            n == ms@.len(),
            v == matches_view(ms@),
            i <= n,
            sum == similarity_sum(v.take(i as int)),
            sum <= i * 0xFFFF_FFFF_FFFF_FFFFu128,
        decreases n - i,
    {
        assert(v.take(i + 1).drop_last() =~= v.take(i as int));
        assert(v[i as int].similarity == ms@[i as int].similarity);
        sum = sum + ms[i].similarity as u128;
        i += 1;
    }
    assert(v.take(n as int) =~= v);
    proof {
        assert(sum / (n as u128) <= 0xFFFF_FFFF_FFFF_FFFFu128) by (nonlinear_arith)
            requires
                sum <= n * 0xFFFF_FFFF_FFFF_FFFFu128,
                n > 0,
        ;
    }
    (sum / (n as u128)) as u64
}

pub open spec fn has_address(fs: Seq<FunctionView>, addr: u64) -> bool {
    exists|k: int| 0 <= k < fs.len() && #[trigger] fs[k].address == addr
}

pub open spec fn matched_a(ms: Seq<MatchView>) -> Seq<FunctionView> {
    ms.map_values(|m: MatchView| m.function_a)
}

pub open spec fn matched_b(ms: Seq<MatchView>) -> Seq<FunctionView> {
    ms.map_values(|m: MatchView| m.function_b)
}

/// Each side splits into its matched and its unmatched functions.
pub open spec fn side_partitioned(fs: Seq<FunctionView>, matched: Seq<FunctionView>, rest: Seq<FunctionView>) -> bool {
    &&& forall|i: int|
        0 <= i < fs.len() ==> has_address(matched, #[trigger] fs[i].address) != has_address(
            rest,
            fs[i].address,
        )
    &&& addresses_distinct(matched)
    &&& addresses_distinct(rest)
    &&& forall|k: int|
        0 <= k < matched.len() ==> exists|i: int| 0 <= i < fs.len() && #[trigger] matched[k] == #[trigger] fs[i]
    &&& forall|k: int|
        0 <= k < rest.len() ==> exists|i: int| 0 <= i < fs.len() && #[trigger] rest[k] == #[trigger] fs[i]
}

pub open spec fn side_claims(fs: Seq<FunctionView>, claimed: Seq<bool>, idx: Seq<int>) -> bool {
    &&& addresses_distinct(fs)
    &&& claimed.len() == fs.len()
    &&& forall|k: int| 0 <= k < idx.len() ==> 0 <= #[trigger] idx[k] < fs.len() && claimed[idx[k]]
    &&& forall|k1: int, k2: int|
        0 <= k1 < idx.len() && 0 <= k2 < idx.len() && k1 != k2 ==> #[trigger] idx[k1] != #[trigger] idx[k2]
    &&& forall|i: int|
        0 <= i < fs.len() && #[trigger] claimed[i] ==> exists|k: int| 0 <= k < idx.len() && #[trigger] idx[k] == i
}

pub open spec fn picked(fs: Seq<FunctionView>, idx: Seq<int>) -> Seq<FunctionView> {
    Seq::new(idx.len(), |k: int| fs[idx[k]])
}

proof fn lemma_side_address_claimed(fs: Seq<FunctionView>, claimed: Seq<bool>, idx: Seq<int>, i: int)
    requires
        side_claims(fs, claimed, idx),
        0 <= i < fs.len(),
        claimed[i],
    ensures
        has_address(picked(fs, idx), fs[i].address),
        !has_address(unclaimed(fs, claimed), fs[i].address),
{
    let rest = unclaimed(fs, claimed);
    lemma_unclaimed_origin(fs, claimed);
    let k = choose|k: int| 0 <= k < idx.len() && #[trigger] idx[k] == i;
    assert(picked(fs, idx)[k].address == fs[i].address);
    if has_address(rest, fs[i].address) {
        let q = choose|q: int| 0 <= q < rest.len() && #[trigger] rest[q].address == fs[i].address;
        let i2 = choose|i2: int| 0 <= i2 < fs.len() && !claimed[i2] && #[trigger] rest[q] == fs[i2];
        assert(i != i2);
        if i < i2 {
            assert(fs[i].address != fs[i2].address);
        } else {
            assert(fs[i2].address != fs[i].address);
        }
    }
}

proof fn lemma_side_address_unclaimed(fs: Seq<FunctionView>, claimed: Seq<bool>, idx: Seq<int>, i: int)
    requires
        side_claims(fs, claimed, idx),
        0 <= i < fs.len(),
        !claimed[i],
    ensures
        !has_address(picked(fs, idx), fs[i].address),
        has_address(unclaimed(fs, claimed), fs[i].address),
{
    let matched = picked(fs, idx);
    let rest = unclaimed(fs, claimed);
    lemma_unclaimed_complete(fs, claimed);
    let q = choose|q: int| 0 <= q < rest.len() && rest[q] == #[trigger] fs[i];
    assert(rest[q].address == fs[i].address);
    if has_address(matched, fs[i].address) {
        let k = choose|k: int| 0 <= k < matched.len() && #[trigger] matched[k].address == fs[i].address;
        let i2 = idx[k];
        assert(claimed[i2]);
        assert(i != i2);
        if i < i2 {
            assert(fs[i].address != fs[i2].address);
        } else {
            assert(fs[i2].address != fs[i].address);
        }
    }
}

proof fn lemma_side_picked(fs: Seq<FunctionView>, claimed: Seq<bool>, idx: Seq<int>)
    requires
        side_claims(fs, claimed, idx),
    ensures
        addresses_distinct(picked(fs, idx)),
{
    let matched = picked(fs, idx);
    assert forall|p: int, q: int| 0 <= p < q < matched.len() implies #[trigger] matched[p].address
        != #[trigger] matched[q].address by {
        assert(idx[p] != idx[q]);
        if idx[p] < idx[q] {
            assert(fs[idx[p]].address != fs[idx[q]].address);
        } else {
            assert(fs[idx[q]].address != fs[idx[p]].address);
        }
    }
}

proof fn lemma_side_partition(fs: Seq<FunctionView>, claimed: Seq<bool>, idx: Seq<int>)
    requires
        side_claims(fs, claimed, idx),
    ensures
        side_partitioned(fs, picked(fs, idx), unclaimed(fs, claimed)),
{
    lemma_unclaimed_origin(fs, claimed);
    lemma_unclaimed_distinct(fs, claimed);
    lemma_side_picked(fs, claimed, idx);
    let matched = picked(fs, idx);
    assert forall|k: int| 0 <= k < matched.len() implies exists|i: int|
        0 <= i < fs.len() && #[trigger] matched[k] == #[trigger] fs[i] by {
        let i = idx[k];
        assert(0 <= i < fs.len());
        assert(matched[k] == fs[i]);
    }
    assert forall|i: int| 0 <= i < fs.len() implies has_address(picked(fs, idx), #[trigger] fs[i].address)
        != has_address(unclaimed(fs, claimed), fs[i].address) by {
        if claimed[i] {
            lemma_side_address_claimed(fs, claimed, idx, i);
        } else {
            lemma_side_address_unclaimed(fs, claimed, idx, i);
        }
    }
}

/// With distinct addresses on each side, every address of A lies in exactly
/// one of the matches' A-functions and the unmatched A-functions, no address
/// is listed twice, and every listed function is one of A; the same for B.
pub proof fn lemma_diff_partition(
    cfg: MatchConfig,
    fa: Seq<FunctionView>,
    fb: Seq<FunctionView>,
    binary_a_name: Seq<char>,
    binary_b_name: Seq<char>,
    analysis_time: u64,
)
    requires
        addresses_distinct(fa),
        addresses_distinct(fb),
    ensures
        ({
            let d = diff_view(cfg, fa, fb, binary_a_name, binary_b_name, analysis_time);
            &&& side_partitioned(fa, matched_a(d.matched_functions), d.unmatched_functions_a)
            &&& side_partitioned(fb, matched_b(d.matched_functions), d.unmatched_functions_b)
        }),
{
    let s = final_state(engine_stages(), cfg, fa, fb);
    lemma_initial_wf(fa.len(), fb.len());
    lemma_stages_wf(engine_stages(), cfg, fa, fb, initial_state(fa.len(), fb.len()));
    let ms = matches_of(cfg, fa, fb, s.pairs);
    let ia = s.pairs.map_values(|p: MatchPair| p.a);
    let ib = s.pairs.map_values(|p: MatchPair| p.b);
    assert forall|i: int| 0 <= i < fa.len() && #[trigger] s.claimed_a[i] implies exists|k: int|
        0 <= k < ia.len() && #[trigger] ia[k] == i by {
        let k = choose|k: int| 0 <= k < s.pairs.len() && #[trigger] s.pairs[k].a == i;
        assert(ia[k] == i);
    }
    assert forall|j: int| 0 <= j < fb.len() && #[trigger] s.claimed_b[j] implies exists|k: int|
        0 <= k < ib.len() && #[trigger] ib[k] == j by {
        let k = choose|k: int| 0 <= k < s.pairs.len() && #[trigger] s.pairs[k].b == j;
        assert(ib[k] == j);
    }
    assert forall|k1: int, k2: int|
        0 <= k1 < ia.len() && 0 <= k2 < ia.len() && k1 != k2 implies #[trigger] ia[k1] != #[trigger] ia[k2] by {
        assert(s.pairs[k1].a != s.pairs[k2].a);
    }
    assert forall|k1: int, k2: int|
        0 <= k1 < ib.len() && 0 <= k2 < ib.len() && k1 != k2 implies #[trigger] ib[k1] != #[trigger] ib[k2] by {
        assert(s.pairs[k1].a != s.pairs[k2].a);
        assert(s.pairs[k1].b != s.pairs[k2].b);
    }
    assert forall|k: int| 0 <= k < ia.len() implies 0 <= #[trigger] ia[k] < fa.len() && s.claimed_a[ia[k]] by {
        assert(ia[k] == s.pairs[k].a);
    }
    assert forall|k: int| 0 <= k < ib.len() implies 0 <= #[trigger] ib[k] < fb.len() && s.claimed_b[ib[k]] by {
        assert(ib[k] == s.pairs[k].b);
        assert(0 <= s.pairs[k].a < fa.len());
    }
    lemma_side_partition(fa, s.claimed_a, ia);
    lemma_side_partition(fb, s.claimed_b, ib);
    assert(matched_a(ms) =~= picked(fa, ia));
    assert(matched_b(ms) =~= picked(fb, ib));
}

/// With distinct addresses on each side, an A-function for which no stage of
/// the engine admits any B-function is listed among the unmatched
/// A-functions, and no match has its address as its A-function's.
pub proof fn lemma_no_counterpart_unmatched(
    cfg: MatchConfig,
    fa: Seq<FunctionView>,
    fb: Seq<FunctionView>,
    binary_a_name: Seq<char>,
    binary_b_name: Seq<char>,
    analysis_time: u64,
    i: int,
)
    requires
        addresses_distinct(fa),
        addresses_distinct(fb),
        0 <= i < fa.len(),
        forall|st: Stage, j: int|
            engine_stages().contains(st) && 0 <= j < fb.len() ==> !#[trigger] admits(st, cfg, fa[i], fb[j]),
    ensures
        ({
            let d = diff_view(cfg, fa, fb, binary_a_name, binary_b_name, analysis_time);
            &&& has_address(d.unmatched_functions_a, fa[i].address)
            &&& !has_address(matched_a(d.matched_functions), fa[i].address)
        }),
{
    let s0 = initial_state(fa.len(), fb.len());
    lemma_initial_wf(fa.len(), fb.len());
    lemma_no_candidate_stays_unclaimed(engine_stages(), cfg, fa, fb, s0, i);
    let s = final_state(engine_stages(), cfg, fa, fb);
    lemma_stages_wf(engine_stages(), cfg, fa, fb, s0);
    lemma_unclaimed_complete(fa, s.claimed_a);
    let u = unclaimed(fa, s.claimed_a);
    let q = choose|q: int| 0 <= q < u.len() && u[q] == #[trigger] fa[i];
    assert(u[q].address == fa[i].address);
    lemma_diff_partition(cfg, fa, fb, binary_a_name, binary_b_name, analysis_time);
}

/// The diff is a function of its inputs: two runs on the same functions,
/// names, time and thresholds give the same result.
pub proof fn lemma_diff_deterministic(
    e1: BinaryDiffEngine,
    e2: BinaryDiffEngine,
    fa: Seq<FunctionView>,
    fb: Seq<FunctionView>,
    binary_a_name: Seq<char>,
    binary_b_name: Seq<char>,
    analysis_time: u64,
    r1: DiffView,
    r2: DiffView,
)
    requires
        e1.similarity_threshold == e2.similarity_threshold,
        e1.confidence_threshold == e2.confidence_threshold,
        r1 == diff_view(e1.config(), fa, fb, binary_a_name, binary_b_name, analysis_time),
        r2 == diff_view(e2.config(), fa, fb, binary_a_name, binary_b_name, analysis_time),
    ensures
        r1 == r2,
{
}

pub struct BinaryDiffEngine {
    pub similarity_threshold: u64,
    pub confidence_threshold: u64,
}

impl BinaryDiffEngine {
    pub open spec fn config(&self) -> MatchConfig {
        MatchConfig {
            similarity_threshold: self.similarity_threshold,
            confidence_threshold: self.confidence_threshold,
            scoring: Scoring::Detailed,
        }
    }

    /// Similarity threshold 0.6, confidence threshold 0.5.
    pub fn new() -> (r: Self)
        ensures
            r.similarity_threshold == 600_000,
            r.confidence_threshold == 500_000,
    {
        BinaryDiffEngine { similarity_threshold: 600_000, confidence_threshold: 500_000 }
    }

    /// An engine with the given thresholds, each of which must lie in [0, 1].
    pub fn with_thresholds(similarity: u64, confidence: u64) -> (r: Result<Self, ConfigError>)
        ensures
            similarity > SCORE_ONE ==> r == Err::<Self, ConfigError>(
                ConfigError::SimilarityThresholdOutOfRange,
            ),
            similarity <= SCORE_ONE && confidence > SCORE_ONE ==> r == Err::<Self, ConfigError>(
                ConfigError::ConfidenceThresholdOutOfRange,
            ),
            similarity <= SCORE_ONE && confidence <= SCORE_ONE ==> (r matches Ok(e)
                && e.similarity_threshold == similarity && e.confidence_threshold == confidence),
    {
        if similarity > SCORE_ONE {
            return Err(ConfigError::SimilarityThresholdOutOfRange);
        }
        if confidence > SCORE_ONE {
            return Err(ConfigError::ConfidenceThresholdOutOfRange);
        }
        Ok(BinaryDiffEngine { similarity_threshold: similarity, confidence_threshold: confidence })
    }

    fn config_exec(&self) -> (r: MatchConfig)
        ensures
            r == self.config(),
    {
        MatchConfig {
            similarity_threshold: self.similarity_threshold,
            confidence_threshold: self.confidence_threshold,
            scoring: Scoring::Detailed,
        }
    }

    /// Runs the engine's four stages and returns the matches, stage by stage.
    pub fn compare_functions(&self, functions_a: &[FunctionInfo], functions_b: &[FunctionInfo]) -> (r: Vec<
        FunctionMatch,
    >)
        requires
            all_edges_fit(functions_view(functions_a@)),
            all_edges_fit(functions_view(functions_b@)),
        ensures
            matches_view(r@) == pipeline_matches(
                engine_stages(),
                self.config(),
                functions_view(functions_a@),
                functions_view(functions_b@),
            ),
    {
        let stages = [Stage::ExactHash, Stage::Name, Stage::Shape, Stage::Fuzzy];
        assert(stages@ =~= engine_stages());
        let cfg = self.config_exec();
        let claims = run_stages_exec(&stages, cfg, functions_a, functions_b);
        build_matches(cfg, functions_a, functions_b, &claims)
    }

    /// Diffs two function lists into a `DiffResult` that also holds the
    /// functions left unmatched on each side, in their input order.
    pub fn diff_functions(
        &self,
        functions_a: &[FunctionInfo],
        functions_b: &[FunctionInfo],
        binary_a_name: &str,
        binary_b_name: &str,
        analysis_time: u64,
    ) -> (r: DiffResult)
        requires
            all_edges_fit(functions_view(functions_a@)),
            all_edges_fit(functions_view(functions_b@)),
        ensures
            r@ == diff_view(
                self.config(),
                functions_view(functions_a@),
                functions_view(functions_b@),
                binary_a_name@,
                binary_b_name@,
                analysis_time,
            ),
    {
        let stages = [Stage::ExactHash, Stage::Name, Stage::Shape, Stage::Fuzzy];
        assert(stages@ =~= engine_stages());
        let cfg = self.config_exec();
        let claims = run_stages_exec(&stages, cfg, functions_a, functions_b);
        let matches = build_matches(cfg, functions_a, functions_b, &claims);
        let unmatched_a = unclaimed_functions(functions_a, &claims.claimed_a);
        let unmatched_b = unclaimed_functions(functions_b, &claims.claimed_b);
        let score = mean_similarity_exec(&matches);
        DiffResult {
            matched_functions: matches,
            unmatched_functions_a: unmatched_a,
            unmatched_functions_b: unmatched_b,
            similarity_score: score,
            analysis_time,
            binary_a_name: binary_a_name.to_owned(),
            binary_b_name: binary_b_name.to_owned(),
        }
    }
    /// The detailed similarity of two functions and its sub-scores.
    pub fn calculate_detailed_similarity(func_a: &FunctionInfo, func_b: &FunctionInfo) -> (r: (
        u64,
        MatchDetails,
    ))
        ensures
            r.0 == detailed_similarity(func_a@, func_b@),
            r.0 <= SCORE_ONE,
            r.1 == detailed_details(func_a@, func_b@),
    {
        let cfg = if func_a.cfg_hash == func_b.cfg_hash {
            SCORE_ONE
        } else {
            0
        };
        let bb = Self::calculate_bb_similarity(func_a, func_b);
        let instr = Self::calculate_instruction_similarity(func_a, func_b);
        let edge = Self::calculate_edge_similarity(func_a, func_b);
        let name = Self::calculate_name_similarity(&func_a.name, &func_b.name);
        let call = Self::calculate_call_similarity(func_a, func_b);
        let sim = (50 * cfg + 15 * bb + 10 * instr + 25 * edge) / 100;
        (
            sim,
            MatchDetails {
                cfg_similarity: cfg,
                bb_similarity: bb,
                instruction_similarity: instr,
                edge_similarity: edge,
                name_similarity: name,
                call_similarity: call,
            },
        )
    }

    pub fn calculate_bb_similarity(func_a: &FunctionInfo, func_b: &FunctionInfo) -> (r: u64)
        ensures
            r == detailed_bb(func_a@, func_b@),
            r <= SCORE_ONE,
    {
        count_closeness(func_a.basic_blocks.len() as u64, func_b.basic_blocks.len() as u64)
    }

    pub fn calculate_instruction_similarity(func_a: &FunctionInfo, func_b: &FunctionInfo) -> (r: u64)
        ensures
            r == detailed_instruction(func_a@, func_b@),
            r <= SCORE_ONE,
    {
        count_closeness(func_a.instruction_count as u64, func_b.instruction_count as u64)
    }

    pub fn calculate_edge_similarity(func_a: &FunctionInfo, func_b: &FunctionInfo) -> (r: u64)
        ensures
            r == detailed_edge(func_a@, func_b@),
            r <= SCORE_ONE,
    {
        count_closeness(func_a.cyclomatic_complexity as u64, func_b.cyclomatic_complexity as u64)
    }

    pub fn calculate_call_similarity(func_a: &FunctionInfo, func_b: &FunctionInfo) -> (r: u64)
        ensures
            r == call_similarity(func_a@, func_b@),
            r <= SCORE_ONE,
    {
        count_closeness(func_a.call_count as u64, func_b.call_count as u64)
    }

    pub fn calculate_name_similarity(name_a: &str, name_b: &str) -> (r: u64)
        ensures
            r == name_similarity(name_a@, name_b@),
            r <= SCORE_ONE,
    {
        let la = name_a.unicode_len() as u64;
        let lb = name_b.unicode_len() as u64;
        let b_in_a = contains_str(name_a, name_b);
        proof {
            lemma_equal_as_substring(name_a@, name_b@);
        }
        if la == lb && b_in_a {
            return SCORE_ONE;
        }
        if b_in_a || contains_str(name_b, name_a) {
            return CONTAINED_NAME_SCORE;
        }
        let common = common_chars_exec(name_a, name_b);
        let longest = if la >= lb {
            la
        } else {
            lb
        };
        scaled_ratio(common as u64, longest)
    }

    /// Similarity plus the engine's boosts, at most 1.
    pub fn calculate_confidence(func_a: &FunctionInfo, func_b: &FunctionInfo, similarity: u64) -> (r: u64)
        requires
            similarity <= SCORE_ONE,
        ensures
            r == engine_confidence(func_a@, func_b@, similarity as nat),
            r <= SCORE_ONE,
            similarity <= r,
    {
        let mut c = similarity;
        if sizes_close_exec(func_a.size, func_b.size) {
            c = c + BOOST;
        }
        if abs_diff_u64(func_a.cyclomatic_complexity as u64, func_b.cyclomatic_complexity as u64) < 2 {
            c = c + BOOST;
        }
        if abs_diff_u64(func_a.basic_blocks.len() as u64, func_b.basic_blocks.len() as u64) < 2 {
            c = c + BOOST;
        }
        if func_a.name == func_b.name {
            c = c + NAME_BOOST;
        }
        if c > SCORE_ONE {
            SCORE_ONE
        } else {
            c
        }
    }

    /// Block counts and complexities within 2 and sizes within 30%.
    pub fn is_structurally_similar(func_a: &FunctionInfo, func_b: &FunctionInfo) -> (r: bool)
        ensures
            r == shape_gate(func_a@, func_b@),
    {
        let bb_diff = abs_diff_u64(func_a.basic_blocks.len() as u64, func_b.basic_blocks.len() as u64);
        let cc_diff = abs_diff_u64(func_a.cyclomatic_complexity as u64, func_b.cyclomatic_complexity as u64);
        let size_diff = abs_diff_u64(func_a.size, func_b.size) as u128;
        let larger = if func_a.size >= func_b.size {
            func_a.size
        } else {
            func_b.size
        } as u128;
        bb_diff <= 2 && cc_diff <= 2 && 10 * size_diff < 3 * larger
    }
}

} // verus!
