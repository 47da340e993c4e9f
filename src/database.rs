//! The stored form of a diff and the statistics drawn from it.
use crate::engine::{matched_a, matched_b, mean_similarity, mean_similarity_exec};
use crate::ui::{type_count, DiffUI};
use crate::{functions_view, matches_view, DiffResult, FunctionInfo, FunctionMatch, MatchType, MatchView};
use vstd::prelude::*;

verus! {

pub struct DatabaseMetadata {
    pub created_at: String,
    pub plugin_version: String,
    pub binary_a_hash: String,
    pub binary_b_hash: String,
    pub total_functions_a: usize,
    pub total_functions_b: usize,
    pub total_matches: usize,
    /// Elapsed analysis time in microseconds.
    pub analysis_time: u64,
}

pub struct DiffDatabase {
    pub binary_a_path: String,
    pub binary_b_path: String,
    pub functions_a: Vec<FunctionInfo>,
    pub functions_b: Vec<FunctionInfo>,
    pub matches: Vec<FunctionMatch>,
    pub metadata: DatabaseMetadata,
}

#[derive(Debug, Clone, Copy, PartialEq, Eq, Structural)]
pub struct DiffStatistics {
    pub total_matches: usize,
    pub exact_matches: usize,
    pub structural_matches: usize,
    pub heuristic_matches: usize,
    pub manual_matches: usize,
    pub average_similarity: u64,
    pub average_confidence: u64,
    pub unmatched_functions_a: usize,
    pub unmatched_functions_b: usize,
}

pub open spec fn confidence_sum(ms: Seq<MatchView>) -> nat
    decreases ms.len(),
{
    if ms.len() == 0 {
        0
    } else {
        confidence_sum(ms.drop_last()) + ms.last().confidence as nat
    }
}

/// The mean confidence of the matches, rounded down; 0 when there is none.
pub open spec fn mean_confidence(ms: Seq<MatchView>) -> nat {
    if ms.len() == 0 {
        0
    } else {
        confidence_sum(ms) / ms.len()
    }
}

fn mean_confidence_exec(ms: &Vec<FunctionMatch>) -> (r: u64)
    ensures
        r == mean_confidence(matches_view(ms@)),
{
    let ghost v = matches_view(ms@);
    let n = ms.len();
    if n == 0 {
        return 0;
    }
    let mut sum: u128 = 0;
    let mut i: usize = 0;
    while i < n
        invariant
            n == ms@.len(),
            v == matches_view(ms@),
            i <= n,
            sum == confidence_sum(v.take(i as int)),
            sum <= i * 0xFFFF_FFFF_FFFF_FFFFu128,
        decreases n - i,
    {
        assert(v.take(i + 1).drop_last() =~= v.take(i as int));
        assert(v[i as int].confidence == ms@[i as int].confidence);
        sum = sum + ms[i].confidence as u128;
        i += 1;
    }
    assert(v.take(n as int) =~= v);
    proof {
        assert(sum / (n as u128) <= 0xFFFF_FFFF_FFFF_FFFFu128) by (nonlinear_arith)
            requires
                sum <= n * 0xFFFF_FFFF_FFFF_FFFFu128,
                n > 0,
        ;
    }
    (sum / (n as u128)) as u64
}

/// Copies of the functions of the matches on one side, then of the
/// unmatched ones.
fn side_functions(matches: &Vec<FunctionMatch>, unmatched: &Vec<FunctionInfo>, side_a: bool) -> (r: Vec<
    FunctionInfo,
>)
    ensures
        functions_view(r@) == (if side_a {
            matched_a(matches_view(matches@))
        } else {
            matched_b(matches_view(matches@))
        }) + functions_view(unmatched@),
{
    let ghost ms = matches_view(matches@);
    let ghost head = if side_a {
        matched_a(ms)
    } else {
        matched_b(ms)
    };
    let mut out: Vec<FunctionInfo> = Vec::new();
    let mut i: usize = 0;
    while i < matches.len()
        invariant
            i <= matches@.len(),
            ms == matches_view(matches@),
            head == (if side_a {
                matched_a(ms)
            } else {
                matched_b(ms)
            }),
            out@.len() == i,
            forall|q: int| 0 <= q < i ==> #[trigger] out@[q]@ == head[q],
        decreases matches@.len() - i,
    {
        let f = if side_a {
            matches[i].function_a.clone()
        } else {
            matches[i].function_b.clone()
        };
        out.push(f);
        i += 1;
    }
    let mut k: usize = 0;
    while k < unmatched.len()
        invariant
            k <= unmatched@.len(),
            out@.len() == matches@.len() + k,
            head.len() == matches@.len(),
            forall|q: int| 0 <= q < matches@.len() ==> #[trigger] out@[q]@ == head[q],
            forall|q: int|
                0 <= q < k ==> #[trigger] out@[matches@.len() + q]@ == unmatched@[q]@,
        decreases unmatched@.len() - k,
    {
        out.push(unmatched[k].clone());
        k += 1;
    }
    let ghost whole = head + functions_view(unmatched@);
    assert forall|q: int| 0 <= q < out@.len() implies functions_view(out@)[q] == whole[q] by {
        if q >= matches@.len() {
            assert(out@[matches@.len() + (q - matches@.len())]@ == unmatched@[q - matches@.len()]@);
        }
    }
    assert(functions_view(out@) =~= whole);
    out
}

pub struct DatabaseManager;

impl DatabaseManager {
    /// The stored form of a diff: all functions of each side, matched ones
    /// first, the matches, and the totals.
    pub fn build_database(
        diff_result: &DiffResult,
        binary_a_path: &str,
        binary_b_path: &str,
        created_at: String,
        plugin_version: String,
    ) -> (r: DiffDatabase)
        requires
            diff_result.matched_functions@.len() + diff_result.unmatched_functions_a@.len() <= usize::MAX,
            diff_result.matched_functions@.len() + diff_result.unmatched_functions_b@.len() <= usize::MAX,
        ensures
            r.binary_a_path@ == binary_a_path@,
            r.binary_b_path@ == binary_b_path@,
            functions_view(r.functions_a@) == matched_a(diff_result@.matched_functions)
                + diff_result@.unmatched_functions_a,
            functions_view(r.functions_b@) == matched_b(diff_result@.matched_functions)
                + diff_result@.unmatched_functions_b,
            matches_view(r.matches@) == diff_result@.matched_functions,
            r.metadata.created_at == created_at,
            r.metadata.plugin_version == plugin_version,
            r.metadata.binary_a_hash@.len() == 0,
            r.metadata.binary_b_hash@.len() == 0,
            r.metadata.total_functions_a == diff_result.matched_functions@.len()
                + diff_result.unmatched_functions_a@.len(),
            r.metadata.total_functions_b == diff_result.matched_functions@.len()
                + diff_result.unmatched_functions_b@.len(),
            r.metadata.total_matches == diff_result.matched_functions@.len(),
            r.metadata.analysis_time == diff_result.analysis_time,
    {
        let functions_a = side_functions(&diff_result.matched_functions, &diff_result.unmatched_functions_a, true);
        let functions_b = side_functions(&diff_result.matched_functions, &diff_result.unmatched_functions_b, false);
        let mut matches: Vec<FunctionMatch> = Vec::new();
        let mut i: usize = 0;
        while i < diff_result.matched_functions.len()
            invariant
                i <= diff_result.matched_functions@.len(),
                matches@.len() == i,
                forall|q: int| 0 <= q < i ==> #[trigger] matches@[q]@ == diff_result.matched_functions@[q]@,
            decreases diff_result.matched_functions@.len() - i,
        {
            matches.push(diff_result.matched_functions[i].clone());
            i += 1;
        }
        assert(matches_view(matches@) =~= diff_result@.matched_functions);
        let metadata = DatabaseMetadata {
            created_at,
            plugin_version,
            binary_a_hash: String::new(),
            binary_b_hash: String::new(),
            total_functions_a: diff_result.matched_functions.len() + diff_result.unmatched_functions_a.len(),
            total_functions_b: diff_result.matched_functions.len() + diff_result.unmatched_functions_b.len(),
            total_matches: diff_result.matched_functions.len(),
            analysis_time: diff_result.analysis_time,
        };
        DiffDatabase {
            binary_a_path: binary_a_path.to_owned(),
            binary_b_path: binary_b_path.to_owned(),
            functions_a,
            functions_b,
            matches,
            metadata,
        }
    }

    /// Counts by match type, mean similarity and confidence, and the
    /// functions of each side left unmatched.
    pub fn generate_statistics(database: &DiffDatabase) -> (r: DiffStatistics)
        requires
            database.matches@.len() <= database.metadata.total_functions_a,
            database.matches@.len() <= database.metadata.total_functions_b,
        ensures
            r.total_matches == database.matches@.len(),
            r.exact_matches == type_count(matches_view(database.matches@), MatchType::Exact),
            r.structural_matches == type_count(
                matches_view(database.matches@),
                MatchType::StructuralMatch,
            ),
            r.heuristic_matches == type_count(matches_view(database.matches@), MatchType::Heuristic),
            r.manual_matches == type_count(matches_view(database.matches@), MatchType::Manual),
            r.average_similarity == mean_similarity(matches_view(database.matches@)),
            r.average_confidence == mean_confidence(matches_view(database.matches@)),
            r.unmatched_functions_a == database.metadata.total_functions_a - database.matches@.len(),
            r.unmatched_functions_b == database.metadata.total_functions_b - database.matches@.len(),
    {
        let counts = DiffUI::count_match_types(database.matches.as_slice());
        let total = database.matches.len();
        DiffStatistics {
            total_matches: total,
            exact_matches: counts.exact,
            structural_matches: counts.structural,
            heuristic_matches: counts.heuristic,
            manual_matches: counts.manual,
            average_similarity: mean_similarity_exec(&database.matches),
            average_confidence: mean_confidence_exec(&database.matches),
            unmatched_functions_a: database.metadata.total_functions_a - total,
            unmatched_functions_b: database.metadata.total_functions_b - total,
        }
    }
}

} // verus!
