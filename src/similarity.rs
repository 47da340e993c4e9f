//! Auxiliary similarity metrics: edit distance, Jaccard similarity of
//! extracted operand sets, and a graph comparison of control-flow graphs.
use crate::algorithms::{closeness, max_nat, min_nat, mnemonics, ratio, scaled_ratio};
use crate::engine::{contains_str, is_substring};
use crate::{
    strings_view, BasicBlockInfo, BlockView, FunctionInfo, FunctionView, InstructionInfo,
    InstructionView, SCORE_ONE,
};
use petgraph::graph::{Graph, NodeIndex};
use vstd::prelude::*;
use vstd::string::StrSliceExecFns;

verus! {

pub open spec fn min3(x: nat, y: nat, z: nat) -> nat {
    min_nat(min_nat(x, y), z)
}

/// The Levenshtein distance: insertions, deletions and substitutions.
pub open spec fn levenshtein(a: Seq<char>, b: Seq<char>) -> nat
    decreases a.len() + b.len(),
{
    if a.len() == 0 {
        b.len()
    } else if b.len() == 0 {
        a.len()
    } else if a.last() == b.last() {
        levenshtein(a.drop_last(), b.drop_last())
    } else {
        1 + min3(
            levenshtein(a.drop_last(), b),
            levenshtein(a, b.drop_last()),
            levenshtein(a.drop_last(), b.drop_last()),
        )
    }
}

proof fn lemma_levenshtein_bound(a: Seq<char>, b: Seq<char>)
    ensures
        levenshtein(a, b) <= max_nat(a.len(), b.len()),
    decreases a.len() + b.len(),
{
    if a.len() > 0 && b.len() > 0 {
        lemma_levenshtein_bound(a.drop_last(), b.drop_last());
    }
}

/// 1 - distance / longer length; 0 when both are empty.
pub open spec fn normalized_similarity(a: Seq<char>, b: Seq<char>) -> nat {
    let m = max_nat(a.len(), b.len());
    if m == 0 {
        0
    } else {
        ratio((m - levenshtein(a, b)) as nat, m)
    }
}

/// The elements of `s` at their first occurrence, in order.
pub open spec fn distinct(s: Seq<Seq<char>>) -> Seq<Seq<char>>
    decreases s.len(),
{
    if s.len() == 0 {
        Seq::empty()
    } else {
        let rest = distinct(s.drop_last());
        if rest.contains(s.last()) {
            rest
        } else {
            rest.push(s.last())
        }
    }
}

/// How many elements of `a` occur in `b`.
pub open spec fn shared_count(a: Seq<Seq<char>>, b: Seq<Seq<char>>) -> nat
    decreases a.len(),
{
    if a.len() == 0 {
        0
    } else {
        shared_count(a.drop_last(), b) + if b.contains(a.last()) {
            1nat
        } else {
            0nat
        }
    }
}

/// The Jaccard similarity of the sets of elements of `a` and `b`: the size
/// of the intersection over the size of the union, 1 for two empty sets.
pub open spec fn jaccard(a: Seq<Seq<char>>, b: Seq<Seq<char>>) -> nat {
    let da = distinct(a);
    let db = distinct(b);
    let union = da.len() + (db.len() - shared_count(db, da));
    if union == 0 {
        SCORE_ONE as nat
    } else {
        ratio(shared_count(da, db), union as nat)
    }
}

proof fn lemma_shared_count_bound(a: Seq<Seq<char>>, b: Seq<Seq<char>>)
    ensures
        shared_count(a, b) <= a.len(),
    decreases a.len(),
{
    if a.len() > 0 {
        lemma_shared_count_bound(a.drop_last(), b);
    }
}

/// The mnemonic sequence of instructions joined by single spaces.
pub open spec fn joined(ms: Seq<Seq<char>>) -> Seq<char>
    decreases ms.len(),
{
    if ms.len() == 0 {
        Seq::empty()
    } else if ms.len() == 1 {
        ms[0]
    } else {
        joined(ms.drop_last()) + seq![' '] + ms.last()
    }
}

pub open spec fn instruction_mnemonics(is: Seq<InstructionView>) -> Seq<Seq<char>> {
    is.map_values(|i: InstructionView| i.mnemonic)
}

/// 1 for two empty sequences, 0 when exactly one is empty, else the
/// normalized edit similarity of the space-joined mnemonics.
pub open spec fn sequence_similarity(a: Seq<InstructionView>, b: Seq<InstructionView>) -> nat {
    if a.len() == 0 && b.len() == 0 {
        SCORE_ONE as nat
    } else if a.len() == 0 || b.len() == 0 {
        0
    } else {
        normalized_similarity(joined(instruction_mnemonics(a)), joined(instruction_mnemonics(b)))
    }
}

/// What `str::to_lowercase` returns on `s`.
pub uninterp spec fn lower_of(s: Seq<char>) -> Seq<char>;

pub open spec fn is_ascii_digit(c: char) -> bool {
    '0' <= c && c <= '9'
}

/// The value of a run of decimal digits.
pub open spec fn digits_value(s: Seq<char>) -> int
    decreases s.len(),
{
    if s.len() == 0 {
        0
    } else {
        digits_value(s.drop_last()) * 10 + (s.last() as u32 - '0' as u32)
    }
}

pub open spec fn has_sign(s: Seq<char>) -> bool {
    s.len() > 0 && (s[0] == '-' || s[0] == '+')
}

/// `s` without its leading sign, if any.
pub open spec fn unsigned_part(s: Seq<char>) -> Seq<char> {
    if has_sign(s) {
        s.subrange(1, s.len() as int)
    } else {
        s
    }
}

pub open spec fn all_digits(s: Seq<char>) -> bool {
    forall|k: int| 0 <= k < s.len() ==> is_ascii_digit(#[trigger] s[k])
}

pub open spec fn signed_value(s: Seq<char>) -> int {
    if has_sign(s) && s[0] == '-' {
        -digits_value(unsigned_part(s))
    } else {
        digits_value(unsigned_part(s))
    }
}

/// An optional sign followed by at least one digit, of a value in `i64`.
pub open spec fn parses_as_i64(s: Seq<char>) -> bool {
    unsigned_part(s).len() > 0 && all_digits(unsigned_part(s)) && i64::MIN <= signed_value(s)
        <= i64::MAX
}

pub open spec fn call_word() -> Seq<char> {
    seq!['c', 'a', 'l', 'l']
}

/// The first operand of each instruction whose lower-cased mnemonic holds
/// `call`.
pub open spec fn call_targets(is: Seq<InstructionView>) -> Seq<Seq<char>>
    decreases is.len(),
{
    if is.len() == 0 {
        Seq::empty()
    } else {
        let rest = call_targets(is.drop_last());
        let i = is.last();
        if is_substring(call_word(), lower_of(i.mnemonic)) && i.operands.len() > 0 {
            rest.push(i.operands[0])
        } else {
            rest
        }
    }
}

pub open spec fn is_constant_operand(op: Seq<char>) -> bool {
    (op.len() > 0 && op[0] == '#') || (op.len() >= 2 && op[0] == '0' && op[1] == 'x') || parses_as_i64(op)
}

pub open spec fn is_string_operand(op: Seq<char>) -> bool {
    op.len() > 0 && op[0] == '"' && op.last() == '"'
}

pub open spec fn operand_kept(op: Seq<char>, constants: bool) -> bool {
    if constants {
        is_constant_operand(op)
    } else {
        is_string_operand(op)
    }
}

/// The operands, in order, that `operand_kept` keeps.
pub open spec fn kept_operands(ops: Seq<Seq<char>>, constants: bool) -> Seq<Seq<char>>
    decreases ops.len(),
{
    if ops.len() == 0 {
        Seq::empty()
    } else {
        let rest = kept_operands(ops.drop_last(), constants);
        if operand_kept(ops.last(), constants) {
            rest.push(ops.last())
        } else {
            rest
        }
    }
}

/// The operands of all instructions, in order, that are constants (when
/// `constants`) or string literals (otherwise).
pub open spec fn operands_where(is: Seq<InstructionView>, constants: bool) -> Seq<Seq<char>>
    decreases is.len(),
{
    if is.len() == 0 {
        Seq::empty()
    } else {
        operands_where(is.drop_last(), constants) + kept_operands(is.last().operands, constants)
    }
}

#[verifier::external_type_specification]
#[verifier::external_body]
#[verifier::reject_recursive_types(N)]
#[verifier::reject_recursive_types(E)]
#[verifier::reject_recursive_types(Ty)]
#[verifier::reject_recursive_types(Ix)]
pub struct ExGraph<N, E, Ty, Ix>(Graph<N, E, Ty, Ix>);

#[verifier::external_type_specification]
#[verifier::external_body]
pub struct ExDirected(petgraph::Directed);

/// The node weights of a petgraph graph, in index order.
pub uninterp spec fn graph_nodes(g: Graph<u64, ()>) -> Seq<u64>;

/// The edges of a petgraph graph as (source, target) node indices, in
/// index order.
pub uninterp spec fn graph_edges(g: Graph<u64, ()>) -> Seq<(nat, nat)>;

/// The largest index whose address is `x`, or -1.
pub open spec fn last_index(addrs: Seq<u64>, x: u64) -> int
    decreases addrs.len(),
{
    if addrs.len() == 0 {
        -1
    } else if addrs.last() == x {
        addrs.len() - 1
    } else {
        last_index(addrs.drop_last(), x)
    }
}

pub open spec fn block_addresses(bs: Seq<BlockView>) -> Seq<u64> {
    bs.map_values(|b: BlockView| b.address)
}

/// The edges from node `from` to the last block of each target address that
/// some block has.
pub open spec fn target_edges(addrs: Seq<u64>, from: int, ts: Seq<u64>) -> Seq<(nat, nat)>
    decreases ts.len(),
{
    if ts.len() == 0 {
        Seq::empty()
    } else {
        let rest = target_edges(addrs, from, ts.drop_last());
        let k = last_index(addrs, ts.last());
        if k >= 0 {
            rest.push((from as nat, k as nat))
        } else {
            rest
        }
    }
}

/// The control-flow graph's edges: for each block in order, from the last
/// block with its address to the last block at each successor address.
pub open spec fn cfg_edges(bs: Seq<BlockView>, addrs: Seq<u64>) -> Seq<(nat, nat)>
    decreases bs.len(),
{
    if bs.len() == 0 {
        Seq::empty()
    } else {
        cfg_edges(bs.drop_last(), addrs) + target_edges(addrs, last_index(addrs, bs.last().address), bs.last().edges)
    }
}

pub open spec fn cfg_edge_count(f: FunctionView) -> nat {
    cfg_edges(f.basic_blocks, block_addresses(f.basic_blocks)).len()
}

/// 1 for two empty graphs, else 0.6 of the node-count closeness (0 when one
/// has no node) and 0.4 of the edge-count closeness.
pub open spec fn graph_similarity(nodes_a: nat, nodes_b: nat, edges_a: nat, edges_b: nat) -> nat {
    if nodes_a == 0 && nodes_b == 0 {
        SCORE_ONE as nat
    } else {
        (6 * closeness(nodes_a, nodes_b) + 4 * closeness(edges_a, edges_b)) / 10
    }
}

/// A function's graph fits petgraph's default 32-bit indices.
pub open spec fn graph_fits(f: FunctionView) -> bool {
    f.basic_blocks.len() < 0xFFFF_FFFF && crate::algorithms::edge_total(f) < 0xFFFF_FFFF
}

pub open spec fn control_flow_score(a: FunctionView, b: FunctionView) -> nat {
    graph_similarity(a.basic_blocks.len(), b.basic_blocks.len(), cfg_edge_count(a), cfg_edge_count(b))
}

/// 0.3 control flow, 0.2 calls, 0.2 constants, 0.1 strings, 0.2 the
/// instruction sequence.
pub open spec fn comprehensive_score(a: FunctionView, b: FunctionView) -> nat {
    (3 * control_flow_score(a, b) + 2 * jaccard(call_targets(a.instructions), call_targets(b.instructions))
        + 2 * jaccard(operands_where(a.instructions, true), operands_where(b.instructions, true)) + jaccard(
        operands_where(a.instructions, false),
        operands_where(b.instructions, false),
    ) + 2 * sequence_similarity(a.instructions, b.instructions)) / 10
}

proof fn lemma_target_edges_len(addrs: Seq<u64>, from: int, ts: Seq<u64>)
    ensures
        target_edges(addrs, from, ts).len() <= ts.len(),
    decreases ts.len(),
{
    if ts.len() > 0 {
        lemma_target_edges_len(addrs, from, ts.drop_last());
    }
}

proof fn lemma_cfg_edges_len(bs: Seq<BlockView>, addrs: Seq<u64>)
    ensures
        cfg_edges(bs, addrs).len() <= crate::algorithms::edge_sum(bs),
    decreases bs.len(),
{
    if bs.len() > 0 {
        lemma_cfg_edges_len(bs.drop_last(), addrs);
        lemma_target_edges_len(addrs, last_index(addrs, bs.last().address), bs.last().edges);
    }
}

proof fn lemma_last_index_found(addrs: Seq<u64>, i: int)
    requires
        0 <= i < addrs.len(),
    ensures
        i <= last_index(addrs, addrs[i]),
    decreases addrs.len(),
{
    if i < addrs.len() - 1 && addrs.last() != addrs[i] {
        lemma_last_index_found(addrs.drop_last(), i);
        assert(addrs.drop_last()[i] == addrs[i]);
    }
}

proof fn lemma_last_index_range(addrs: Seq<u64>, x: u64)
    ensures
        -1 <= last_index(addrs, x) < addrs.len(),
        last_index(addrs, x) >= 0 ==> addrs[last_index(addrs, x)] == x,
    decreases addrs.len(),
{
    if addrs.len() > 0 && addrs.last() != x {
        lemma_last_index_range(addrs.drop_last(), x);
    }
}

/// The characters of `s`.
fn chars_of(s: &str) -> (r: Vec<char>)
    ensures
        r@ == s@,
{
    let n = s.unicode_len();
    let mut out: Vec<char> = Vec::new();
    let mut i: usize = 0;
    while i < n
        invariant
            n == s@.len(),
            i <= n,
            out@ == s@.take(i as int),
        decreases n - i,
    {
        out.push(s.get_char(i));
        assert(out@ =~= s@.take(i + 1));
        i += 1;
    }
    assert(s@.take(n as int) =~= s@);
    out
}

/// The Levenshtein distance of two character sequences, one row at a time.
fn levenshtein_exec(a: &Vec<char>, b: &Vec<char>) -> (r: usize)
    ensures
        r == levenshtein(a@, b@),
{
    let la = a.len();
    let lb = b.len();
    let mut prev: Vec<usize> = Vec::new();
    let mut j: usize = 0;
    while j < lb
        invariant
            lb == b@.len(),
            j <= lb,
            prev@.len() == j,
            forall|q: int| 0 <= q < j ==> prev@[q] == levenshtein(a@.take(0), b@.take(q)),
        decreases lb - j,
    {
        assert(a@.take(0).len() == 0);
        prev.push(j);
        j += 1;
    }
    assert(a@.take(0).len() == 0);
    prev.push(lb);
    let mut i: usize = 0;
    while i < la
        invariant
            la == a@.len(),
            lb == b@.len(),
            i <= la,
            prev@.len() == lb + 1,
            forall|q: int| 0 <= q <= lb ==> prev@[q] == levenshtein(a@.take(i as int), b@.take(q)),
        decreases la - i,
    {
        let ghost ai = a@.take(i + 1);
        let ghost ap = a@.take(i as int);
        assert(ai.drop_last() =~= ap);
        assert(ai.last() == a@[i as int]);
        let mut cur: Vec<usize> = Vec::new();
        proof {
            assert(b@.take(0).len() == 0);
        }
        cur.push(i + 1);
        let mut j: usize = 0;
        while j < lb
            invariant
                la == a@.len(),
                lb == b@.len(),
                i < la,
                j <= lb,
                ai == a@.take(i + 1),
                ap == a@.take(i as int),
                ai.drop_last() == ap,
                ai.last() == a@[i as int],
                prev@.len() == lb + 1,
                forall|q: int| 0 <= q <= lb ==> prev@[q] == levenshtein(ap, b@.take(q)),
                cur@.len() == j + 1,
                forall|q: int| 0 <= q <= j ==> cur@[q] == levenshtein(ai, b@.take(q)),
            decreases lb - j,
        {
            let ghost bj = b@.take(j + 1);
            assert(bj.drop_last() =~= b@.take(j as int));
            assert(bj.last() == b@[j as int]);
            proof {
                lemma_levenshtein_bound(ai, bj);
            }
            let v = if a[i] == b[j] {
                prev[j]
            } else {
                let x = prev[j + 1];
                let y = cur[j];
                let z = prev[j];
                let m = if x <= y {
                    x
                } else {
                    y
                };
                let m = if m <= z {
                    m
                } else {
                    z
                };
                m + 1
            };
            assert(v == levenshtein(ai, bj));
            cur.push(v);
            j += 1;
        }
        prev = cur;
        i += 1;
    }
    assert(a@.take(la as int) =~= a@);
    assert(b@.take(lb as int) =~= b@);
    prev[lb]
}

pub struct SimilarityAnalyzer;

impl SimilarityAnalyzer {
    /// The Levenshtein distance of two strings, counted in characters.
    pub fn edit_distance(s1: &str, s2: &str) -> (r: usize)
        ensures
            r == levenshtein(s1@, s2@),
    {
        let a = chars_of(s1);
        let b = chars_of(s2);
        levenshtein_exec(&a, &b)
    }

    /// 1 - edit distance / longer length, as a score; 0 for two empty strings.
    pub fn normalized_edit_distance(s1: &str, s2: &str) -> (r: u64)
        ensures
            r == normalized_similarity(s1@, s2@),
            r <= SCORE_ONE,
    {
        let a = chars_of(s1);
        let b = chars_of(s2);
        normalized_exec(&a, &b)
    }

    /// The graph comparison of the two functions' control-flow graphs.
    pub fn control_flow_similarity(func_a: &FunctionInfo, func_b: &FunctionInfo) -> (r: u64)
        requires
            graph_fits(func_a@),
            graph_fits(func_b@),
        ensures
            r == control_flow_score(func_a@, func_b@),
            r <= SCORE_ONE,
    {
        let ga = build_cfg_graph(func_a);
        let gb = build_cfg_graph(func_b);
        let na = node_count(&ga) as u64;
        let nb = node_count(&gb) as u64;
        if na == 0 && nb == 0 {
            return SCORE_ONE;
        }
        let node_sim = crate::algorithms::count_closeness(na, nb);
        let edge_sim = crate::algorithms::count_closeness(edge_count(&ga) as u64, edge_count(&gb) as u64);
        (6 * node_sim + 4 * edge_sim) / 10
    }

    /// The weighted mean of the control-flow, call, constant, string and
    /// instruction-sequence similarities.
    pub fn comprehensive_similarity(func_a: &FunctionInfo, func_b: &FunctionInfo) -> (r: u64)
        requires
            graph_fits(func_a@),
            graph_fits(func_b@),
        ensures
            r == comprehensive_score(func_a@, func_b@),
            r <= SCORE_ONE,
    {
        let cf = Self::control_flow_similarity(func_a, func_b);
        let calls = Self::function_call_similarity(func_a, func_b);
        let consts = Self::constant_similarity(func_a, func_b);
        let strs = Self::string_similarity(func_a, func_b);
        let seq = Self::instruction_sequence_similarity(
            func_a.instructions.as_slice(),
            func_b.instructions.as_slice(),
        );
        (3 * cf + 2 * calls + 2 * consts + strs + 2 * seq) / 10
    }

    /// The Jaccard similarity of two sets of strings, each given as a list.
    pub fn jaccard_similarity(set_a: &Vec<String>, set_b: &Vec<String>) -> (r: u64)
        ensures
            r == jaccard(strings_view(set_a@), strings_view(set_b@)),
            r <= SCORE_ONE,
    {
        let da = distinct_strings(set_a);
        let db = distinct_strings(set_b);
        let inter = shared_exec(&da, &db);
        let only_b = db.len() - shared_exec(&db, &da);
        let union = da.len() as u128 + only_b as u128;
        proof {
            lemma_shared_count_bound(strings_view(da@), strings_view(db@));
        }
        if union == 0 {
            return SCORE_ONE;
        }
        wide_ratio(inter as u128, union)
    }

    /// The Jaccard similarity of the two blocks' mnemonic sets.
    pub fn basic_block_mnemonic_similarity(bb_a: &BasicBlockInfo, bb_b: &BasicBlockInfo) -> (r: u64)
        ensures
            r == jaccard(instruction_mnemonics(bb_a@.instructions), instruction_mnemonics(bb_b@.instructions)),
            r <= SCORE_ONE,
    {
        let ma = mnemonic_list(&bb_a.instructions);
        let mb = mnemonic_list(&bb_b.instructions);
        Self::jaccard_similarity(&ma, &mb)
    }

    /// The normalized edit similarity of the space-joined mnemonics.
    pub fn instruction_sequence_similarity(instrs_a: &[InstructionInfo], instrs_b: &[InstructionInfo]) -> (r:
        u64)
        ensures
            r == sequence_similarity(
                crate::instructions_view(instrs_a@),
                crate::instructions_view(instrs_b@),
            ),
            r <= SCORE_ONE,
    {
        if instrs_a.len() == 0 && instrs_b.len() == 0 {
            return SCORE_ONE;
        }
        if instrs_a.len() == 0 || instrs_b.len() == 0 {
            return 0;
        }
        let a = joined_mnemonics(instrs_a);
        let b = joined_mnemonics(instrs_b);
        normalized_exec(&a, &b)
    }

    /// The first operand of each call instruction.
    pub fn extract_function_calls(func: &FunctionInfo) -> (r: Vec<String>)
        ensures
            strings_view(r@) == call_targets(func@.instructions),
    {
        let ghost is = func@.instructions;
        let mut out: Vec<String> = Vec::new();
        let mut i: usize = 0;
        while i < func.instructions.len()
            invariant
                i <= func.instructions@.len(),
                is == func@.instructions,
                strings_view(out@) == call_targets(is.take(i as int)),
            decreases func.instructions@.len() - i,
        {
            let ghost before = out@;
            assert(is.take(i + 1).drop_last() =~= is.take(i as int));
            let instr = &func.instructions[i];
            assert(is[i as int] == instr@);
            let lowered = lowercase(instr.mnemonic.as_str());
            if Self::is_call_mnemonic(lowered.as_str()) && instr.operands.len() > 0 {
                out.push(instr.operands[0].clone());
                assert(strings_view(out@) =~= strings_view(before).push(instr.operands@[0]@));
            }
            i += 1;
        }
        assert(is.take(func.instructions@.len() as int) =~= is);
        out
    }

    /// A lower-cased mnemonic names a call when it holds `call`.
    pub fn is_call_mnemonic(lowered: &str) -> (r: bool)
        ensures
            r == is_substring(call_word(), lowered@),
    {
        let word = "call";
        proof {
            reveal_strlit("call");
        }
        assert(word@ =~= call_word());
        contains_str(lowered, word)
    }

    /// The constant operands: `#`-prefixed, `0x`-prefixed or decimal `i64`.
    pub fn extract_constants(func: &FunctionInfo) -> (r: Vec<String>)
        ensures
            strings_view(r@) == operands_where(func@.instructions, true),
    {
        operands_of_kind(func, true)
    }

    /// The string operands: those that start and end with a double quote.
    pub fn extract_strings(func: &FunctionInfo) -> (r: Vec<String>)
        ensures
            strings_view(r@) == operands_where(func@.instructions, false),
    {
        operands_of_kind(func, false)
    }

    /// The Jaccard similarity of the two functions' call targets.
    pub fn function_call_similarity(func_a: &FunctionInfo, func_b: &FunctionInfo) -> (r: u64)
        ensures
            r == jaccard(call_targets(func_a@.instructions), call_targets(func_b@.instructions)),
            r <= SCORE_ONE,
    {
        let ca = Self::extract_function_calls(func_a);
        let cb = Self::extract_function_calls(func_b);
        Self::jaccard_similarity(&ca, &cb)
    }

    /// The Jaccard similarity of the two functions' constant operands.
    pub fn constant_similarity(func_a: &FunctionInfo, func_b: &FunctionInfo) -> (r: u64)
        ensures
            r == jaccard(operands_where(func_a@.instructions, true), operands_where(func_b@.instructions, true)),
            r <= SCORE_ONE,
    {
        let ca = Self::extract_constants(func_a);
        let cb = Self::extract_constants(func_b);
        Self::jaccard_similarity(&ca, &cb)
    }

    /// The Jaccard similarity of the two functions' string operands.
    pub fn string_similarity(func_a: &FunctionInfo, func_b: &FunctionInfo) -> (r: u64)
        ensures
            r == jaccard(operands_where(func_a@.instructions, false), operands_where(func_b@.instructions, false)),
            r <= SCORE_ONE,
    {
        let ca = Self::extract_strings(func_a);
        let cb = Self::extract_strings(func_b);
        Self::jaccard_similarity(&ca, &cb)
    }

    /// Each A-block's mnemonic similarity to each B-block.
    pub fn basic_block_similarity_matrix(func_a: &FunctionInfo, func_b: &FunctionInfo) -> (r: Vec<Vec<u64>>)
        ensures
            r@.len() == func_a@.basic_blocks.len(),
            forall|i: int|
                0 <= i < r@.len() ==> (#[trigger] r@[i])@.len() == func_b@.basic_blocks.len(),
            forall|i: int, j: int|
                0 <= i < r@.len() && 0 <= j < func_b@.basic_blocks.len() ==> #[trigger] r@[i]@[j] == jaccard(
                    instruction_mnemonics(func_a@.basic_blocks[i].instructions),
                    instruction_mnemonics(func_b@.basic_blocks[j].instructions),
                ),
    {
        let mut matrix: Vec<Vec<u64>> = Vec::new();
        let mut i: usize = 0;
        while i < func_a.basic_blocks.len()
            invariant
                i <= func_a.basic_blocks@.len(),
                matrix@.len() == i,
                forall|p: int| 0 <= p < i ==> (#[trigger] matrix@[p])@.len() == func_b@.basic_blocks.len(),
                forall|p: int, j: int|
                    0 <= p < i && 0 <= j < func_b@.basic_blocks.len() ==> #[trigger] matrix@[p]@[j] == jaccard(
                        instruction_mnemonics(func_a@.basic_blocks[p].instructions),
                        instruction_mnemonics(func_b@.basic_blocks[j].instructions),
                    ),
            decreases func_a.basic_blocks@.len() - i,
        {
            let mut row: Vec<u64> = Vec::new();
            let mut j: usize = 0;
            while j < func_b.basic_blocks.len()
                invariant
                    i < func_a.basic_blocks@.len(),
                    j <= func_b.basic_blocks@.len(),
                    row@.len() == j,
                    forall|q: int|
                        0 <= q < j ==> row@[q] == jaccard(
                            instruction_mnemonics(func_a@.basic_blocks[i as int].instructions),
                            instruction_mnemonics(func_b@.basic_blocks[q].instructions),
                        ),
                decreases func_b.basic_blocks@.len() - j,
            {
                row.push(Self::basic_block_mnemonic_similarity(&func_a.basic_blocks[i], &func_b.basic_blocks[j]));
                j += 1;
            }
            matrix.push(row);
            i += 1;
        }
        matrix
    }
}

/// Relies on `str::to_lowercase`: its result depends on the characters alone.
#[verifier::external_body]
fn lowercase(s: &str) -> (r: String)
    ensures
        r@ == lower_of(s@),
{
    s.to_lowercase()
}

proof fn lemma_digits_value_prefix(s: Seq<char>, m: int)
    requires
        0 <= m <= s.len(),
        forall|k: int| 0 <= k < s.len() ==> is_ascii_digit(#[trigger] s[k]),
    ensures
        0 <= digits_value(s.take(m)) <= digits_value(s),
    decreases s.len(),
{
    if m < s.len() {
        let front = s.drop_last();
        assert forall|k: int| 0 <= k < front.len() implies is_ascii_digit(#[trigger] front[k]) by {
            assert(front[k] == s[k]);
        }
        lemma_digits_value_prefix(front, m);
        assert(front.take(m) =~= s.take(m));
        assert(front.take(front.len() as int) =~= front);
        lemma_digits_value_prefix(front, front.len() as int);
        assert(is_ascii_digit(s.last()));
    } else {
        assert(s.take(m) =~= s);
        if s.len() > 0 {
            let front = s.drop_last();
            assert forall|k: int| 0 <= k < front.len() implies is_ascii_digit(#[trigger] front[k]) by {
                assert(front[k] == s[k]);
            }
            assert(front.take(front.len() as int) =~= front);
            lemma_digits_value_prefix(front, front.len() as int);
            assert(is_ascii_digit(s.last()));
        }
    }
}

/// An optional `+` or `-` followed by at least one ASCII digit, of a value
/// within `i64`.
fn parses_i64(s: &str) -> (r: bool)
    ensures
        r == parses_as_i64(s@),
{
    let n = s.unicode_len();
    let signed = n > 0 && (s.get_char(0) == '-' || s.get_char(0) == '+');
    let neg = signed && s.get_char(0) == '-';
    let start: usize = if signed {
        1
    } else {
        0
    };
    let ghost body = unsigned_part(s@);
    assert(signed == has_sign(s@));
    assert(body =~= s@.subrange(start as int, n as int));
    if start >= n {
        return false;
    }
    let limit: u128 = if neg {
        9223372036854775808
    } else {
        9223372036854775807
    };
    let mut value: u128 = 0;
    let mut k: usize = start;
    assert(body.take(0) =~= Seq::<char>::empty());
    while k < n
        invariant
            n == s@.len(),
            start <= k <= n,
            body == s@.subrange(start as int, n as int),
            forall|q: int| 0 <= q < k - start ==> is_ascii_digit(#[trigger] body[q]),
            value == digits_value(body.take(k - start)),
            value <= limit,
            signed == (s@.len() > 0 && (s@[0] == '-' || s@[0] == '+')),
            neg == (signed && s@[0] == '-'),
            start == (if signed {
                1usize
            } else {
                0usize
            }),
            body == unsigned_part(s@),
            limit == (if neg {
                9223372036854775808u128
            } else {
                9223372036854775807u128
            }),
        decreases n - k,
    {
        let c = s.get_char(k);
        assert(body[k - start] == c);
        if !('0' <= c && c <= '9') {
            proof {
                assert(!is_ascii_digit(body[k - start]));
                assert(!all_digits(body));
            }
            return false;
        }
        assert(body.take(k - start + 1).drop_last() =~= body.take(k - start));
        assert(body.take(k - start + 1).last() == c);
        value = value * 10 + (c as u32 - '0' as u32) as u128;
        assert(value == digits_value(body.take(k - start + 1)));
        if value > limit {
            proof {
                if all_digits(body) {
                    lemma_digits_value_prefix(body, k - start + 1);
                    assert(digits_value(body) > limit);
                    if neg {
                        assert(-digits_value(body) < i64::MIN);
                    } else {
                        assert(digits_value(body) > i64::MAX);
                    }
                }
            }
            return false;
        }
        k += 1;
    }
    assert(body.take(n - start) =~= body);
    proof {
        lemma_digits_value_prefix(body, 0);
    }
    true
}

fn is_constant_exec(op: &str) -> (r: bool)
    ensures
        r == is_constant_operand(op@),
{
    let n = op.unicode_len();
    if n > 0 && op.get_char(0) == '#' {
        return true;
    }
    if n >= 2 && op.get_char(0) == '0' && op.get_char(1) == 'x' {
        return true;
    }
    parses_i64(op)
}

fn is_string_exec(op: &str) -> (r: bool)
    ensures
        r == is_string_operand(op@),
{
    let n = op.unicode_len();
    n > 0 && op.get_char(0) == '"' && op.get_char(n - 1) == '"'
}

fn operands_of_kind(func: &FunctionInfo, constants: bool) -> (r: Vec<String>)
    ensures
        strings_view(r@) == operands_where(func@.instructions, constants),
{
    let ghost is = func@.instructions;
    let mut out: Vec<String> = Vec::new();
    let mut i: usize = 0;
    while i < func.instructions.len()
        invariant
            i <= func.instructions@.len(),
            is == func@.instructions,
            strings_view(out@) == operands_where(is.take(i as int), constants),
        decreases func.instructions@.len() - i,
    {
        assert(is.take(i + 1).drop_last() =~= is.take(i as int));
        let instr = &func.instructions[i];
        assert(is[i as int] == instr@);
        let ghost ops = instr@.operands;
        let ghost base = strings_view(out@);
        let mut k: usize = 0;
        while k < instr.operands.len()
            invariant
                k <= instr.operands@.len(),
                ops == instr@.operands,
                strings_view(out@) == base + kept_operands(ops.take(k as int), constants),
            decreases instr.operands@.len() - k,
        {
            let ghost before = out@;
            let op = &instr.operands[k];
            assert(ops[k as int] == op@);
            assert(ops.take(k + 1).drop_last() =~= ops.take(k as int));
            let kept = if constants {
                is_constant_exec(op.as_str())
            } else {
                is_string_exec(op.as_str())
            };
            if kept {
                out.push(op.clone());
                assert(strings_view(out@) =~= strings_view(before).push(op@));
                assert(kept_operands(ops.take(k + 1), constants) == kept_operands(ops.take(k as int), constants).push(
                    op@,
                ));
                assert(strings_view(out@) =~= base + kept_operands(ops.take(k + 1), constants));
            }
            k += 1;
        }
        assert(ops.take(ops.len() as int) =~= ops);
        i += 1;
    }
    assert(is.take(func.instructions@.len() as int) =~= is);
    out
}

/// The mnemonics of the instructions, in order.
fn mnemonic_list(is: &Vec<InstructionInfo>) -> (r: Vec<String>)
    ensures
        strings_view(r@) == instruction_mnemonics(crate::instructions_view(is@)),
{
    let ghost target = instruction_mnemonics(crate::instructions_view(is@));
    let mut out: Vec<String> = Vec::new();
    let mut i: usize = 0;
    while i < is.len()
        invariant
            i <= is@.len(),
            target == instruction_mnemonics(crate::instructions_view(is@)),
            out@.len() == i,
            forall|q: int| 0 <= q < i ==> #[trigger] out@[q]@ == target[q],
        decreases is@.len() - i,
    {
        out.push(is[i].mnemonic.clone());
        i += 1;
    }
    assert(strings_view(out@) =~= target);
    out
}

/// `v` with later repeats removed.
fn distinct_strings(v: &Vec<String>) -> (r: Vec<String>)
    ensures
        strings_view(r@) == distinct(strings_view(v@)),
{
    let ghost sv = strings_view(v@);
    let mut out: Vec<String> = Vec::new();
    let mut i: usize = 0;
    while i < v.len()
        invariant
            i <= v@.len(),
            sv == strings_view(v@),
            strings_view(out@) == distinct(sv.take(i as int)),
        decreases v@.len() - i,
    {
        let ghost before = out@;
        assert(sv.take(i + 1).drop_last() =~= sv.take(i as int));
        assert(sv[i as int] == v@[i as int]@);
        if !contains_string(&out, &v[i]) {
            out.push(v[i].clone());
            assert(strings_view(out@) =~= strings_view(before).push(v@[i as int]@));
        }
        i += 1;
    }
    assert(sv.take(v@.len() as int) =~= sv);
    out
}

/// `s` is one of `v`.
fn contains_string(v: &Vec<String>, s: &String) -> (r: bool)
    ensures
        r == strings_view(v@).contains(s@),
{
    let ghost sv = strings_view(v@);
    let mut i: usize = 0;
    while i < v.len()
        invariant
            i <= v@.len(),
            sv == strings_view(v@),
            forall|q: int| 0 <= q < i ==> sv[q] != s@,
        decreases v@.len() - i,
    {
        if v[i] == *s {
            assert(sv[i as int] == s@);
            return true;
        }
        i += 1;
    }
    false
}

/// How many elements of `a` occur in `b`.
fn shared_exec(a: &Vec<String>, b: &Vec<String>) -> (r: usize)
    ensures
        r == shared_count(strings_view(a@), strings_view(b@)),
        r <= a@.len(),
{
    let ghost av = strings_view(a@);
    let ghost bv = strings_view(b@);
    let mut count: usize = 0;
    let mut i: usize = 0;
    while i < a.len()
        invariant
            i <= a@.len(),
            av == strings_view(a@),
            bv == strings_view(b@),
            count == shared_count(av.take(i as int), bv),
            count <= i,
        decreases a@.len() - i,
    {
        assert(av.take(i + 1).drop_last() =~= av.take(i as int));
        assert(av[i as int] == a@[i as int]@);
        if contains_string(b, &a[i]) {
            count += 1;
        }
        i += 1;
    }
    assert(av.take(a@.len() as int) =~= av);
    count
}

/// The mnemonics joined by single spaces, as characters.
fn joined_mnemonics(is: &[InstructionInfo]) -> (r: Vec<char>)
    requires
        is@.len() > 0,
    ensures
        r@ == joined(instruction_mnemonics(crate::instructions_view(is@))),
{
    let ghost ms = instruction_mnemonics(crate::instructions_view(is@));
    let mut out = chars_of(is[0].mnemonic.as_str());
    assert(ms.take(1) =~= seq![ms[0]]);
    let mut i: usize = 1;
    while i < is.len()
        invariant
            1 <= i <= is@.len(),
            ms == instruction_mnemonics(crate::instructions_view(is@)),
            out@ == joined(ms.take(i as int)),
        decreases is@.len() - i,
    {
        assert(ms.take(i + 1).drop_last() =~= ms.take(i as int));
        let next = chars_of(is[i].mnemonic.as_str());
        let ghost before = out@;
        out.push(' ');
        let mut k: usize = 0;
        while k < next.len()
            invariant
                k <= next@.len(),
                out@ == before + seq![' '] + next@.take(k as int),
            decreases next@.len() - k,
        {
            out.push(next[k]);
            assert(out@ =~= before + seq![' '] + next@.take(k + 1));
            k += 1;
        }
        assert(next@.take(next@.len() as int) =~= next@);
        assert(next@ == ms[i as int]);
        i += 1;
    }
    assert(ms.take(is@.len() as int) =~= ms);
    out
}

/// Relies on petgraph's `Graph::new`: a directed graph with no node and no
/// edge.
#[verifier::external_body]
fn empty_graph() -> (g: Graph<u64, ()>)
    ensures
        graph_nodes(g) == Seq::<u64>::empty(),
        graph_edges(g) == Seq::<(nat, nat)>::empty(),
{
    Graph::new()
}

/// Relies on petgraph's `Graph::add_node`: it appends the node and returns
/// its index, and panics only when the count reaches the `u32` maximum.
#[verifier::external_body]
fn add_node(g: &mut Graph<u64, ()>, weight: u64) -> (r: usize)
    requires
        graph_nodes(*old(g)).len() < 0xFFFF_FFFF,
    ensures
        graph_nodes(*final(g)) == graph_nodes(*old(g)).push(weight),
        graph_edges(*final(g)) == graph_edges(*old(g)),
        r == graph_nodes(*old(g)).len(),
{
    g.add_node(weight).index()
}

/// Relies on petgraph's `Graph::add_edge`: it appends the edge, and panics
/// only on a missing node or when the count reaches the `u32` maximum.
#[verifier::external_body]
fn add_edge(g: &mut Graph<u64, ()>, from: usize, to: usize)
    requires
        from < graph_nodes(*old(g)).len(),
        to < graph_nodes(*old(g)).len(),
        graph_edges(*old(g)).len() < 0xFFFF_FFFF,
    ensures
        graph_nodes(*final(g)) == graph_nodes(*old(g)),
        graph_edges(*final(g)) == graph_edges(*old(g)).push((from as nat, to as nat)),
{
    g.add_edge(NodeIndex::new(from), NodeIndex::new(to), ());
}

/// Relies on petgraph's `Graph::node_count`.
#[verifier::external_body]
fn node_count(g: &Graph<u64, ()>) -> (r: usize)
    ensures
        r == graph_nodes(*g).len(),
{
    g.node_count()
}

/// Relies on petgraph's `Graph::edge_count`.
#[verifier::external_body]
fn edge_count(g: &Graph<u64, ()>) -> (r: usize)
    ensures
        r == graph_edges(*g).len(),
{
    g.edge_count()
}

/// The index of the last block with address `x`.
fn last_block_with(f: &FunctionInfo, x: u64) -> (r: Option<usize>)
    ensures
        match r {
            Some(k) => k as int == last_index(block_addresses(f@.basic_blocks), x),
            None => last_index(block_addresses(f@.basic_blocks), x) == -1,
        },
{
    let ghost addrs = block_addresses(f@.basic_blocks);
    let mut i: usize = f.basic_blocks.len();
    assert(addrs.take(i as int) =~= addrs);
    while i > 0
        invariant
            i <= f.basic_blocks@.len(),
            addrs == block_addresses(f@.basic_blocks),
            last_index(addrs, x) == last_index(addrs.take(i as int), x),
        decreases i,
    {
        assert(addrs.take(i as int).drop_last() =~= addrs.take(i - 1));
        assert(addrs[i - 1] == f.basic_blocks@[i - 1].address);
        if f.basic_blocks[i - 1].address == x {
            return Some(i - 1);
        }
        i -= 1;
    }
    None
}

/// The control-flow graph of `f`: a node per block, with its address as
/// weight, and an edge per successor address that some block has.
fn build_cfg_graph(f: &FunctionInfo) -> (g: Graph<u64, ()>)
    requires
        graph_fits(f@),
    ensures
        graph_nodes(g) == block_addresses(f@.basic_blocks),
        graph_edges(g) == cfg_edges(f@.basic_blocks, block_addresses(f@.basic_blocks)),
{
    let ghost bs = f@.basic_blocks;
    let ghost addrs = block_addresses(bs);
    let mut g = empty_graph();
    let n = f.basic_blocks.len();
    let mut i: usize = 0;
    while i < n
        invariant
            n == bs.len(),
            bs == f@.basic_blocks,
            addrs == block_addresses(bs),
            graph_fits(f@),
            i <= n,
            graph_nodes(g) == addrs.take(i as int),
            graph_edges(g) == Seq::<(nat, nat)>::empty(),
        decreases n - i,
    {
        let _ = add_node(&mut g, f.basic_blocks[i].address);
        assert(graph_nodes(g) =~= addrs.take(i + 1));
        i += 1;
    }
    assert(addrs.take(n as int) =~= addrs);
    proof {
        lemma_cfg_edges_len(bs, addrs);
    }
    let mut i: usize = 0;
    while i < n
        invariant
            n == bs.len(),
            bs == f@.basic_blocks,
            addrs == block_addresses(bs),
            graph_fits(f@),
            cfg_edges(bs, addrs).len() <= crate::algorithms::edge_sum(bs),
            i <= n,
            graph_nodes(g) == addrs,
            graph_edges(g) == cfg_edges(bs.take(i as int), addrs),
        decreases n - i,
    {
        let bb = &f.basic_blocks[i];
        assert(bs[i as int] == bb@);
        assert(bs.take(i + 1).drop_last() =~= bs.take(i as int));
        proof {
            lemma_last_index_range(addrs, bb.address);
            assert(addrs[i as int] == bb.address);
            lemma_last_index_found(addrs, i as int);
            assert(cfg_edges(bs.take(i + 1), addrs) == cfg_edges(bs.take(i as int), addrs) + target_edges(
                addrs,
                last_index(addrs, bb.address),
                bb.edges@,
            ));
            crate::algorithms::lemma_edge_sum_prefix(bs, i + 1);
            lemma_cfg_edges_len(bs.take(i + 1), addrs);
        }
        let from = match last_block_with(f, bb.address) {
            Some(k) => k,
            None => i,
        };
        let ghost base = graph_edges(g);
        let mut t: usize = 0;
        while t < bb.edges.len()
            invariant
                n == bs.len(),
                bs == f@.basic_blocks,
                addrs == block_addresses(bs),
                i < n,
                bb@ == bs[i as int],
                from as int == last_index(addrs, bb.address),
                from < addrs.len(),
                graph_nodes(g) == addrs,
                base == cfg_edges(bs.take(i as int), addrs),
                base.len() + target_edges(addrs, from as int, bb.edges@).len() < 0xFFFF_FFFF,
                t <= bb.edges@.len(),
                graph_edges(g) == base + target_edges(addrs, from as int, bb.edges@.take(t as int)),
            decreases bb.edges@.len() - t,
        {
            let ghost ts = bb.edges@;
            assert(ts.take(t + 1).drop_last() =~= ts.take(t as int));
            proof {
                lemma_target_edges_len(addrs, from as int, ts.take(t as int));
                lemma_target_edges_prefix(addrs, from as int, ts, t as int);
                lemma_last_index_range(addrs, ts[t as int]);
            }
            match last_block_with(f, bb.edges[t]) {
                Some(k) => {
                    add_edge(&mut g, from, k);
                    assert(graph_edges(g) =~= base + target_edges(addrs, from as int, ts.take(t + 1)));
                },
                None => {},
            }
            t += 1;
        }
        assert(bb.edges@.take(bb.edges@.len() as int) =~= bb.edges@);
        i += 1;
    }
    assert(bs.take(n as int) =~= bs);
    g
}

proof fn lemma_target_edges_prefix(addrs: Seq<u64>, from: int, ts: Seq<u64>, t: int)
    requires
        0 <= t <= ts.len(),
    ensures
        target_edges(addrs, from, ts.take(t)).len() <= target_edges(addrs, from, ts).len(),
    decreases ts.len() - t,
{
    if t < ts.len() {
        lemma_target_edges_prefix(addrs, from, ts, t + 1);
        assert(ts.take(t + 1).drop_last() =~= ts.take(t));
    } else {
        assert(ts.take(t) =~= ts);
    }
}

/// `n / d` as a score, for `n <= d`.
fn wide_ratio(n: u128, d: u128) -> (r: u64)
    requires
        n <= d,
        n <= u64::MAX,
        d > 0,
    ensures
        r == ratio(n as nat, d as nat),
        r <= SCORE_ONE,
{
    proof {
        assert(n * SCORE_ONE <= d * SCORE_ONE) by (nonlinear_arith)
            requires
                n <= d,
        ;
        assert((n * SCORE_ONE) / (d as int) <= SCORE_ONE) by (nonlinear_arith)
            requires
                n * SCORE_ONE <= d * SCORE_ONE,
                d > 0,
        ;
        assert(n * SCORE_ONE <= u64::MAX * SCORE_ONE) by (nonlinear_arith)
            requires
                n <= u64::MAX,
        ;
    }
    ((n * (SCORE_ONE as u128)) / d) as u64
}

fn normalized_exec(a: &Vec<char>, b: &Vec<char>) -> (r: u64)
    ensures
        r == normalized_similarity(a@, b@),
        r <= SCORE_ONE,
{
    let m = if a.len() >= b.len() {
        a.len()
    } else {
        b.len()
    };
    if m == 0 {
        return 0;
    }
    let d = levenshtein_exec(a, b);
    proof {
        lemma_levenshtein_bound(a@, b@);
    }
    scaled_ratio((m - d) as u64, m as u64)
}

} // verus!
