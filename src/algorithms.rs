//! The weighted similarity of two functions, its confidence, and the
//! fingerprints that the index-based matching stages compare.
use crate::{BlockView, FunctionInfo, FunctionView, SCORE_ONE};
use vstd::multiset::Multiset;
use vstd::prelude::*;

verus! {

broadcast use {
    vstd::seq_lib::group_to_multiset_ensures,
    vstd::multiset::group_multiset_axioms,
    vstd::multiset::group_multiset_properties,
};

/// The confidence added for each corroborating structural signal (0.1).
pub const BOOST: u64 = 100_000;

/// The confidence added when the two names are equal (0.2).
pub const NAME_BOOST: u64 = 200_000;

pub open spec fn min_nat(x: nat, y: nat) -> nat {
    if x <= y { x } else { y }
}

pub open spec fn max_nat(x: nat, y: nat) -> nat {
    if x >= y { x } else { y }
}

pub open spec fn abs_diff(x: nat, y: nat) -> nat {
    if x >= y { (x - y) as nat } else { (y - x) as nat }
}

/// `n / d` as a fixed-point score, rounded down.
pub open spec fn ratio(n: nat, d: nat) -> nat {
    if d == 0 { 0 } else { n * (SCORE_ONE as nat) / d }
}

/// `1 - |x - y| / max(x, y)`, which is `min / max`; 1 when both are zero and
/// 0 when exactly one is.
pub open spec fn closeness(x: nat, y: nat) -> nat {
    if x == 0 && y == 0 {
        SCORE_ONE as nat
    } else if x == 0 || y == 0 {
        0
    } else {
        ratio(min_nat(x, y), max_nat(x, y))
    }
}

pub open spec fn block_count(f: FunctionView) -> nat {
    f.basic_blocks.len()
}

/// The control-flow sub-score.
pub open spec fn cfg_score(a: FunctionView, b: FunctionView) -> nat {
    if a.cfg_hash == b.cfg_hash {
        SCORE_ONE as nat
    } else if block_count(a) == 0 || block_count(b) == 0 {
        0
    } else {
        ratio(min_nat(block_count(a), block_count(b)), max_nat(block_count(a), block_count(b)))
    }
}

/// The number of outgoing edges of all blocks.
pub open spec fn edge_sum(bs: Seq<BlockView>) -> nat
    decreases bs.len(),
{
    if bs.len() == 0 {
        0
    } else {
        edge_sum(bs.drop_last()) + bs.last().edges.len()
    }
}

pub open spec fn edge_total(f: FunctionView) -> nat {
    edge_sum(f.basic_blocks)
}

/// The edge count of a function fits a machine word, as it must for edges
/// that are held in memory.
pub open spec fn edges_fit(f: FunctionView) -> bool {
    edge_total(f) <= usize::MAX
}

/// The edge sub-score.
pub open spec fn edge_score(a: FunctionView, b: FunctionView) -> nat {
    closeness(edge_total(a), edge_total(b))
}

pub open spec fn block_hashes(f: FunctionView) -> Seq<Seq<char>> {
    f.basic_blocks.map_values(|b: BlockView| b.mnemonic_hash)
}

/// The first index from `j` on whose block is unused and has hash `h`.
pub open spec fn first_unused_from(h: Seq<char>, hb: Seq<Seq<char>>, used: Seq<bool>, j: int) -> Option<int>
    decreases hb.len() - j,
{
    if j < 0 || j >= hb.len() {
        None
    } else if !used[j] && hb[j] == h {
        Some(j)
    } else {
        first_unused_from(h, hb, used, j + 1)
    }
}

/// The B-blocks in use after the first `i` A-blocks took, in order, the first
/// unused B-block with the same hash.
pub open spec fn greedy_used(ha: Seq<Seq<char>>, hb: Seq<Seq<char>>, i: nat) -> Seq<bool>
    decreases i,
{
    if i == 0 {
        Seq::new(hb.len(), |j: int| false)
    } else {
        let u = greedy_used(ha, hb, (i - 1) as nat);
        match first_unused_from(ha[i - 1], hb, u, 0) {
            Some(j) => u.update(j, true),
            None => u,
        }
    }
}

/// How many of the first `i` A-blocks found a B-block in that greedy pass.
pub open spec fn greedy_count(ha: Seq<Seq<char>>, hb: Seq<Seq<char>>, i: nat) -> nat
    decreases i,
{
    if i == 0 {
        0
    } else {
        greedy_count(ha, hb, (i - 1) as nat) + if first_unused_from(
            ha[i - 1],
            hb,
            greedy_used(ha, hb, (i - 1) as nat),
            0,
        ) is Some {
            1nat
        } else {
            0nat
        }
    }
}

pub open spec fn matched_blocks(a: FunctionView, b: FunctionView) -> nat {
    greedy_count(block_hashes(a), block_hashes(b), block_count(a))
}

/// The basic-block sub-score.
pub open spec fn bb_score(a: FunctionView, b: FunctionView) -> nat {
    if block_count(a) == 0 && block_count(b) == 0 {
        SCORE_ONE as nat
    } else if block_count(a) == 0 || block_count(b) == 0 {
        0
    } else {
        ratio(matched_blocks(a, b), max_nat(block_count(a), block_count(b)))
    }
}

pub open spec fn mnemonics(f: FunctionView) -> Seq<Seq<char>> {
    f.instructions.map_values(|i: crate::InstructionView| i.mnemonic)
}

/// The size of the multiset intersection of the two functions' mnemonics.
pub open spec fn mnemonic_overlap(a: FunctionView, b: FunctionView) -> nat {
    mnemonics(a).to_multiset().intersection_with(mnemonics(b).to_multiset()).len()
}

/// The instruction sub-score.
pub open spec fn instruction_score(a: FunctionView, b: FunctionView) -> nat {
    let na = a.instructions.len();
    let nb = b.instructions.len();
    if na == 0 && nb == 0 {
        SCORE_ONE as nat
    } else if na == 0 || nb == 0 {
        0
    } else {
        ratio(mnemonic_overlap(a, b), max_nat(na, nb))
    }
}

/// The fixed-weight sum: 0.50 control flow, 0.15 basic blocks,
/// 0.10 instructions, 0.25 edges.
pub open spec fn weighted(cfg: nat, bb: nat, instr: nat, edge: nat) -> nat {
    (50 * cfg + 15 * bb + 10 * instr + 25 * edge) / 100
}

pub open spec fn function_similarity(a: FunctionView, b: FunctionView) -> nat {
    weighted(cfg_score(a, b), bb_score(a, b), instruction_score(a, b), edge_score(a, b))
}

/// The sizes differ by less than a tenth of the larger one.
pub open spec fn sizes_close(x: nat, y: nat) -> bool {
    10 * abs_diff(x, y) < max_nat(x, y)
}

pub open spec fn boost_if(c: bool, amount: u64) -> nat {
    if c { amount as nat } else { 0 }
}

/// Similarity plus 0.1 each for equal block counts, for complexities that
/// differ by less than 2 and for close sizes, and 0.2 for equal names, at
/// most 1.
pub open spec fn confidence(a: FunctionView, b: FunctionView, similarity: nat) -> nat {
    min_nat(
        similarity + boost_if(block_count(a) == block_count(b), BOOST) + boost_if(
            abs_diff(a.cyclomatic_complexity as nat, b.cyclomatic_complexity as nat) < 2,
            BOOST,
        ) + boost_if(sizes_close(a.size as nat, b.size as nat), BOOST) + boost_if(
            a.name == b.name,
            NAME_BOOST,
        ),
        SCORE_ONE as nat,
    )
}

pub open spec fn out_degrees(f: FunctionView) -> Seq<nat> {
    f.basic_blocks.map_values(|b: BlockView| b.edges.len())
}

/// Equal block counts and an equal multiset of out-degrees.
pub open spec fn isomorphic_gate(a: FunctionView, b: FunctionView) -> bool {
    block_count(a) == block_count(b) && out_degrees(a).to_multiset() == out_degrees(b).to_multiset()
}

/// The number of decimal digits of `n`.
pub open spec fn decimal_len(n: nat) -> nat
    decreases n,
{
    if n < 10 {
        1
    } else {
        1 + decimal_len(n / 10)
    }
}

pub open spec fn hex_digit(d: nat) -> char {
    seq!['0', '1', '2', '3', '4', '5', '6', '7', '8', '9', 'a', 'b', 'c', 'd', 'e', 'f'][(d % 16) as int]
}

/// Lower-case hexadecimal digits of `n`, without leading zeros.
pub open spec fn hex_digits(n: nat) -> Seq<char>
    decreases n,
{
    if n < 16 {
        seq![hex_digit(n)]
    } else {
        hex_digits(n / 16).push(hex_digit(n % 16))
    }
}

/// The length of the text `size:blocks:instructions:complexity`.
pub open spec fn md_key(f: FunctionView) -> nat {
    decimal_len(f.size as nat) + decimal_len(block_count(f)) + decimal_len(f.instructions.len())
        + decimal_len(f.cyclomatic_complexity as nat) + 3
}

/// The MD-index fingerprint: `md_key` in hexadecimal.
pub open spec fn md_index(f: FunctionView) -> Seq<char> {
    hex_digits(md_key(f))
}

pub open spec fn small_primes() -> Seq<u64> {
    seq![2, 3, 5, 7, 11, 13, 17, 19, 23, 29, 31, 37, 41, 43, 47, 53, 59, 61, 67, 71, 73, 79, 83, 89, 97]
}

pub open spec fn word_modulus() -> nat {
    0x1_0000_0000_0000_0000
}

/// The sum of the bytes, wrapping at 64 bits.
pub open spec fn byte_sum(bs: Seq<u8>) -> nat
    decreases bs.len(),
{
    if bs.len() == 0 {
        0
    } else {
        ((byte_sum(bs.drop_last()) + bs.last()) % (word_modulus() as int)) as nat
    }
}

/// The prime that a mnemonic maps to: its UTF-8 byte sum picks one of 25.
pub open spec fn prime_of(m: Seq<char>) -> u64 {
    small_primes()[(byte_sum(vstd::utf8::encode_utf8(m)) % 25) as int]
}

/// The product of the mnemonics' primes, wrapping at 64 bits.
pub open spec fn primes_product(ms: Seq<Seq<char>>) -> nat
    decreases ms.len(),
{
    if ms.len() == 0 {
        1
    } else {
        ((primes_product(ms.drop_last()) * prime_of(ms.last())) % (word_modulus() as int)) as nat
    }
}

pub open spec fn wrap_add(x: nat, y: nat) -> nat {
    (((x + y) as int) % (word_modulus() as int)) as nat
}

/// The text length of the block parts `bb_<address in hex>_<instruction count>`,
/// wrapping at 64 bits.
pub open spec fn blocks_text_len(bs: Seq<BlockView>) -> nat
    decreases bs.len(),
{
    if bs.len() == 0 {
        0
    } else {
        wrap_add(
            blocks_text_len(bs.drop_last()),
            4 + hex_digits(bs.last().address as nat).len() + decimal_len(bs.last().instructions.len()),
        )
    }
}

/// The UTF-8 length of the mnemonics, each followed by `_`, wrapping at 64
/// bits.
pub open spec fn pattern_len(ms: Seq<Seq<char>>) -> nat
    decreases ms.len(),
{
    if ms.len() == 0 {
        0
    } else {
        wrap_add(pattern_len(ms.drop_last()), vstd::utf8::encode_utf8(ms.last()).len() + 1)
    }
}

/// The fuzzy hash: the length of the block parts and the mnemonic pattern
/// joined by `:`, in hexadecimal.
pub open spec fn fuzzy_hash(f: FunctionView) -> Seq<char> {
    hex_digits(
        wrap_add(wrap_add(blocks_text_len(f.basic_blocks), pattern_len(mnemonics(f))), block_count(f)),
    )
}

/// `n / d` as a score, for `n <= d`.
pub fn scaled_ratio(n: u64, d: u64) -> (r: u64)
    requires
        n <= d,
    ensures
        r == ratio(n as nat, d as nat),
        r <= SCORE_ONE,
{
    if d == 0 {
        return 0;
    }
    proof {
        assert(n * SCORE_ONE <= u64::MAX * SCORE_ONE) by (nonlinear_arith)
            requires
                n <= u64::MAX,
        ;
    }
    let wide = (n as u128) * (SCORE_ONE as u128);
    proof {
        assert(n * SCORE_ONE <= d * SCORE_ONE) by (nonlinear_arith)
            requires
                n <= d,
        ;
        assert((n * SCORE_ONE) / (d as int) <= SCORE_ONE) by (nonlinear_arith)
            requires
                n * SCORE_ONE <= d * SCORE_ONE,
                d > 0,
        ;
    }
    (wide / (d as u128)) as u64
}

/// `closeness` of two counts.
pub fn count_closeness(x: u64, y: u64) -> (r: u64)
    ensures
        r == closeness(x as nat, y as nat),
        r <= SCORE_ONE,
{
    if x == 0 && y == 0 {
        SCORE_ONE
    } else if x == 0 || y == 0 {
        0
    } else if x <= y {
        scaled_ratio(x, y)
    } else {
        scaled_ratio(y, x)
    }
}

pub fn abs_diff_u64(x: u64, y: u64) -> (r: u64)
    ensures
        r == abs_diff(x as nat, y as nat),
{
    if x >= y { x - y } else { y - x }
}

pub fn sizes_close_exec(x: u64, y: u64) -> (r: bool)
    ensures
        r == sizes_close(x as nat, y as nat),
{
    let d = abs_diff_u64(x, y) as u128;
    let m = if x >= y { x } else { y };
    10 * d < m as u128
}

proof fn lemma_greedy_used_len(ha: Seq<Seq<char>>, hb: Seq<Seq<char>>, i: nat)
    ensures
        greedy_used(ha, hb, i).len() == hb.len(),
    decreases i,
{
    if i > 0 {
        lemma_greedy_used_len(ha, hb, (i - 1) as nat);
        let u = greedy_used(ha, hb, (i - 1) as nat);
        lemma_first_unused_range(ha[i - 1], hb, u, 0);
    }
}

proof fn lemma_first_unused_range(h: Seq<char>, hb: Seq<Seq<char>>, used: Seq<bool>, j: int)
    requires
        0 <= j,
    ensures
        first_unused_from(h, hb, used, j) matches Some(k) ==> j <= k < hb.len() && !used[k]
            && hb[k] == h,
    decreases hb.len() - j,
{
    if j < hb.len() && !(!used[j] && hb[j] == h) {
        lemma_first_unused_range(h, hb, used, j + 1);
    }
}

pub proof fn lemma_edge_sum_prefix(bs: Seq<BlockView>, i: int)
    requires
        0 <= i <= bs.len(),
    ensures
        edge_sum(bs.take(i)) <= edge_sum(bs),
    decreases bs.len() - i,
{
    if i < bs.len() {
        lemma_edge_sum_prefix(bs, i + 1);
        assert(bs.take(i + 1).drop_last() =~= bs.take(i));
    } else {
        assert(bs.take(i) =~= bs);
    }
}

proof fn lemma_ratio_bounded(n: nat, d: nat)
    requires
        n <= d,
    ensures
        ratio(n, d) <= SCORE_ONE,
{
    if d > 0 {
        assert(n * SCORE_ONE <= d * SCORE_ONE) by (nonlinear_arith)
            requires
                n <= d,
        ;
        assert((n * SCORE_ONE) / (d as int) <= SCORE_ONE) by (nonlinear_arith)
            requires
                n * SCORE_ONE <= d * SCORE_ONE,
                d > 0,
        ;
    }
}

pub proof fn lemma_closeness_bounded(x: nat, y: nat)
    ensures
        closeness(x, y) <= SCORE_ONE,
{
    lemma_ratio_bounded(min_nat(x, y), max_nat(x, y));
}

proof fn lemma_greedy_count_bounded(ha: Seq<Seq<char>>, hb: Seq<Seq<char>>, i: nat)
    ensures
        greedy_count(ha, hb, i) <= i,
    decreases i,
{
    if i > 0 {
        lemma_greedy_count_bounded(ha, hb, (i - 1) as nat);
    }
}

proof fn lemma_overlap_bounded(a: FunctionView, b: FunctionView)
    ensures
        mnemonic_overlap(a, b) <= a.instructions.len(),
{
    let ma = mnemonics(a).to_multiset();
    let mb = mnemonics(b).to_multiset();
    assert(ma =~= ma.intersection_with(mb).add(ma.difference_with(mb)));
    assert(mnemonics(a).len() == a.instructions.len());
    vstd::seq_lib::to_multiset_len(mnemonics(a));
    assert(ma.len() == ma.intersection_with(mb).len() + ma.difference_with(mb).len());
}

/// Every weighted similarity lies in [0, 1], and every confidence lies
/// between the similarity it starts from and 1.
pub proof fn lemma_scores_bounded(a: FunctionView, b: FunctionView)
    ensures
        function_similarity(a, b) <= SCORE_ONE,
        function_similarity(a, b) <= confidence(a, b, function_similarity(a, b)) <= SCORE_ONE,
{
    lemma_ratio_bounded(min_nat(block_count(a), block_count(b)), max_nat(block_count(a), block_count(b)));
    lemma_greedy_count_bounded(block_hashes(a), block_hashes(b), block_count(a));
    lemma_ratio_bounded(matched_blocks(a, b), max_nat(block_count(a), block_count(b)));
    lemma_overlap_bounded(a, b);
    lemma_ratio_bounded(mnemonic_overlap(a, b), max_nat(a.instructions.len(), b.instructions.len()));
    lemma_closeness_bounded(edge_total(a), edge_total(b));
}

pub struct DiffAlgorithms;

impl DiffAlgorithms {
    /// Weighted similarity of two functions.
    pub fn calculate_function_similarity(func_a: &FunctionInfo, func_b: &FunctionInfo) -> (r: u64)
        requires
            edges_fit(func_a@),
            edges_fit(func_b@),
        ensures
            r == function_similarity(func_a@, func_b@),
            r <= SCORE_ONE,
    {
        let cfg = Self::calculate_cfg_similarity(func_a, func_b);
        let bb = Self::calculate_basic_block_similarity(func_a, func_b);
        let instr = Self::calculate_instruction_similarity(func_a, func_b);
        let edge = Self::calculate_edge_similarity(func_a, func_b);
        (50 * cfg + 15 * bb + 10 * instr + 25 * edge) / 100
    }

    /// The control-flow sub-score.
    pub fn calculate_cfg_similarity(func_a: &FunctionInfo, func_b: &FunctionInfo) -> (r: u64)
        ensures
            r == cfg_score(func_a@, func_b@),
            r <= SCORE_ONE,
    {
        if func_a.cfg_hash == func_b.cfg_hash {
            return SCORE_ONE;
        }
        let na = func_a.basic_blocks.len() as u64;
        let nb = func_b.basic_blocks.len() as u64;
        if na == 0 || nb == 0 {
            return 0;
        }
        count_closeness(na, nb)
    }

    /// The basic-block sub-score: each A-block takes the first unused B-block
    /// with the same mnemonic hash.
    pub fn calculate_basic_block_similarity(func_a: &FunctionInfo, func_b: &FunctionInfo) -> (r: u64)
        ensures
            r == bb_score(func_a@, func_b@),
            r <= SCORE_ONE,
            block_count(func_a@) == 0 && block_count(func_b@) == 0 ==> r == SCORE_ONE,
            (block_count(func_a@) == 0) != (block_count(func_b@) == 0) ==> r == 0,
    {
        let na = func_a.basic_blocks.len();
        let nb = func_b.basic_blocks.len();
        if na == 0 && nb == 0 {
            return SCORE_ONE;
        }
        if na == 0 || nb == 0 {
            return 0;
        }
        let ghost ha = block_hashes(func_a@);
        let ghost hb = block_hashes(func_b@);
        let mut used: Vec<bool> = Vec::new();
        let mut k: usize = 0;
        while k < nb
            invariant
                k <= nb,
                nb == func_b.basic_blocks@.len(),
                used@ =~= Seq::new(k as nat, |j: int| false),
            decreases nb - k,
        {
            used.push(false);
            k += 1;
        }
        let mut matched: usize = 0;
        let mut i: usize = 0;
        while i < na
            invariant
                i <= na,
                na == func_a.basic_blocks@.len(),
                nb == func_b.basic_blocks@.len(),
                ha == block_hashes(func_a@),
                hb == block_hashes(func_b@),
                used@ == greedy_used(ha, hb, i as nat),
                matched == greedy_count(ha, hb, i as nat),
                matched <= i,
            decreases na - i,
        {
            let h = &func_a.basic_blocks[i].mnemonic_hash;
            let ghost hs = h@;
            assert(hs == ha[i as int]);
            proof {
                lemma_greedy_used_len(ha, hb, i as nat);
            }
            let mut j: usize = 0;
            while j < nb
                invariant
                    j <= nb,
                    nb == func_b.basic_blocks@.len(),
                    hb == block_hashes(func_b@),
                    used@.len() == nb,
                    hs == h@,
                    first_unused_from(hs, hb, used@, 0) == first_unused_from(hs, hb, used@, j as int),
                ensures
                    j <= nb,
                    first_unused_from(hs, hb, used@, 0) == first_unused_from(hs, hb, used@, j as int),
                    j < nb ==> !used@[j as int] && hb[j as int] == hs,
                decreases nb - j,
            {
                assert(hb[j as int] == func_b.basic_blocks@[j as int].mnemonic_hash@);
                let same = func_b.basic_blocks[j].mnemonic_hash.eq(h);
                assert(same == (func_b.basic_blocks@[j as int].mnemonic_hash@ == hs));
                let hit = !used[j] && same;
                assert(hit == (!used@[j as int] && hb[j as int] == hs));
                if hit {
                    break;
                }
                j += 1;
            }
            if j < nb {
                used.set(j, true);
                matched += 1;
            }
            i += 1;
        }
        scaled_ratio(matched as u64, if na >= nb { na as u64 } else { nb as u64 })
    }

    /// The instruction sub-score: the multiset intersection of the mnemonics.
    pub fn calculate_instruction_similarity(func_a: &FunctionInfo, func_b: &FunctionInfo) -> (r: u64)
        ensures
            r == instruction_score(func_a@, func_b@),
            r <= SCORE_ONE,
    {
        let na = func_a.instructions.len();
        let nb = func_b.instructions.len();
        if na == 0 && nb == 0 {
            return SCORE_ONE;
        }
        if na == 0 || nb == 0 {
            return 0;
        }
        let overlap = mnemonic_overlap_exec(func_a, func_b);
        scaled_ratio(overlap as u64, if na >= nb { na as u64 } else { nb as u64 })
    }

    /// The edge sub-score.
    pub fn calculate_edge_similarity(func_a: &FunctionInfo, func_b: &FunctionInfo) -> (r: u64)
        requires
            edges_fit(func_a@),
            edges_fit(func_b@),
        ensures
            r == edge_score(func_a@, func_b@),
            r <= SCORE_ONE,
    {
        let ea = total_edges(func_a);
        let eb = total_edges(func_b);
        count_closeness(ea as u64, eb as u64)
    }

    /// Similarity plus the structural and name boosts, at most 1.
    pub fn calculate_confidence(func_a: &FunctionInfo, func_b: &FunctionInfo, similarity: u64) -> (r: u64)
        requires
            similarity <= SCORE_ONE,
        ensures
            r == confidence(func_a@, func_b@, similarity as nat),
            r <= SCORE_ONE,
            similarity <= r,
    {
        let mut c = similarity;
        if func_a.basic_blocks.len() == func_b.basic_blocks.len() {
            c = c + BOOST;
        }
        if abs_diff_u64(func_a.cyclomatic_complexity as u64, func_b.cyclomatic_complexity as u64) < 2 {
            c = c + BOOST;
        }
        if sizes_close_exec(func_a.size, func_b.size) {
            c = c + BOOST;
        }
        if func_a.name == func_b.name {
            c = c + NAME_BOOST;
        }
        if c > SCORE_ONE {
            SCORE_ONE
        } else {
            c
        }
    }

    /// The MD-index fingerprint of a function.
    pub fn calculate_md_index(func: &FunctionInfo) -> (r: String)
        ensures
            r@ == md_index(func@),
    {
        let key = decimal_len_exec(func.size) + decimal_len_exec(func.basic_blocks.len() as u64)
            + decimal_len_exec(func.instructions.len() as u64) + decimal_len_exec(
            func.cyclomatic_complexity as u64,
        ) + 3;
        to_hex(key)
    }

    /// The small-primes product of a function's mnemonics.
    pub fn calculate_small_primes_product(func: &FunctionInfo) -> (r: u64)
        ensures
            r == primes_product(mnemonics(func@)),
    {
        let primes: Vec<u64> = vec![
            2, 3, 5, 7, 11, 13, 17, 19, 23, 29, 31, 37, 41, 43, 47, 53, 59, 61, 67, 71, 73, 79, 83, 89, 97,
        ];
        assert(primes@ =~= small_primes());
        let ghost ms = mnemonics(func@);
        let n = func.instructions.len();
        let mut product: u64 = 1;
        let mut i: usize = 0;
        while i < n
            invariant
                i <= n,
                n == func.instructions@.len(),
                ms == mnemonics(func@),
                primes@ == small_primes(),
                product == primes_product(ms.take(i as int)),
            decreases n - i,
        {
            assert(ms.take(i + 1).drop_last() =~= ms.take(i as int));
            let sum = mnemonic_byte_sum(&func.instructions[i].mnemonic);
            let p = primes[(sum % 25) as usize];
            product = product.wrapping_mul(p);
            i += 1;
        }
        assert(ms.take(n as int) =~= ms);
        product
    }

    /// The fuzzy hash of a function.
    pub fn calculate_fuzzy_hash(func: &FunctionInfo) -> (r: String)
        ensures
            r@ == fuzzy_hash(func@),
    {
        let ghost bs = func@.basic_blocks;
        let mut blocks_len: u64 = 0;
        let mut i: usize = 0;
        while i < func.basic_blocks.len()
            invariant
                i <= func.basic_blocks@.len(),
                bs == func@.basic_blocks,
                blocks_len == blocks_text_len(bs.take(i as int)),
            decreases func.basic_blocks@.len() - i,
        {
            assert(bs.take(i + 1).drop_last() =~= bs.take(i as int));
            let bb = &func.basic_blocks[i];
            assert(bs[i as int] == bb@);
            let hex = to_hex(bb.address);
            proof {
                lemma_hex_len_bound(bb.address as nat);
            }
            let part = 4 + hex.as_str().unicode_len() as u64 + decimal_len_exec(bb.instructions.len() as u64);
            blocks_len = blocks_len.wrapping_add(part);
            i += 1;
        }
        assert(bs.take(func.basic_blocks@.len() as int) =~= bs);
        let ghost ms = mnemonics(func@);
        let mut pattern: u64 = 0;
        let mut k: usize = 0;
        while k < func.instructions.len()
            invariant
                k <= func.instructions@.len(),
                ms == mnemonics(func@),
                pattern == pattern_len(ms.take(k as int)),
            decreases func.instructions@.len() - k,
        {
            assert(ms.take(k + 1).drop_last() =~= ms.take(k as int));
            let m = func.instructions[k].mnemonic.as_str();
            assert(m@ == ms[k as int]);
            let len = m.as_bytes().len() as u64;
            let ghost p0 = pattern as int;
            let step = pattern.wrapping_add(len);
            assert(step as int == (p0 + len) % (word_modulus() as int));
            pattern = step.wrapping_add(1);
            assert(pattern as int == (step + 1) % (word_modulus() as int));
            proof {
                vstd::arithmetic::div_mod::lemma_add_mod_noop(p0 + len, 1, word_modulus() as int);
                vstd::arithmetic::div_mod::lemma_small_mod(1, word_modulus());
                assert(len == vstd::utf8::encode_utf8(ms[k as int]).len());
                assert(ms.take(k + 1).last() == ms[k as int]);
                assert(pattern as int == (p0 + len + 1) % (word_modulus() as int));
                assert(pattern_len(ms.take(k + 1)) == wrap_add(
                    pattern_len(ms.take(k as int)),
                    vstd::utf8::encode_utf8(ms[k as int]).len() + 1,
                ));
            }
            k += 1;
        }
        assert(ms.take(func.instructions@.len() as int) =~= ms);
        let total = blocks_len.wrapping_add(pattern).wrapping_add(func.basic_blocks.len() as u64);
        to_hex(total)
    }

    /// Equal block counts and an equal multiset of per-block out-degrees: a
    /// necessary condition for isomorphic control-flow graphs.
    pub fn is_isomorphic_subgraph(func_a: &FunctionInfo, func_b: &FunctionInfo) -> (r: bool)
        ensures
            r == isomorphic_gate(func_a@, func_b@),
    {
        if func_a.basic_blocks.len() != func_b.basic_blocks.len() {
            return false;
        }
        let ghost da = out_degrees(func_a@);
        let ghost db = out_degrees(func_b@);
        let n = func_a.basic_blocks.len();
        let mut i: usize = 0;
        while i < n
            invariant
                i <= n,
                n == func_a.basic_blocks@.len(),
                n == func_b.basic_blocks@.len(),
                da == out_degrees(func_a@),
                db == out_degrees(func_b@),
                forall|k: int|
                    0 <= k < i ==> da.to_multiset().count(#[trigger] da[k]) == db.to_multiset().count(da[k]),
                forall|k: int|
                    0 <= k < i ==> da.to_multiset().count(#[trigger] db[k]) == db.to_multiset().count(db[k]),
            decreases n - i,
        {
            let va = func_a.basic_blocks[i].edges.len();
            let ca = count_degree(func_a, va);
            let cb = count_degree(func_b, va);
            if ca != cb {
                assert(da.to_multiset().count(da[i as int]) != db.to_multiset().count(da[i as int]));
                return false;
            }
            let vb = func_b.basic_blocks[i].edges.len();
            let ca2 = count_degree(func_a, vb);
            let cb2 = count_degree(func_b, vb);
            if ca2 != cb2 {
                assert(da.to_multiset().count(db[i as int]) != db.to_multiset().count(db[i as int]));
                return false;
            }
            i += 1;
        }
        proof {
            assert forall|v: nat| da.to_multiset().count(v) == db.to_multiset().count(v) by {
                if da.to_multiset().count(v) > 0 {
                    assert(da.contains(v));
                    let k = choose|k: int| 0 <= k < da.len() && da[k] == v;
                    assert(da.to_multiset().count(da[k]) == db.to_multiset().count(da[k]));
                } else if db.to_multiset().count(v) > 0 {
                    assert(db.contains(v));
                    let k = choose|k: int| 0 <= k < db.len() && db[k] == v;
                    assert(da.to_multiset().count(db[k]) == db.to_multiset().count(db[k]));
                }
            }
            assert(da.to_multiset() =~= db.to_multiset());
        }
        true
    }
}

/// The number of decimal digits of `n`.
fn decimal_len_exec(n: u64) -> (r: u64)
    ensures
        r == decimal_len(n as nat),
        r <= 20,
{
    proof {
        reveal_with_fuel(pow10, 21);
        assert(pow10(20) == 100000000000000000000nat);
        lemma_decimal_len_bound(n as nat, 20);
    }
    let mut m = n;
    let mut len: u64 = 1;
    while m >= 10
        invariant
            decimal_len(n as nat) == len + decimal_len(m as nat) - 1,
            decimal_len(n as nat) <= 20,
            decimal_len(m as nat) >= 1,
        decreases m,
    {
        m = m / 10;
        len = len + 1;
    }
    len
}

pub open spec fn pow10(k: nat) -> nat
    decreases k,
{
    if k == 0 {
        1
    } else {
        10 * pow10((k - 1) as nat)
    }
}

proof fn lemma_decimal_len_bound(n: nat, k: nat)
    requires
        1 <= k,
        n < pow10(k),
    ensures
        decimal_len(n) <= k,
    decreases k,
{
    if n >= 10 {
        if k == 1 {
            assert(pow10(1) == 10) by {
                reveal_with_fuel(pow10, 2);
            }
        } else {
            lemma_decimal_len_bound(n / 10, (k - 1) as nat);
        }
    }
}

fn hex_digit_exec(d: u64) -> (r: char)
    requires
        d < 16,
    ensures
        r == hex_digit(d as nat),
{
    let digits: Vec<char> = vec![
        '0', '1', '2', '3', '4', '5', '6', '7', '8', '9', 'a', 'b', 'c', 'd', 'e', 'f',
    ];
    assert(digits@ =~= seq!['0', '1', '2', '3', '4', '5', '6', '7', '8', '9', 'a', 'b', 'c', 'd', 'e', 'f']);
    digits[d as usize]
}

fn push_hex(out: &mut Vec<char>, n: u64)
    ensures
        final(out)@ == old(out)@ + hex_digits(n as nat),
    decreases n,
{
    if n >= 16 {
        push_hex(out, n / 16);
    }
    let ghost before = out@;
    out.push(hex_digit_exec(n % 16));
    assert(out@ =~= before + seq![hex_digit((n % 16) as nat)]);
}

/// Lower-case hexadecimal digits of `n`, without prefix or leading zeros.
fn to_hex(n: u64) -> (r: String)
    ensures
        r@ == hex_digits(n as nat),
{
    let mut out: Vec<char> = Vec::new();
    push_hex(&mut out, n);
    assert(out@ =~= hex_digits(n as nat));
    crate::ui::string_from_chars(&out)
}

proof fn lemma_hex_len_bound(n: nat)
    requires
        n <= u64::MAX,
    ensures
        hex_digits(n).len() <= 16,
{
    reveal_with_fuel(pow16, 17);
    assert(pow16(16) == 0x1_0000_0000_0000_0000nat);
    lemma_hex_len_pow(n, 16);
}

proof fn lemma_hex_len_pow(n: nat, k: nat)
    requires
        1 <= k,
        n < pow16(k),
    ensures
        hex_digits(n).len() <= k,
    decreases k,
{
    if n >= 16 {
        if k == 1 {
            assert(pow16(1) == 16) by {
                reveal_with_fuel(pow16, 2);
            }
        } else {
            lemma_hex_len_pow(n / 16, (k - 1) as nat);
        }
    }
}

pub open spec fn pow16(k: nat) -> nat
    decreases k,
{
    if k == 0 {
        1
    } else {
        16 * pow16((k - 1) as nat)
    }
}

/// The UTF-8 byte sum of a mnemonic, wrapping at 64 bits.
fn mnemonic_byte_sum(m: &String) -> (r: u64)
    ensures
        r == byte_sum(vstd::utf8::encode_utf8(m@)),
{
    let bytes = m.as_str().as_bytes();
    let ghost bs = bytes@;
    assert(bs == vstd::utf8::encode_utf8(m@));
    let mut sum: u64 = 0;
    let mut i: usize = 0;
    while i < bytes.len()
        invariant
            i <= bs.len(),
            bs == bytes@,
            sum == byte_sum(bs.take(i as int)),
        decreases bs.len() - i,
    {
        assert(bs.take(i + 1).drop_last() =~= bs.take(i as int));
        sum = sum.wrapping_add(bytes[i] as u64);
        i += 1;
    }
    assert(bs.take(bs.len() as int) =~= bs);
    sum
}

/// How many blocks of `f` have out-degree `v`.
fn count_degree(f: &FunctionInfo, v: usize) -> (r: usize)
    ensures
        r == out_degrees(f@).to_multiset().count(v as nat),
{
    let ghost d = out_degrees(f@);
    let n = f.basic_blocks.len();
    let mut c: usize = 0;
    let mut i: usize = 0;
    while i < n
        invariant
            i <= n,
            n == f.basic_blocks@.len(),
            d == out_degrees(f@),
            c == d.take(i as int).to_multiset().count(v as nat),
            c <= i,
        decreases n - i,
    {
        assert(d.take(i + 1) =~= d.take(i as int).push(d[i as int]));
        if f.basic_blocks[i].edges.len() == v {
            c += 1;
        }
        i += 1;
    }
    assert(d.take(n as int) =~= d);
    c
}

/// Whether the edge count of `f` fits a machine word.
pub fn edge_count_fits(f: &FunctionInfo) -> (r: bool)
    ensures
        r == edges_fit(f@),
{
    let ghost bs = f@.basic_blocks;
    let n = f.basic_blocks.len();
    let mut total: u128 = 0;
    let mut i: usize = 0;
    while i < n
        invariant
            i <= n,
            n == bs.len(),
            bs == f@.basic_blocks,
            total == edge_sum(bs.take(i as int)),
            total <= i * 0xFFFF_FFFF_FFFF_FFFFu128,
        decreases n - i,
    {
        assert(bs.take(i + 1).drop_last() =~= bs.take(i as int));
        total = total + f.basic_blocks[i].edges.len() as u128;
        i += 1;
    }
    assert(bs.take(n as int) =~= bs);
    total <= usize::MAX as u128
}

/// The number of outgoing edges of all blocks of `f`.
fn total_edges(f: &FunctionInfo) -> (r: usize)
    requires
        edges_fit(f@),
    ensures
        r == edge_total(f@),
{
    let ghost bs = f@.basic_blocks;
    let n = f.basic_blocks.len();
    let mut total: usize = 0;
    let mut i: usize = 0;
    while i < n
        invariant
            i <= n,
            n == bs.len(),
            bs == f@.basic_blocks,
            edges_fit(f@),
            total == edge_sum(bs.take(i as int)),
        decreases n - i,
    {
        proof {
            assert(bs.take(i + 1).drop_last() =~= bs.take(i as int));
            lemma_edge_sum_prefix(bs, i + 1);
        }
        total = total + f.basic_blocks[i].edges.len();
        i += 1;
    }
    assert(bs.take(n as int) =~= bs);
    total
}

proof fn lemma_overlap_step(a: Multiset<Seq<char>>, b: Multiset<Seq<char>>, v: Seq<char>)
    ensures
        b.difference_with(a).count(v) > 0 ==> a.insert(v).intersection_with(b).len()
            == a.intersection_with(b).len() + 1,
        b.difference_with(a).count(v) > 0 ==> b.difference_with(a.insert(v))
            == b.difference_with(a).remove(v),
        b.difference_with(a).count(v) == 0 ==> a.insert(v).intersection_with(b)
            == a.intersection_with(b),
        b.difference_with(a).count(v) == 0 ==> b.difference_with(a.insert(v))
            == b.difference_with(a),
{
    let i0 = a.intersection_with(b);
    let i1 = a.insert(v).intersection_with(b);
    let d0 = b.difference_with(a);
    let d1 = b.difference_with(a.insert(v));
    if d0.count(v) > 0 {
        assert forall|x| i1.count(x) == i0.insert(v).count(x) by {
            if x == v {
                assert(a.insert(v).count(x) == a.count(x) + 1);
            }
        }
        assert forall|x| d1.count(x) == d0.remove(v).count(x) by {
            if x == v {
                assert(a.insert(v).count(x) == a.count(x) + 1);
            }
        }
        assert(i1 =~= i0.insert(v));
        assert(d1 =~= d0.remove(v));
    } else {
        assert forall|x| i1.count(x) == i0.count(x) by {
            if x == v {
                assert(a.insert(v).count(x) == a.count(x) + 1);
            }
        }
        assert forall|x| d1.count(x) == d0.count(x) by {
            if x == v {
                assert(a.insert(v).count(x) == a.count(x) + 1);
            }
        }
        assert(i1 =~= i0);
        assert(d1 =~= d0);
    }
}

/// The size of the multiset intersection of the mnemonics: each A-mnemonic
/// takes one equal mnemonic out of what is left of B's.
fn mnemonic_overlap_exec(func_a: &FunctionInfo, func_b: &FunctionInfo) -> (r: usize)
    ensures
        r == mnemonic_overlap(func_a@, func_b@),
        r <= func_a.instructions@.len(),
{
    let ghost ma = mnemonics(func_a@);
    let ghost mb = mnemonics(func_b@);
    let nb = func_b.instructions.len();
    let mut rest: Vec<String> = Vec::new();
    let mut k: usize = 0;
    while k < nb
        invariant
            k <= nb,
            nb == func_b.instructions@.len(),
            mb == mnemonics(func_b@),
            mb.len() == nb,
            rest@.len() == k,
            forall|q: int| 0 <= q < k ==> #[trigger] rest@[q]@ == mb[q],
        decreases nb - k,
    {
        let ghost before = rest@;
        let m = func_b.instructions[k].mnemonic.clone();
        assert(m@ == mb[k as int]);
        rest.push(m);
        assert(rest@ == before.push(m));
        k += 1;
    }
    assert(crate::strings_view(rest@) =~= mb);
    assert(ma.take(0) =~= Seq::<Seq<char>>::empty());
    assert(ma.take(0).to_multiset() =~= Multiset::empty());
    assert(mb.to_multiset().difference_with(Multiset::empty()) =~= mb.to_multiset());
    assert(Multiset::<Seq<char>>::empty().intersection_with(mb.to_multiset()) =~= Multiset::empty());
    let na = func_a.instructions.len();
    let mut count: usize = 0;
    let mut i: usize = 0;
    while i < na
        invariant
            i <= na,
            na == func_a.instructions@.len(),
            ma == mnemonics(func_a@),
            mb == mnemonics(func_b@),
            crate::strings_view(rest@).to_multiset() == mb.to_multiset().difference_with(
                ma.take(i as int).to_multiset(),
            ),
            count == ma.take(i as int).to_multiset().intersection_with(mb.to_multiset()).len(),
            count <= i,
        decreases na - i,
    {
        let m = &func_a.instructions[i].mnemonic;
        let ghost rv = crate::strings_view(rest@);
        let ghost seen = ma.take(i as int).to_multiset();
        assert(ma.take(i + 1) =~= ma.take(i as int).push(m@));
        proof {
            lemma_overlap_step(seen, mb.to_multiset(), m@);
        }
        let mut j: usize = 0;
        while j < rest.len()
            invariant
                j <= rest@.len(),
                rv == crate::strings_view(rest@),
                forall|q: int| 0 <= q < j ==> rv[q] != m@,
            ensures
                j <= rest@.len(),
                forall|q: int| 0 <= q < j ==> rv[q] != m@,
                j < rest@.len() ==> rv[j as int] == m@,
            decreases rest@.len() - j,
        {
            if rest[j] == *m {
                break;
            }
            j += 1;
        }
        let found = j < rest.len();
        if found {
            assert(rv[j as int] == m@);
            assert(rv.contains(m@));
            let _ = rest.remove(j);
            assert(crate::strings_view(rest@) =~= rv.remove(j as int));
            count += 1;
        } else {
            assert(!rv.contains(m@));
        }
        i += 1;
    }
    assert(ma.take(na as int) =~= ma);
    count
}

} // verus!
