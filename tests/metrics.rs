use rust_diff::{
    BasicBlockInfo, BinaryDiffEngine, DiffAlgorithms, DiffUI, FunctionInfo, InstructionInfo,
    SimilarityAnalyzer, SCORE_ONE,
};

fn instr(address: u64, mnemonic: &str, operands: &[&str]) -> InstructionInfo {
    InstructionInfo {
        address,
        mnemonic: mnemonic.to_string(),
        operands: operands.iter().map(|s| s.to_string()).collect(),
        bytes: vec![0x90],
        length: 1,
    }
}

fn block(address: u64, hash: &str, mnemonics: &[&str], edges: &[u64]) -> BasicBlockInfo {
    let instructions: Vec<InstructionInfo> = mnemonics
        .iter()
        .enumerate()
        .map(|(i, m)| instr(address + i as u64, m, &[]))
        .collect();
    BasicBlockInfo {
        address,
        size: mnemonics.len() as u64,
        instruction_count: instructions.len(),
        instructions,
        edges: edges.to_vec(),
        mnemonic_hash: hash.to_string(),
    }
}

fn function(name: &str, address: u64, size: u64, blocks: Vec<BasicBlockInfo>, complexity: u32, cfg: &str) -> FunctionInfo {
    let instructions: Vec<InstructionInfo> =
        blocks.iter().flat_map(|b| b.instructions.iter().cloned()).collect();
    FunctionInfo {
        name: name.to_string(),
        address,
        size,
        instruction_count: instructions.len(),
        call_count: instructions.iter().filter(|i| i.mnemonic == "call").count(),
        basic_blocks: blocks,
        instructions,
        cyclomatic_complexity: complexity,
        call_graph_hash: format!("call_{}", name),
        cfg_hash: cfg.to_string(),
    }
}

fn chain(base: u64, n: usize, hash_prefix: &str, mnemonics: &[&str]) -> Vec<BasicBlockInfo> {
    (0..n)
        .map(|i| {
            let addr = base + 0x10 * i as u64;
            let edges: Vec<u64> = if i + 1 < n { vec![addr + 0x10] } else { vec![] };
            block(addr, &format!("{}{}", hash_prefix, i), mnemonics, &edges)
        })
        .collect()
}

#[test]
fn cfg_similarity_uses_block_count_ratio() {
    let a = function("a", 0x1000, 100, chain(0x1000, 3, "h", &["mov"]), 1, "x");
    let b = function("b", 0x2000, 100, chain(0x2000, 4, "h", &["mov"]), 1, "y");
    assert_eq!(DiffAlgorithms::calculate_cfg_similarity(&a, &b), 750_000);
    let c = function("c", 0x3000, 100, chain(0x3000, 4, "h", &["mov"]), 1, "x");
    assert_eq!(DiffAlgorithms::calculate_cfg_similarity(&a, &c), SCORE_ONE);
}

#[test]
fn basic_block_degenerate_cases() {
    let empty_a = function("a", 0x1000, 0, vec![], 0, "x");
    let empty_b = function("b", 0x2000, 0, vec![], 0, "y");
    let one = function("c", 0x3000, 4, chain(0x3000, 1, "h", &["ret"]), 1, "z");
    assert_eq!(DiffAlgorithms::calculate_basic_block_similarity(&empty_a, &empty_b), SCORE_ONE);
    assert_eq!(DiffAlgorithms::calculate_basic_block_similarity(&empty_a, &one), 0);
    assert_eq!(DiffAlgorithms::calculate_basic_block_similarity(&one, &empty_b), 0);
}

#[test]
fn basic_block_matching_is_greedy_one_to_one() {
    let a = function(
        "a",
        0x1000,
        10,
        vec![block(0x1000, "p", &["mov"], &[]), block(0x1010, "p", &["mov"], &[]), block(0x1020, "q", &["mov"], &[])],
        1,
        "x",
    );
    let b = function(
        "b",
        0x2000,
        10,
        vec![block(0x2000, "p", &["mov"], &[]), block(0x2010, "r", &["mov"], &[]), block(0x2020, "s", &["mov"], &[]), block(0x2030, "t", &["mov"], &[])],
        1,
        "y",
    );
    // one "p" of A finds the single "p" of B; the second finds it used
    assert_eq!(DiffAlgorithms::calculate_basic_block_similarity(&a, &b), 250_000);
}

#[test]
fn instruction_similarity_is_multiset_intersection() {
    let a = function("a", 0x1000, 10, vec![block(0x1000, "h", &["push", "push", "mov"], &[])], 1, "x");
    let b = function("b", 0x2000, 10, vec![block(0x2000, "h", &["push", "mov", "mov", "ret"], &[])], 1, "y");
    assert_eq!(DiffAlgorithms::calculate_instruction_similarity(&a, &b), 500_000);
}

#[test]
fn edge_similarity_compares_edge_totals() {
    let a = function("a", 0x1000, 10, chain(0x1000, 5, "h", &["mov"]), 1, "x");
    let b = function("b", 0x2000, 10, chain(0x2000, 3, "h", &["mov"]), 1, "y");
    assert_eq!(DiffAlgorithms::calculate_edge_similarity(&a, &b), 500_000);
    let lone = function("c", 0x3000, 10, chain(0x3000, 1, "h", &["mov"]), 1, "z");
    assert_eq!(DiffAlgorithms::calculate_edge_similarity(&a, &lone), 0);
}

#[test]
fn function_similarity_uses_fixed_weights() {
    let a = function("a", 0x1000, 10, chain(0x1000, 4, "h", &["push", "mov"]), 2, "x");
    let b = function("b", 0x2000, 10, chain(0x2000, 4, "g", &["push", "mov"]), 2, "y");
    // cfg 1.0 (equal counts), blocks 0.0, instructions 1.0, edges 1.0
    assert_eq!(DiffAlgorithms::calculate_function_similarity(&a, &b), 850_000);
}

#[test]
fn similarity_and_confidence_stay_within_one() {
    let fs = vec![
        function("a", 0x1000, 10, chain(0x1000, 4, "h", &["push", "mov"]), 2, "x"),
        function("b", 0x2000, 300, chain(0x2000, 1, "h", &["ret"]), 9, "x"),
        function("c", 0x3000, 0, vec![], 0, "z"),
        function("d", 0x4000, 11, chain(0x4000, 4, "h", &["push", "mov"]), 2, "w"),
    ];
    for a in &fs {
        for b in &fs {
            let s = DiffAlgorithms::calculate_function_similarity(a, b);
            let c = DiffAlgorithms::calculate_confidence(a, b, s);
            assert!(s <= SCORE_ONE);
            assert!(s <= c && c <= SCORE_ONE);
        }
    }
}

#[test]
fn confidence_adds_boosts_and_clamps() {
    let a = function("a", 0x1000, 100, chain(0x1000, 4, "h", &["mov"]), 2, "x");
    let b = function("b", 0x2000, 105, chain(0x2000, 4, "h", &["mov"]), 3, "y");
    assert_eq!(DiffAlgorithms::calculate_confidence(&a, &b, 500_000), 800_000);
    assert_eq!(DiffAlgorithms::calculate_confidence(&a, &b, 900_000), SCORE_ONE);
    let c = function("c", 0x3000, 200, chain(0x3000, 5, "h", &["mov"]), 9, "z");
    assert_eq!(DiffAlgorithms::calculate_confidence(&a, &c, 500_000), 500_000);
}

#[test]
fn isomorphic_gate_compares_out_degree_multisets() {
    let a = function("a", 0x1000, 10, chain(0x1000, 3, "h", &["mov"]), 1, "x");
    let b = function(
        "b",
        0x2000,
        10,
        vec![block(0x2000, "h", &["mov"], &[]), block(0x2010, "h", &["mov"], &[0x2000]), block(0x2020, "h", &["mov"], &[0x2010])],
        1,
        "y",
    );
    assert!(DiffAlgorithms::is_isomorphic_subgraph(&a, &b));
    let c = function(
        "c",
        0x3000,
        10,
        vec![block(0x3000, "h", &["mov"], &[0x3010, 0x3020]), block(0x3010, "h", &["mov"], &[]), block(0x3020, "h", &["mov"], &[])],
        1,
        "z",
    );
    assert!(!DiffAlgorithms::is_isomorphic_subgraph(&a, &c));
    let d = function("d", 0x4000, 10, chain(0x4000, 4, "h", &["mov"]), 1, "w");
    assert!(!DiffAlgorithms::is_isomorphic_subgraph(&a, &d));
}

#[test]
fn md_index_is_hex_length_of_counts() {
    let f = function("main", 0x1000, 200, chain(0x1000, 5, "h", &["push", "mov", "call"]), 5, "x");
    // "200:5:15:5" has 10 characters
    assert_eq!(DiffAlgorithms::calculate_md_index(&f), "a");
    let g = function("big", 0x1000, 123456, chain(0x1000, 12, "h", &["push", "mov", "call"]), 10, "x");
    // "123456:12:36:10" has 15 characters
    assert_eq!(DiffAlgorithms::calculate_md_index(&g), "f");
}

#[test]
fn small_primes_product_maps_mnemonics_to_primes() {
    let f = function("f", 0x1000, 10, vec![block(0x1000, "h", &["call"], &[])], 1, "x");
    // "call" sums to 412, 412 % 25 = 12, the thirteenth prime is 41
    assert_eq!(DiffAlgorithms::calculate_small_primes_product(&f), 41);
    let g = function("g", 0x1000, 10, vec![block(0x1000, "h", &["call", "ret"], &[])], 1, "x");
    // "ret" sums to 331, 331 % 25 = 6, the seventh prime is 17
    assert_eq!(DiffAlgorithms::calculate_small_primes_product(&g), 41 * 17);
    let empty = function("e", 0x1000, 0, vec![], 0, "x");
    assert_eq!(DiffAlgorithms::calculate_small_primes_product(&empty), 1);
}

#[test]
fn fuzzy_hash_is_hex_length_of_pattern() {
    let f = function("f", 0x1000, 10, vec![block(0x10, "h", &["mov", "ret"], &[])], 1, "x");
    // "bb_10_2:mov_ret_" has 16 characters
    assert_eq!(DiffAlgorithms::calculate_fuzzy_hash(&f), "10");
}

#[test]
fn name_similarity_cases() {
    assert_eq!(BinaryDiffEngine::calculate_name_similarity("abc", "abc"), SCORE_ONE);
    assert_eq!(BinaryDiffEngine::calculate_name_similarity("foo", "foobar"), 700_000);
    assert_eq!(BinaryDiffEngine::calculate_name_similarity("foobar", "oba"), 700_000);
    assert_eq!(BinaryDiffEngine::calculate_name_similarity("abc", "xbz"), 333_333);
    assert_eq!(BinaryDiffEngine::calculate_name_similarity("ab", "xyz"), 0);
}

#[test]
fn detailed_similarity_below_threshold() {
    let a = function("left", 0x1000, 100, vec![block(0x1000, "h", &[], &[])], 0, "same");
    let b = function("right", 0x2000, 100, chain(0x2000, 3, "h", &["mov"]), 2, "same");
    let (sim, details) = BinaryDiffEngine::calculate_detailed_similarity(&a, &b);
    assert_eq!(details.cfg_similarity, SCORE_ONE);
    assert_eq!(details.bb_similarity, 333_333);
    assert_eq!(details.instruction_similarity, 0);
    assert_eq!(details.edge_similarity, 0);
    assert_eq!(sim, 549_999);
    assert!(BinaryDiffEngine::is_structurally_similar(&a, &b));
}

#[test]
fn engine_confidence_boosts_equal_names() {
    let a = function("same", 0x1000, 100, chain(0x1000, 2, "h", &["mov"]), 1, "x");
    let b = function("same", 0x2000, 500, chain(0x2000, 5, "h", &["mov"]), 9, "y");
    assert_eq!(BinaryDiffEngine::calculate_confidence(&a, &b, 300_000), 500_000);
}

#[test]
fn edit_distance_classic_pair() {
    assert_eq!(SimilarityAnalyzer::edit_distance("kitten", "sitting"), 3);
    assert_eq!(SimilarityAnalyzer::edit_distance("", "abc"), 3);
    assert_eq!(SimilarityAnalyzer::edit_distance("same", "same"), 0);
}

#[test]
fn normalized_edit_distance_values() {
    assert_eq!(SimilarityAnalyzer::normalized_edit_distance("kitten", "sitting"), 571_428);
    assert_eq!(SimilarityAnalyzer::normalized_edit_distance("", ""), 0);
    assert_eq!(SimilarityAnalyzer::normalized_edit_distance("ab", "ab"), SCORE_ONE);
}

#[test]
fn jaccard_of_string_sets() {
    let a: Vec<String> = vec!["a".into(), "b".into(), "c".into(), "b".into()];
    let b: Vec<String> = vec!["b".into(), "c".into(), "d".into()];
    assert_eq!(SimilarityAnalyzer::jaccard_similarity(&a, &b), 500_000);
    assert_eq!(SimilarityAnalyzer::jaccard_similarity(&vec![], &vec![]), SCORE_ONE);
}

#[test]
fn call_targets_follow_lowercased_mnemonics() {
    let mut f = function("f", 0x1000, 10, vec![], 1, "x");
    f.instructions = vec![instr(1, "CALL", &["printf"]), instr(2, "mov", &["eax"]), instr(3, "callq", &["malloc"]), instr(4, "call", &[])];
    assert_eq!(SimilarityAnalyzer::extract_function_calls(&f), vec!["printf".to_string(), "malloc".to_string()]);
}

#[test]
fn constants_and_strings_are_extracted() {
    let mut f = function("f", 0x1000, 10, vec![], 1, "x");
    f.instructions = vec![
        instr(1, "mov", &["#4", "0x10", "42", "-7", "abc", "+", "99999999999999999999"]),
        instr(2, "lea", &["\"hi\"", "\"", "x\""]),
    ];
    assert_eq!(
        SimilarityAnalyzer::extract_constants(&f),
        vec!["#4".to_string(), "0x10".to_string(), "42".to_string(), "-7".to_string()]
    );
    assert_eq!(SimilarityAnalyzer::extract_strings(&f), vec!["\"hi\"".to_string(), "\"".to_string()]);
}

#[test]
fn instruction_sequence_similarity_values() {
    let a = vec![instr(1, "push", &[]), instr(2, "mov", &[])];
    let b = vec![instr(1, "push", &[]), instr(2, "ret", &[])];
    // "push mov" and "push ret" differ in 3 of 8 characters
    assert_eq!(SimilarityAnalyzer::instruction_sequence_similarity(&a, &b), 625_000);
    assert_eq!(SimilarityAnalyzer::instruction_sequence_similarity(&[], &[]), SCORE_ONE);
    assert_eq!(SimilarityAnalyzer::instruction_sequence_similarity(&a, &[]), 0);
}

#[test]
fn control_flow_similarity_counts_nodes_and_edges() {
    let a = function("a", 0x1000, 10, chain(0x1000, 2, "h", &["mov"]), 1, "x");
    let b = function(
        "b",
        0x2000,
        10,
        vec![block(0x2000, "h", &["mov"], &[0x9999]), block(0x2010, "h", &["mov"], &[])],
        1,
        "y",
    );
    // equal node counts; one edge against none, as 0x9999 is no block
    assert_eq!(SimilarityAnalyzer::control_flow_similarity(&a, &b), 600_000);
    assert_eq!(SimilarityAnalyzer::control_flow_similarity(&a, &a), SCORE_ONE);
}

#[test]
fn block_similarity_matrix_shape() {
    let a = function("a", 0x1000, 10, vec![block(0x1000, "h", &["mov", "ret"], &[])], 1, "x");
    let b = function(
        "b",
        0x2000,
        10,
        vec![block(0x2000, "h", &["mov", "ret"], &[]), block(0x2010, "h", &["mov", "push"], &[])],
        1,
        "y",
    );
    let m = SimilarityAnalyzer::basic_block_similarity_matrix(&a, &b);
    assert_eq!(m, vec![vec![SCORE_ONE, 333_333]]);
}

#[test]
fn progress_bar_text() {
    assert_eq!(DiffUI::generate_progress_bar(1, 3, 3), "[█░░] 1/3 (33.3%)");
    assert_eq!(DiffUI::generate_progress_bar(2, 3, 6), "[████░░] 2/3 (66.7%)");
    assert_eq!(DiffUI::generate_progress_bar(5, 5, 2), "[██] 5/5 (100.0%)");
    assert_eq!(DiffUI::generate_progress_bar(0, 0, 4), "");
}

#[test]
fn comprehensive_similarity_weights() {
    let a = function("a", 0x1000, 10, chain(0x1000, 2, "h", &["mov"]), 1, "x");
    let b = function(
        "b",
        0x2000,
        10,
        vec![block(0x2000, "h", &["mov"], &[0x9999]), block(0x2010, "h", &["mov"], &[])],
        1,
        "y",
    );
    assert_eq!(SimilarityAnalyzer::comprehensive_similarity(&a, &a), SCORE_ONE);
    // control flow 0.6, every other metric 1.0
    assert_eq!(SimilarityAnalyzer::comprehensive_similarity(&a, &b), 880_000);
}

#[test]
fn confidence_boosts_equal_names() {
    let a = function("same", 0x1000, 100, chain(0x1000, 2, "h", &["mov"]), 1, "x");
    let b = function("same", 0x2000, 500, chain(0x2000, 5, "h", &["mov"]), 9, "y");
    assert_eq!(DiffAlgorithms::calculate_confidence(&a, &b, 0), 200_000);
    let c = function("other", 0x3000, 500, chain(0x3000, 5, "h", &["mov"]), 9, "z");
    assert_eq!(DiffAlgorithms::calculate_confidence(&a, &c, 0), 0);
}

#[test]
fn progress_bar_past_total_and_empty_total() {
    assert_eq!(DiffUI::generate_progress_bar(7, 0, 4), "");
    assert_eq!(DiffUI::generate_progress_bar(3, 2, 1), "[█] 3/2 (150.0%)");
}

#[test]
fn constant_operands_at_i64_bounds() {
    let mut f = function("f", 0x1000, 10, vec![], 1, "x");
    f.instructions = vec![instr(
        1,
        "mov",
        &["-9223372036854775808", "9223372036854775807", "9223372036854775808", "-9223372036854775809", "+0", "1a"],
    )];
    assert_eq!(
        SimilarityAnalyzer::extract_constants(&f),
        vec!["-9223372036854775808".to_string(), "9223372036854775807".to_string(), "+0".to_string()]
    );
}
