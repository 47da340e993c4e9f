use rust_diff::{
    BasicBlockInfo, BinaryDiffEngine, ConfigError, DatabaseManager, DiffUI, FunctionInfo, FunctionMatch,
    InstructionInfo, MatchType, MatchingEngine, SCORE_ONE,
};

fn instr(address: u64, mnemonic: &str) -> InstructionInfo {
    InstructionInfo {
        address,
        mnemonic: mnemonic.to_string(),
        operands: vec![],
        bytes: vec![0x90],
        length: 1,
    }
}

fn block(address: u64, hash: &str, mnemonics: &[&str], edges: &[u64]) -> BasicBlockInfo {
    let instructions: Vec<InstructionInfo> =
        mnemonics.iter().enumerate().map(|(i, m)| instr(address + i as u64, m)).collect();
    BasicBlockInfo {
        address,
        size: mnemonics.len() as u64,
        instruction_count: instructions.len(),
        instructions,
        edges: edges.to_vec(),
        mnemonic_hash: hash.to_string(),
    }
}

fn function(
    name: &str,
    address: u64,
    size: u64,
    blocks: Vec<BasicBlockInfo>,
    complexity: u32,
    cfg: &str,
    call: &str,
) -> FunctionInfo {
    let instructions: Vec<InstructionInfo> =
        blocks.iter().flat_map(|b| b.instructions.iter().cloned()).collect();
    FunctionInfo {
        name: name.to_string(),
        address,
        size,
        instruction_count: instructions.len(),
        call_count: instructions.iter().filter(|i| i.mnemonic == "call").count(),
        basic_blocks: blocks,
        instructions,
        cyclomatic_complexity: complexity,
        call_graph_hash: call.to_string(),
        cfg_hash: cfg.to_string(),
    }
}

fn chain(base: u64, n: usize, hash_prefix: &str, mnemonics: &[&str]) -> Vec<BasicBlockInfo> {
    (0..n)
        .map(|i| {
            let addr = base + 0x10 * i as u64;
            let edges: Vec<u64> = if i + 1 < n { vec![addr + 0x10] } else { vec![] };
            block(addr, &format!("{}{}", hash_prefix, i), mnemonics, &edges)
        })
        .collect()
}

fn summary(ms: &[FunctionMatch]) -> Vec<(u64, u64, u64, u64, MatchType)> {
    ms.iter()
        .map(|m| (m.function_a.address, m.function_b.address, m.similarity, m.confidence, m.match_type))
        .collect()
}

/// Two A-functions whose only admissible target is the one B-function, found
/// only by the fuzzy stage.
fn fuzzy_race_input() -> (Vec<FunctionInfo>, Vec<FunctionInfo>) {
    let a_blocks = |base: u64| chain(base, 4, "h", &["push", "mov", "call"]);
    let alpha = function("alpha", 0x1000, 100, a_blocks(0x1000), 5, "ca", "ka");
    let beta = function("beta", 0x2000, 100, a_blocks(0x2000), 5, "cb", "kb");
    let gamma = function(
        "gamma",
        0x9000,
        100,
        vec![
            block(0x9000, "h0", &["push", "mov", "call"], &[0x9010, 0x9020]),
            block(0x9010, "h1", &["push", "mov", "call"], &[]),
            block(0x9020, "h2", &["push", "mov", "call"], &[0x9030]),
            block(0x9030, "h3", &["push", "mov", "ret"], &[]),
        ],
        10,
        "cg",
        "kg",
    );
    (vec![alpha, beta], vec![gamma])
}

#[test]
fn exact_hash_pair_is_one_exact_match() {
    let a = function("main", 0x1000, 200, chain(0x1000, 5, "a", &["push", "mov", "call"]), 5, "cfg", "cg");
    let b = function("main", 0x2000, 200, chain(0x2000, 5, "b", &["push", "mov", "call"]), 9, "cfg", "cg");
    let ms = MatchingEngine::new().match_functions(&[a], &[b]);
    assert_eq!(ms.len(), 1);
    assert_eq!(ms[0].match_type, MatchType::Exact);
    assert_eq!(ms[0].function_a.address, 0x1000);
    assert_eq!(ms[0].function_b.address, 0x2000);
    // cfg 1.0, blocks 0.0, instructions 1.0, edges 1.0
    assert_eq!(ms[0].similarity, 850_000);
    assert_eq!(ms[0].details.cfg_similarity, SCORE_ONE);
    assert_eq!(ms[0].details.name_similarity, SCORE_ONE);
    assert!(ms[0].confidence >= ms[0].similarity + 100_000);
    assert_eq!(ms[0].confidence, SCORE_ONE);
}

#[test]
fn unmatched_function_is_listed() {
    let foo = function("foo", 0x1000, 100, chain(0x1000, 1, "f", &["push", "mov", "ret"]), 1, "cf", "kf");
    let bar = function("bar", 0x5000, 1000, chain(0x5000, 8, "b", &["push", "mov", "call"]), 10, "cb", "kb");
    let r = BinaryDiffEngine::new().diff_functions(&[foo], &[bar], "a.bin", "b.bin", 7);
    assert!(r.matched_functions.is_empty());
    assert_eq!(r.unmatched_functions_a.len(), 1);
    assert_eq!(r.unmatched_functions_a[0].name, "foo");
    assert_eq!(r.unmatched_functions_b.len(), 1);
    assert_eq!(r.similarity_score, 0);
    assert_eq!(r.analysis_time, 7);
    assert_eq!(r.binary_a_name, "a.bin");
}

#[test]
fn fuzzy_commit_goes_to_the_earlier_function() {
    let (fa, fb) = fuzzy_race_input();
    let ms = MatchingEngine::new().match_functions(&fa, &fb);
    assert_eq!(ms.len(), 1);
    assert_eq!(ms[0].function_a.name, "alpha");
    assert_eq!(ms[0].function_b.name, "gamma");
    assert_eq!(ms[0].match_type, MatchType::Heuristic);
    // cfg 1.0, blocks 1.0, instructions 11/12, edges 1.0
    assert_eq!(ms[0].similarity, 991_666);
}

#[test]
fn gated_pair_below_similarity_threshold_is_not_matched() {
    let engine = BinaryDiffEngine::with_thresholds(600_000, 500_000).ok().unwrap();
    let a = function("left", 0x1000, 100, vec![block(0x1000, "h", &[], &[])], 0, "same", "k1");
    let b = function("right", 0x2000, 100, chain(0x2000, 3, "h", &["mov"]), 2, "same", "k2");
    let (sim, _) = BinaryDiffEngine::calculate_detailed_similarity(&a, &b);
    assert_eq!(sim, 549_999);
    let ms = engine.compare_functions(&[a.clone()], &[b.clone()]);
    assert!(ms.is_empty());
    let lowered = BinaryDiffEngine::with_thresholds(500_000, 500_000).ok().unwrap();
    let ms = lowered.compare_functions(&[a], &[b]);
    assert_eq!(ms.len(), 1);
    assert_eq!(ms[0].match_type, MatchType::StructuralMatch);
}

#[test]
fn exact_stage_ignores_thresholds() {
    let engine = MatchingEngine::with_thresholds(SCORE_ONE, SCORE_ONE).ok().unwrap();
    let a = function("f", 0x1000, 10, chain(0x1000, 1, "x", &["ret"]), 1, "c", "k");
    let b = function("g", 0x2000, 900, chain(0x2000, 7, "y", &["push", "call"]), 8, "c", "k");
    let ms = engine.match_functions(&[a], &[b]);
    assert_eq!(ms.len(), 1);
    assert_eq!(ms[0].match_type, MatchType::Exact);
    assert!(ms[0].similarity < SCORE_ONE);
}

#[test]
fn claimed_target_is_not_claimed_again() {
    let b0 = function("shared", 0x9000, 100, chain(0x9000, 3, "h", &["mov"]), 2, "c", "k");
    let a0 = function("other", 0x1000, 100, chain(0x1000, 3, "h", &["mov"]), 2, "c", "k");
    let a1 = function("shared", 0x2000, 100, chain(0x2000, 3, "h", &["mov"]), 2, "d", "k");
    let ms = MatchingEngine::new().match_functions(&[a0, a1], &[b0]);
    assert_eq!(ms.len(), 1);
    assert_eq!(ms[0].function_a.address, 0x1000);
    assert_eq!(ms[0].match_type, MatchType::Exact);
}

#[test]
fn name_stage_matches_equal_names() {
    let a = function("printf", 0x1000, 100, chain(0x1000, 3, "h", &["push", "mov"]), 2, "c1", "k1");
    let b = function("printf", 0x2000, 104, chain(0x2000, 3, "h", &["push", "mov"]), 2, "c2", "k2");
    let ms = MatchingEngine::new().match_functions(&[a], &[b]);
    assert_eq!(ms.len(), 1);
    assert_eq!(ms[0].match_type, MatchType::Heuristic);
    assert_eq!(ms[0].similarity, SCORE_ONE);
}

#[test]
fn structural_stage_takes_highest_confidence() {
    let variant = |base: u64| {
        let mut blocks = chain(base, 3, "g", &["push", "mov"]);
        blocks[2] = block(base + 0x20, "g2", &["push", "ret"], &[]);
        blocks
    };
    let a = function("a", 0x1000, 100, chain(0x1000, 3, "h", &["push", "mov"]), 2, "c1", "k1");
    let far = function("b", 0x2000, 5000, variant(0x2000), 9, "c2", "k2");
    let near = function("c", 0x3000, 1000, variant(0x3000), 2, "c3", "k3");
    let ms = MatchingEngine::new().match_functions(&[a], &[far, near]);
    assert_eq!(ms.len(), 1);
    assert_eq!(ms[0].function_b.address, 0x3000);
    assert_eq!(ms[0].match_type, MatchType::StructuralMatch);
    assert_eq!(ms[0].similarity, 833_333);
    assert_eq!(ms[0].confidence, SCORE_ONE);
}

#[test]
fn repeated_runs_agree() {
    let (fa, fb) = fuzzy_race_input();
    let engine = BinaryDiffEngine::new();
    let r1 = engine.diff_functions(&fa, &fb, "a", "b", 0);
    let r2 = engine.diff_functions(&fa, &fb, "a", "b", 0);
    assert_eq!(summary(&r1.matched_functions), summary(&r2.matched_functions));
    assert_eq!(r1.similarity_score, r2.similarity_score);
    let m1 = MatchingEngine::new().match_functions(&fa, &fb);
    let m2 = MatchingEngine::new().match_functions(&fa, &fb);
    assert_eq!(summary(&m1), summary(&m2));
}

#[test]
fn every_address_lands_in_one_list() {
    let fa = vec![
        function("main", 0x1000, 200, chain(0x1000, 5, "m", &["push", "mov", "call"]), 5, "c0", "k0"),
        function("foo", 0x1100, 40, chain(0x1100, 1, "f", &["ret"]), 1, "c1", "k1"),
        function("bar", 0x1200, 120, chain(0x1200, 3, "b", &["push", "mov"]), 3, "c2", "k2"),
    ];
    let fb = vec![
        function("bar", 0x2200, 120, chain(0x2200, 3, "b", &["push", "mov"]), 3, "c2", "l2"),
        function("main", 0x2000, 200, chain(0x2000, 5, "m", &["push", "mov", "call"]), 5, "c0", "k0"),
        function("zed", 0x2300, 900, chain(0x2300, 9, "z", &["nop"]), 12, "d3", "l3"),
    ];
    let r = BinaryDiffEngine::new().diff_functions(&fa, &fb, "a", "b", 0);
    for f in &fa {
        let matched = r.matched_functions.iter().filter(|m| m.function_a.address == f.address).count();
        let unmatched = r.unmatched_functions_a.iter().filter(|u| u.address == f.address).count();
        assert_eq!(matched + unmatched, 1);
    }
    for f in &fb {
        let matched = r.matched_functions.iter().filter(|m| m.function_b.address == f.address).count();
        let unmatched = r.unmatched_functions_b.iter().filter(|u| u.address == f.address).count();
        assert_eq!(matched + unmatched, 1);
    }
    assert_eq!(r.matched_functions.len(), 2);
    assert_eq!(r.unmatched_functions_a[0].name, "foo");
    assert_eq!(r.unmatched_functions_b[0].name, "zed");
    let mean = (r.matched_functions[0].similarity + r.matched_functions[1].similarity) / 2;
    assert_eq!(r.similarity_score, mean);
}

#[test]
fn thresholds_out_of_range_are_rejected() {
    assert_eq!(
        MatchingEngine::with_thresholds(SCORE_ONE + 1, 0).err(),
        Some(ConfigError::ConfidenceThresholdOutOfRange)
    );
    assert_eq!(
        MatchingEngine::with_thresholds(0, SCORE_ONE + 1).err(),
        Some(ConfigError::SimilarityThresholdOutOfRange)
    );
    assert_eq!(
        BinaryDiffEngine::with_thresholds(SCORE_ONE + 1, 0).err(),
        Some(ConfigError::SimilarityThresholdOutOfRange)
    );
    assert_eq!(
        BinaryDiffEngine::with_thresholds(0, SCORE_ONE + 1).err(),
        Some(ConfigError::ConfidenceThresholdOutOfRange)
    );
    let e = MatchingEngine::with_thresholds(400_000, 300_000).ok().unwrap();
    assert_eq!(e.confidence_threshold, 400_000);
    assert_eq!(e.similarity_threshold, 300_000);
}

#[test]
fn single_function_matches_sorted_by_confidence() {
    let engine = MatchingEngine::new();
    let target = function("t", 0x1000, 100, chain(0x1000, 3, "h", &["push", "mov"]), 2, "c", "k");
    let weak = function("w", 0x2000, 150, chain(0x2000, 3, "g", &["push", "mov"]), 6, "d", "l");
    let strong = function("s", 0x3000, 100, chain(0x3000, 3, "h", &["push", "mov"]), 2, "e", "m");
    let none = function("n", 0x4000, 100, vec![], 0, "f", "n");
    let ms = engine.match_single_function(&target, &[weak, none, strong]);
    assert_eq!(ms.len(), 2);
    assert_eq!(ms[0].function_b.address, 0x3000);
    assert_eq!(ms[0].match_type, MatchType::Exact);
    assert_eq!(ms[1].function_b.address, 0x2000);
    assert!(ms[0].confidence >= ms[1].confidence);
}

#[test]
fn statistics_of_a_database() {
    let fa = vec![
        function("main", 0x1000, 200, chain(0x1000, 5, "m", &["push", "mov", "call"]), 5, "c0", "k0"),
        function("foo", 0x1100, 40, chain(0x1100, 1, "f", &["ret"]), 1, "c1", "k1"),
    ];
    let fb = vec![function("main", 0x2000, 200, chain(0x2000, 5, "m", &["push", "mov", "call"]), 5, "c0", "k0")];
    let r = BinaryDiffEngine::new().diff_functions(&fa, &fb, "a", "b", 0);
    let db = DatabaseManager::build_database(&r, "a.bin", "b.bin", "now".to_string(), "1".to_string());
    assert_eq!(db.functions_a.len(), 2);
    assert_eq!(db.functions_a[0].name, "main");
    assert_eq!(db.functions_a[1].name, "foo");
    assert_eq!(db.metadata.total_functions_a, 2);
    assert_eq!(db.metadata.total_functions_b, 1);
    let stats = DatabaseManager::generate_statistics(&db);
    assert_eq!(stats.total_matches, 1);
    assert_eq!(stats.exact_matches, 1);
    assert_eq!(stats.unmatched_functions_a, 1);
    assert_eq!(stats.unmatched_functions_b, 0);
    assert_eq!(stats.average_similarity, SCORE_ONE);
    assert_eq!(stats.average_confidence, SCORE_ONE);
    let counts = DiffUI::count_match_types(&r.matched_functions);
    assert_eq!((counts.exact, counts.structural, counts.heuristic, counts.manual), (1, 0, 0, 0));
}

#[test]
fn empty_inputs_give_empty_results() {
    let f = function("f", 0x1000, 10, chain(0x1000, 2, "h", &["mov"]), 1, "c", "k");
    assert!(MatchingEngine::new().match_functions(&[], &[]).is_empty());
    assert!(MatchingEngine::new().match_functions(&[f.clone()], &[]).is_empty());
    let r = BinaryDiffEngine::new().diff_functions(&[], &[f], "a", "b", 0);
    assert!(r.matched_functions.is_empty());
    assert!(r.unmatched_functions_a.is_empty());
    assert_eq!(r.unmatched_functions_b.len(), 1);
    assert_eq!(r.similarity_score, 0);
}
