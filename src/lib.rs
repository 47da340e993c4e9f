//! Function-level diffing of two disassembled binaries.
//!
//! Functions of binary A are paired with functions of binary B by a fixed
//! sequence of matching stages. Every score is a fixed-point number in
//! millionths: `SCORE_ONE` stands for 1.0.
use vstd::prelude::*;

pub mod algorithms;
pub mod database;
pub mod engine;
pub mod matching;
pub mod pipeline;
pub mod similarity;
pub mod ui;

pub use algorithms::DiffAlgorithms;
pub use database::{DatabaseManager, DatabaseMetadata, DiffDatabase, DiffStatistics};
pub use engine::BinaryDiffEngine;
pub use matching::MatchingEngine;
pub use pipeline::{MatchConfig, Scoring, Stage};
pub use similarity::SimilarityAnalyzer;
pub use ui::{DiffUI, MatchTypeCounts};


verus! {

/// The fixed-point value of a score of 1.0.
pub const SCORE_ONE: u64 = 1_000_000;

pub struct InstructionInfo {
    pub address: u64,
    pub mnemonic: String,
    pub operands: Vec<String>,
    pub bytes: Vec<u8>,
    pub length: usize,
}

pub struct BasicBlockInfo {
    pub address: u64,
    pub size: u64,
    pub instructions: Vec<InstructionInfo>,
    /// Addresses of the successor blocks.
    pub edges: Vec<u64>,
    pub mnemonic_hash: String,
    pub instruction_count: usize,
}

pub struct FunctionInfo {
    pub name: String,
    pub address: u64,
    pub size: u64,
    pub basic_blocks: Vec<BasicBlockInfo>,
    pub instructions: Vec<InstructionInfo>,
    pub cyclomatic_complexity: u32,
    pub call_graph_hash: String,
    pub cfg_hash: String,
    pub instruction_count: usize,
    pub call_count: usize,
}

/// How a correspondence was established.
#[derive(Debug, Clone, Copy, PartialEq, Eq, Structural, Hash)]
pub enum MatchType {
    Exact,
    StructuralMatch,
    Heuristic,
    Manual,
}

/// Per-metric sub-scores of a match, kept for audit.
#[derive(Debug, Clone, Copy, PartialEq, Eq, Structural)]
pub struct MatchDetails {
    pub cfg_similarity: u64,
    pub bb_similarity: u64,
    pub instruction_similarity: u64,
    pub edge_similarity: u64,
    pub name_similarity: u64,
    pub call_similarity: u64,
}

/// A threshold outside [0, 1] given to an engine's constructor.
#[derive(Debug, Clone, Copy, PartialEq, Eq, Structural)]
pub enum ConfigError {
    SimilarityThresholdOutOfRange,
    ConfidenceThresholdOutOfRange,
}

pub struct FunctionMatch {
    pub function_a: FunctionInfo,
    pub function_b: FunctionInfo,
    pub similarity: u64,
    pub confidence: u64,
    pub match_type: MatchType,
    pub details: MatchDetails,
}

pub struct DiffResult {
    pub matched_functions: Vec<FunctionMatch>,
    pub unmatched_functions_a: Vec<FunctionInfo>,
    pub unmatched_functions_b: Vec<FunctionInfo>,
    /// Mean similarity of the matches, 0 when there is none.
    pub similarity_score: u64,
    /// Elapsed analysis time in microseconds.
    pub analysis_time: u64,
    pub binary_a_name: String,
    pub binary_b_name: String,
}

pub struct InstructionView {
    pub address: u64,
    pub mnemonic: Seq<char>,
    pub operands: Seq<Seq<char>>,
    pub bytes: Seq<u8>,
    pub length: usize,
}

pub struct BlockView {
    pub address: u64,
    pub size: u64,
    pub instructions: Seq<InstructionView>,
    pub edges: Seq<u64>,
    pub mnemonic_hash: Seq<char>,
    pub instruction_count: usize,
}

pub struct FunctionView {
    pub name: Seq<char>,
    pub address: u64,
    pub size: u64,
    pub basic_blocks: Seq<BlockView>,
    pub instructions: Seq<InstructionView>,
    pub cyclomatic_complexity: u32,
    pub call_graph_hash: Seq<char>,
    pub cfg_hash: Seq<char>,
    pub instruction_count: usize,
    pub call_count: usize,
}

pub struct MatchView {
    pub function_a: FunctionView,
    pub function_b: FunctionView,
    pub similarity: u64,
    pub confidence: u64,
    pub match_type: MatchType,
    pub details: MatchDetails,
}

pub struct DiffView {
    pub matched_functions: Seq<MatchView>,
    pub unmatched_functions_a: Seq<FunctionView>,
    pub unmatched_functions_b: Seq<FunctionView>,
    pub similarity_score: u64,
    pub analysis_time: u64,
    pub binary_a_name: Seq<char>,
    pub binary_b_name: Seq<char>,
}

pub open spec fn strings_view(v: Seq<String>) -> Seq<Seq<char>> {
    v.map_values(|s: String| s@)
}

pub open spec fn instructions_view(v: Seq<InstructionInfo>) -> Seq<InstructionView> {
    v.map_values(|i: InstructionInfo| i@)
}

pub open spec fn blocks_view(v: Seq<BasicBlockInfo>) -> Seq<BlockView> {
    v.map_values(|b: BasicBlockInfo| b@)
}

pub open spec fn functions_view(v: Seq<FunctionInfo>) -> Seq<FunctionView> {
    v.map_values(|f: FunctionInfo| f@)
}

pub open spec fn matches_view(v: Seq<FunctionMatch>) -> Seq<MatchView> {
    v.map_values(|m: FunctionMatch| m@)
}

impl View for InstructionInfo {
    type V = InstructionView;

    open spec fn view(&self) -> InstructionView {
        InstructionView {
            address: self.address,
            mnemonic: self.mnemonic@,
            operands: strings_view(self.operands@),
            bytes: self.bytes@,
            length: self.length,
        }
    }
}

impl View for BasicBlockInfo {
    type V = BlockView;

    open spec fn view(&self) -> BlockView {
        BlockView {
            address: self.address,
            size: self.size,
            instructions: instructions_view(self.instructions@),
            edges: self.edges@,
            mnemonic_hash: self.mnemonic_hash@,
            instruction_count: self.instruction_count,
        }
    }
}

impl View for FunctionInfo {
    type V = FunctionView;

    open spec fn view(&self) -> FunctionView {
        FunctionView {
            name: self.name@,
            address: self.address,
            size: self.size,
            basic_blocks: blocks_view(self.basic_blocks@),
            instructions: instructions_view(self.instructions@),
            cyclomatic_complexity: self.cyclomatic_complexity,
            call_graph_hash: self.call_graph_hash@,
            cfg_hash: self.cfg_hash@,
            instruction_count: self.instruction_count,
            call_count: self.call_count,
        }
    }
}

impl View for FunctionMatch {
    type V = MatchView;

    open spec fn view(&self) -> MatchView {
        MatchView {
            function_a: self.function_a@,
            function_b: self.function_b@,
            similarity: self.similarity,
            confidence: self.confidence,
            match_type: self.match_type,
            details: self.details,
        }
    }
}

impl View for DiffResult {
    type V = DiffView;

    open spec fn view(&self) -> DiffView {
        DiffView {
            matched_functions: matches_view(self.matched_functions@),
            unmatched_functions_a: functions_view(self.unmatched_functions_a@),
            unmatched_functions_b: functions_view(self.unmatched_functions_b@),
            similarity_score: self.similarity_score,
            analysis_time: self.analysis_time,
            binary_a_name: self.binary_a_name@,
            binary_b_name: self.binary_b_name@,
        }
    }
}

impl Clone for InstructionInfo {
    fn clone(&self) -> (r: Self)
        ensures
            r@ == self@,
    {
        let operands = self.operands.clone();
        let bytes = self.bytes.clone();
        let r = InstructionInfo {
            address: self.address,
            mnemonic: self.mnemonic.clone(),
            operands,
            bytes,
            length: self.length,
        };
        assert(strings_view(r.operands@) =~= strings_view(self.operands@));
        assert(r.bytes@ =~= self.bytes@);
        r
    }
}

impl Clone for BasicBlockInfo {
    fn clone(&self) -> (r: Self)
        ensures
            r@ == self@,
    {
        let instructions = self.instructions.clone();
        let edges = self.edges.clone();
        let r = BasicBlockInfo {
            address: self.address,
            size: self.size,
            instructions,
            edges,
            mnemonic_hash: self.mnemonic_hash.clone(),
            instruction_count: self.instruction_count,
        };
        assert(instructions_view(r.instructions@) =~= instructions_view(self.instructions@));
        assert(r.edges@ =~= self.edges@);
        r
    }
}

impl Clone for FunctionInfo {
    fn clone(&self) -> (r: Self)
        ensures
            r@ == self@,
    {
        let basic_blocks = self.basic_blocks.clone();
        let instructions = self.instructions.clone();
        let r = FunctionInfo {
            name: self.name.clone(),
            address: self.address,
            size: self.size,
            basic_blocks,
            instructions,
            cyclomatic_complexity: self.cyclomatic_complexity,
            call_graph_hash: self.call_graph_hash.clone(),
            cfg_hash: self.cfg_hash.clone(),
            instruction_count: self.instruction_count,
            call_count: self.call_count,
        };
        assert(blocks_view(r.basic_blocks@) =~= blocks_view(self.basic_blocks@));
        assert(instructions_view(r.instructions@) =~= instructions_view(self.instructions@));
        r
    }
}

impl Clone for FunctionMatch {
    fn clone(&self) -> (r: Self)
        ensures
            r@ == self@,
    {
        FunctionMatch {
            function_a: self.function_a.clone(),
            function_b: self.function_b.clone(),
            similarity: self.similarity,
            confidence: self.confidence,
            match_type: self.match_type,
            details: self.details,
        }
    }
}

} // verus!
