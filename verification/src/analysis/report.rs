//! Structured reverse-engineering report package.
//!
//! The report gathers, for each detected function, its calls, tail calls and
//! string references; a call graph; cross-references for functions and
//! imports; sections, strings and suspicious strings; and a behavior summary
//! scored from classified imports and strings.

use crate::analysis::functions::FunctionInfo;
use crate::analysis::strings::{encoding_name, RuntimeMatch, StringInfo};
use crate::analysis::behavior::{
    api_insights, api_insights_spec, behavior_report, behavior_report_spec,
    lemma_report_weights_bounded,
};
use crate::analysis::xrefs::{
    call_graph_edges, call_graph_spec, function_xrefs_spec, import_xrefs_spec, xref_report,
};
use crate::binary::parser::{ExportInfo, ImportAddressInfo, ImportInfo, SectionInfo};
use crate::decompiler::lifter::{collect_hex_addresses, names_view, hex_values, referenced_address, referenced_memory_address};
use crate::decompiler::structure::{lex_less, lex_lt};
use crate::disasm::control_flow::Instruction;
use crate::disasm::ir::opt_str_v;
use crate::disasm::x86::{
    display_text, is_call_mnemonic, is_conditional_jump_mnemonic, is_return_mnemonic,
    is_unconditional_jump_mnemonic, X86InstructionV,
};
use crate::text::{
    chars_of, contains_exec, contains_seq, ends_with, ends_with_exec, eq_chars, eq_str,
    extend_chars, has_char_exec, hex_text, lower_chars, lower_seq, push_dec, push_hex, dec_text,
    starts_with, starts_with_exec, string_of, eq_ignore_case, lemma_lower_of_upper, upper_seq,
};
use std::collections::HashMap;
use vstd::prelude::*;

verus! {

broadcast use vstd::std_specs::hash::group_hash_axioms;

/// Inputs for building a complete reverse-engineering report package.
pub struct AnalysisReportInputs<'a> {
    pub input_path: &'a str,
    pub format: &'a str,
    pub architecture: &'a str,
    pub entry_point: u64,
    pub instruction_count: usize,
    pub basic_block_count: usize,
    pub sections: &'a [SectionInfo],
    pub functions: &'a [FunctionInfo],
    pub strings: &'a [StringInfo],
    pub imports: &'a [ImportInfo],
    pub import_addresses: &'a [ImportAddressInfo],
    pub exports: &'a [ExportInfo],
    pub runtime_matches: &'a [RuntimeMatch],
}

/// Top-level structured analysis package.
///
/// The package holds no CyberChef decode-recipe suggestions and no PE
/// data-directory inventory: this library has no decoder-recipe analysis
/// and no PE parser. Runtime hints are carried as the caller's runtime
/// matches; the library does no runtime detection of its own.
#[derive(Debug, Clone)]
pub struct AnalysisReportPackage {
    pub summary: AnalysisSummary,
    pub cfg_summary: CfgSummaryReport,
    pub functions: Vec<FunctionReport>,
    pub jump_tables: Vec<JumpTableReport>,
    pub call_graph: Vec<CallGraphEdge>,
    pub xrefs: XrefReport,
    pub sections: Vec<SectionReport>,
    pub strings: Vec<StringReport>,
    pub suspicious_strings: Vec<SuspiciousStringReport>,
    pub strings_by_function: Vec<FunctionStringIndex>,
    pub api_insights: Vec<ApiInsightReport>,
    pub behavior_report: BehaviorReport,
    pub import_addresses: Vec<ImportAddressReport>,
    pub imports: Vec<ImportReport>,
    pub exports: Vec<ExportReport>,
}

/// Human-scale counts and binary identity.
///
/// There is no count of CyberChef recipe suggestions, which this library
/// does not make; the runtime hints are those of the caller's runtime matches.
#[derive(Debug, Clone)]
pub struct AnalysisSummary {
    pub input_path: String,
    pub format: String,
    pub architecture: String,
    pub entry_point: u64,
    pub instruction_count: usize,
    pub basic_block_count: usize,
    pub function_count: usize,
    pub string_count: usize,
    pub import_count: usize,
    pub export_count: usize,
    pub runtime_hints: Vec<RuntimeHintReport>,
}

/// Runtime hint summary.
#[derive(Debug, Clone)]
pub struct RuntimeHintReport {
    pub name: String,
    pub confidence: u8,
    pub evidence: Vec<String>,
    pub guidance: String,
}

/// CFG-wide summary for quick triage.
#[derive(Debug, Clone)]
pub struct CfgSummaryReport {
    pub basic_block_count: usize,
    pub direct_call_count: usize,
    pub conditional_branch_count: usize,
    pub unconditional_branch_count: usize,
    pub return_count: usize,
}

/// Function relationship report.
#[derive(Debug, Clone)]
pub struct FunctionReport {
    pub name: String,
    pub address: u64,
    pub size: usize,
    pub instruction_count: usize,
    pub basic_block_estimate: usize,
    pub function_kind: String,
    pub is_import: bool,
    pub is_export: bool,
    pub calls: Vec<CallReference>,
    pub tail_calls: Vec<CallReference>,
    pub string_refs: Vec<StringReference>,
}

/// Indirect jump pattern that may represent a switch jump table.
#[derive(Debug, Clone)]
pub struct JumpTableReport {
    pub function_name: String,
    pub function_address: u64,
    pub instruction_address: u64,
    pub expression: String,
}

/// One call graph edge, grouped by caller and callee.
#[derive(Debug, Clone)]
pub struct CallGraphEdge {
    pub caller_name: String,
    pub caller_address: u64,
    pub callee_address: u64,
    pub callee_name: Option<String>,
    pub call_count: usize,
    pub call_sites: Vec<u64>,
}

/// Binary section report.
#[derive(Debug, Clone)]
pub struct SectionReport {
    pub name: String,
    pub virtual_address: u64,
    pub size: u64,
    pub raw_size: usize,
    pub is_code: bool,
    pub is_data: bool,
    pub is_readable: bool,
    pub is_writable: bool,
    pub is_executable: bool,
}

/// Direct call target reference.
#[derive(Debug, Clone)]
pub struct CallReference {
    pub instruction_address: u64,
    pub target_address: u64,
    pub target_name: Option<String>,
    pub target_kind: String,
    pub target_library: Option<String>,
    pub target_symbol: Option<String>,
}

/// String reference found inside a function.
#[derive(Debug, Clone)]
pub struct StringReference {
    pub instruction_address: u64,
    pub address: u64,
    pub symbol: String,
    pub value: String,
}

/// Extracted string report.
#[derive(Debug, Clone)]
pub struct StringReport {
    pub address: u64,
    pub symbol: String,
    pub value: String,
    pub encoding: String,
    pub length: usize,
}

/// Suspicious or high-signal string report.
#[derive(Debug, Clone)]
pub struct SuspiciousStringReport {
    pub address: u64,
    pub symbol: String,
    pub value: String,
    pub category: String,
}

/// String references grouped by function.
#[derive(Debug, Clone)]
pub struct FunctionStringIndex {
    pub function_name: String,
    pub function_address: u64,
    pub strings: Vec<StringReference>,
}

/// Cross-reference index for fast triage.
#[derive(Debug, Clone)]
pub struct XrefReport {
    pub functions: Vec<FunctionXrefReport>,
    pub imports: Vec<ImportXrefReport>,
}

/// Per-function cross-reference view.
#[derive(Debug, Clone)]
pub struct FunctionXrefReport {
    pub function_name: String,
    pub function_address: u64,
    pub calls_out: Vec<CallReference>,
    pub called_by: Vec<CallerReference>,
    pub strings: Vec<StringReference>,
}

/// Caller site for a function.
#[derive(Debug, Clone)]
pub struct CallerReference {
    pub caller_name: String,
    pub caller_address: u64,
    pub instruction_address: u64,
}

/// Import-table cross-reference entry.
#[derive(Debug, Clone)]
pub struct ImportXrefReport {
    pub library: String,
    pub function: String,
    pub address: Option<u64>,
    pub category: Option<String>,
    pub severity: Option<String>,
    pub referenced_by: Vec<ImportCallerReference>,
}

/// Caller site for an imported API.
#[derive(Debug, Clone)]
pub struct ImportCallerReference {
    pub function_name: String,
    pub function_address: u64,
    pub instruction_address: u64,
}

/// High-signal imported API classification.
#[derive(Debug, Clone)]
pub struct ApiInsightReport {
    pub library: String,
    pub function: String,
    pub category: String,
    pub severity: String,
    pub summary: String,
}

/// Behavior-focused triage summary.
#[derive(Debug, Clone)]
pub struct BehaviorReport {
    pub risk_score: u8,
    pub risk_level: String,
    pub categories: Vec<BehaviorCategoryReport>,
    pub findings: Vec<BehaviorFinding>,
}

/// Behavior category aggregate.
#[derive(Debug, Clone)]
pub struct BehaviorCategoryReport {
    pub name: String,
    pub severity: String,
    pub evidence_count: usize,
    pub evidence: Vec<String>,
}

/// One behavior finding.
#[derive(Debug, Clone)]
pub struct BehaviorFinding {
    pub category: String,
    pub severity: String,
    pub source: String,
    pub detail: String,
}

/// Import address table report.
#[derive(Debug, Clone)]
pub struct ImportAddressReport {
    pub library: String,
    pub function: String,
    pub address: u64,
    pub ordinal: Option<u16>,
}

/// Import table report.
#[derive(Debug, Clone)]
pub struct ImportReport {
    pub name: String,
    pub functions: Vec<String>,
}

/// Export table report.
#[derive(Debug, Clone)]
pub struct ExportReport {
    pub name: String,
    pub address: u64,
    pub ordinal: Option<u16>,
}

// ---------------------------------------------------------------------------
// Views
// ---------------------------------------------------------------------------

pub struct AnalysisReportPackageV {
    pub summary: AnalysisSummaryV,
    pub cfg_summary: CfgSummaryReportV,
    pub functions: Seq<FunctionReportV>,
    pub jump_tables: Seq<JumpTableReportV>,
    pub call_graph: Seq<CallGraphEdgeV>,
    pub xrefs: XrefReportV,
    pub sections: Seq<SectionReportV>,
    pub strings: Seq<StringReportV>,
    pub suspicious_strings: Seq<SuspiciousStringReportV>,
    pub strings_by_function: Seq<FunctionStringIndexV>,
    pub api_insights: Seq<ApiInsightReportV>,
    pub behavior_report: BehaviorReportV,
    pub import_addresses: Seq<ImportAddressReportV>,
    pub imports: Seq<ImportReportV>,
    pub exports: Seq<ExportReportV>,
}

impl View for AnalysisReportPackage {
    type V = AnalysisReportPackageV;

    open spec fn view(&self) -> AnalysisReportPackageV {
        AnalysisReportPackageV {
            summary: self.summary@,
            cfg_summary: self.cfg_summary@,
            functions: self.functions@.map_values(|x: FunctionReport| x@),
            jump_tables: self.jump_tables@.map_values(|x: JumpTableReport| x@),
            call_graph: self.call_graph@.map_values(|x: CallGraphEdge| x@),
            xrefs: self.xrefs@,
            sections: self.sections@.map_values(|x: SectionReport| x@),
            strings: self.strings@.map_values(|x: StringReport| x@),
            suspicious_strings: self.suspicious_strings@.map_values(|x: SuspiciousStringReport| x@),
            strings_by_function: self.strings_by_function@.map_values(|x: FunctionStringIndex| x@),
            api_insights: self.api_insights@.map_values(|x: ApiInsightReport| x@),
            behavior_report: self.behavior_report@,
            import_addresses: self.import_addresses@.map_values(|x: ImportAddressReport| x@),
            imports: self.imports@.map_values(|x: ImportReport| x@),
            exports: self.exports@.map_values(|x: ExportReport| x@),
        }
    }
}

pub struct AnalysisSummaryV {
    pub input_path: Seq<char>,
    pub format: Seq<char>,
    pub architecture: Seq<char>,
    pub entry_point: u64,
    pub instruction_count: usize,
    pub basic_block_count: usize,
    pub function_count: usize,
    pub string_count: usize,
    pub import_count: usize,
    pub export_count: usize,
    pub runtime_hints: Seq<RuntimeHintReportV>,
}

impl View for AnalysisSummary {
    type V = AnalysisSummaryV;

    open spec fn view(&self) -> AnalysisSummaryV {
        AnalysisSummaryV {
            input_path: self.input_path@,
            format: self.format@,
            architecture: self.architecture@,
            entry_point: self.entry_point,
            instruction_count: self.instruction_count,
            basic_block_count: self.basic_block_count,
            function_count: self.function_count,
            string_count: self.string_count,
            import_count: self.import_count,
            export_count: self.export_count,
            runtime_hints: self.runtime_hints@.map_values(|x: RuntimeHintReport| x@),
        }
    }
}

pub struct RuntimeHintReportV {
    pub name: Seq<char>,
    pub confidence: u8,
    pub evidence: Seq<Seq<char>>,
    pub guidance: Seq<char>,
}

impl View for RuntimeHintReport {
    type V = RuntimeHintReportV;

    open spec fn view(&self) -> RuntimeHintReportV {
        RuntimeHintReportV {
            name: self.name@,
            confidence: self.confidence,
            evidence: self.evidence@.map_values(|s: String| s@),
            guidance: self.guidance@,
        }
    }
}

pub struct CfgSummaryReportV {
    pub basic_block_count: usize,
    pub direct_call_count: usize,
    pub conditional_branch_count: usize,
    pub unconditional_branch_count: usize,
    pub return_count: usize,
}

impl View for CfgSummaryReport {
    type V = CfgSummaryReportV;

    open spec fn view(&self) -> CfgSummaryReportV {
        CfgSummaryReportV {
            basic_block_count: self.basic_block_count,
            direct_call_count: self.direct_call_count,
            conditional_branch_count: self.conditional_branch_count,
            unconditional_branch_count: self.unconditional_branch_count,
            return_count: self.return_count,
        }
    }
}

pub struct FunctionReportV {
    pub name: Seq<char>,
    pub address: u64,
    pub size: usize,
    pub instruction_count: usize,
    pub basic_block_estimate: usize,
    pub function_kind: Seq<char>,
    pub is_import: bool,
    pub is_export: bool,
    pub calls: Seq<CallReferenceV>,
    pub tail_calls: Seq<CallReferenceV>,
    pub string_refs: Seq<StringReferenceV>,
}

impl View for FunctionReport {
    type V = FunctionReportV;

    open spec fn view(&self) -> FunctionReportV {
        FunctionReportV {
            name: self.name@,
            address: self.address,
            size: self.size,
            instruction_count: self.instruction_count,
            basic_block_estimate: self.basic_block_estimate,
            function_kind: self.function_kind@,
            is_import: self.is_import,
            is_export: self.is_export,
            calls: self.calls@.map_values(|x: CallReference| x@),
            tail_calls: self.tail_calls@.map_values(|x: CallReference| x@),
            string_refs: self.string_refs@.map_values(|x: StringReference| x@),
        }
    }
}

pub struct JumpTableReportV {
    pub function_name: Seq<char>,
    pub function_address: u64,
    pub instruction_address: u64,
    pub expression: Seq<char>,
}

impl View for JumpTableReport {
    type V = JumpTableReportV;

    open spec fn view(&self) -> JumpTableReportV {
        JumpTableReportV {
            function_name: self.function_name@,
            function_address: self.function_address,
            instruction_address: self.instruction_address,
            expression: self.expression@,
        }
    }
}

pub struct CallGraphEdgeV {
    pub caller_name: Seq<char>,
    pub caller_address: u64,
    pub callee_address: u64,
    pub callee_name: Option<Seq<char>>,
    pub call_count: usize,
    pub call_sites: Seq<u64>,
}

impl View for CallGraphEdge {
    type V = CallGraphEdgeV;

    open spec fn view(&self) -> CallGraphEdgeV {
        CallGraphEdgeV {
            caller_name: self.caller_name@,
            caller_address: self.caller_address,
            callee_address: self.callee_address,
            callee_name: opt_str_v(self.callee_name),
            call_count: self.call_count,
            call_sites: self.call_sites@,
        }
    }
}

pub struct SectionReportV {
    pub name: Seq<char>,
    pub virtual_address: u64,
    pub size: u64,
    pub raw_size: usize,
    pub is_code: bool,
    pub is_data: bool,
    pub is_readable: bool,
    pub is_writable: bool,
    pub is_executable: bool,
}

impl View for SectionReport {
    type V = SectionReportV;

    open spec fn view(&self) -> SectionReportV {
        SectionReportV {
            name: self.name@,
            virtual_address: self.virtual_address,
            size: self.size,
            raw_size: self.raw_size,
            is_code: self.is_code,
            is_data: self.is_data,
            is_readable: self.is_readable,
            is_writable: self.is_writable,
            is_executable: self.is_executable,
        }
    }
}

pub struct CallReferenceV {
    pub instruction_address: u64,
    pub target_address: u64,
    pub target_name: Option<Seq<char>>,
    pub target_kind: Seq<char>,
    pub target_library: Option<Seq<char>>,
    pub target_symbol: Option<Seq<char>>,
}

impl View for CallReference {
    type V = CallReferenceV;

    open spec fn view(&self) -> CallReferenceV {
        CallReferenceV {
            instruction_address: self.instruction_address,
            target_address: self.target_address,
            target_name: opt_str_v(self.target_name),
            target_kind: self.target_kind@,
            target_library: opt_str_v(self.target_library),
            target_symbol: opt_str_v(self.target_symbol),
        }
    }
}

pub struct StringReferenceV {
    pub instruction_address: u64,
    pub address: u64,
    pub symbol: Seq<char>,
    pub value: Seq<char>,
}

impl View for StringReference {
    type V = StringReferenceV;

    open spec fn view(&self) -> StringReferenceV {
        StringReferenceV {
            instruction_address: self.instruction_address,
            address: self.address,
            symbol: self.symbol@,
            value: self.value@,
        }
    }
}

pub struct StringReportV {
    pub address: u64,
    pub symbol: Seq<char>,
    pub value: Seq<char>,
    pub encoding: Seq<char>,
    pub length: usize,
}

impl View for StringReport {
    type V = StringReportV;

    open spec fn view(&self) -> StringReportV {
        StringReportV {
            address: self.address,
            symbol: self.symbol@,
            value: self.value@,
            encoding: self.encoding@,
            length: self.length,
        }
    }
}

pub struct SuspiciousStringReportV {
    pub address: u64,
    pub symbol: Seq<char>,
    pub value: Seq<char>,
    pub category: Seq<char>,
}

impl View for SuspiciousStringReport {
    type V = SuspiciousStringReportV;

    open spec fn view(&self) -> SuspiciousStringReportV {
        SuspiciousStringReportV {
            address: self.address,
            symbol: self.symbol@,
            value: self.value@,
            category: self.category@,
        }
    }
}

pub struct FunctionStringIndexV {
    pub function_name: Seq<char>,
    pub function_address: u64,
    pub strings: Seq<StringReferenceV>,
}

impl View for FunctionStringIndex {
    type V = FunctionStringIndexV;

    open spec fn view(&self) -> FunctionStringIndexV {
        FunctionStringIndexV {
            function_name: self.function_name@,
            function_address: self.function_address,
            strings: self.strings@.map_values(|x: StringReference| x@),
        }
    }
}

pub struct XrefReportV {
    pub functions: Seq<FunctionXrefReportV>,
    pub imports: Seq<ImportXrefReportV>,
}

impl View for XrefReport {
    type V = XrefReportV;

    open spec fn view(&self) -> XrefReportV {
        XrefReportV {
            functions: self.functions@.map_values(|x: FunctionXrefReport| x@),
            imports: self.imports@.map_values(|x: ImportXrefReport| x@),
        }
    }
}

pub struct FunctionXrefReportV {
    pub function_name: Seq<char>,
    pub function_address: u64,
    pub calls_out: Seq<CallReferenceV>,
    pub called_by: Seq<CallerReferenceV>,
    pub strings: Seq<StringReferenceV>,
}

impl View for FunctionXrefReport {
    type V = FunctionXrefReportV;

    open spec fn view(&self) -> FunctionXrefReportV {
        FunctionXrefReportV {
            function_name: self.function_name@,
            function_address: self.function_address,
            calls_out: self.calls_out@.map_values(|x: CallReference| x@),
            called_by: self.called_by@.map_values(|x: CallerReference| x@),
            strings: self.strings@.map_values(|x: StringReference| x@),
        }
    }
}

pub struct CallerReferenceV {
    pub caller_name: Seq<char>,
    pub caller_address: u64,
    pub instruction_address: u64,
}

impl View for CallerReference {
    type V = CallerReferenceV;

    open spec fn view(&self) -> CallerReferenceV {
        CallerReferenceV {
            caller_name: self.caller_name@,
            caller_address: self.caller_address,
            instruction_address: self.instruction_address,
        }
    }
}

pub struct ImportXrefReportV {
    pub library: Seq<char>,
    pub function: Seq<char>,
    pub address: Option<u64>,
    pub category: Option<Seq<char>>,
    pub severity: Option<Seq<char>>,
    pub referenced_by: Seq<ImportCallerReferenceV>,
}

impl View for ImportXrefReport {
    type V = ImportXrefReportV;

    open spec fn view(&self) -> ImportXrefReportV {
        ImportXrefReportV {
            library: self.library@,
            function: self.function@,
            address: self.address,
            category: opt_str_v(self.category),
            severity: opt_str_v(self.severity),
            referenced_by: self.referenced_by@.map_values(|x: ImportCallerReference| x@),
        }
    }
}

pub struct ImportCallerReferenceV {
    pub function_name: Seq<char>,
    pub function_address: u64,
    pub instruction_address: u64,
}

impl View for ImportCallerReference {
    type V = ImportCallerReferenceV;

    open spec fn view(&self) -> ImportCallerReferenceV {
        ImportCallerReferenceV {
            function_name: self.function_name@,
            function_address: self.function_address,
            instruction_address: self.instruction_address,
        }
    }
}

pub struct ApiInsightReportV {
    pub library: Seq<char>,
    pub function: Seq<char>,
    pub category: Seq<char>,
    pub severity: Seq<char>,
    pub summary: Seq<char>,
}

impl View for ApiInsightReport {
    type V = ApiInsightReportV;

    open spec fn view(&self) -> ApiInsightReportV {
        ApiInsightReportV {
            library: self.library@,
            function: self.function@,
            category: self.category@,
            severity: self.severity@,
            summary: self.summary@,
        }
    }
}

pub struct BehaviorReportV {
    pub risk_score: u8,
    pub risk_level: Seq<char>,
    pub categories: Seq<BehaviorCategoryReportV>,
    pub findings: Seq<BehaviorFindingV>,
}

impl View for BehaviorReport {
    type V = BehaviorReportV;

    open spec fn view(&self) -> BehaviorReportV {
        BehaviorReportV {
            risk_score: self.risk_score,
            risk_level: self.risk_level@,
            categories: self.categories@.map_values(|x: BehaviorCategoryReport| x@),
            findings: self.findings@.map_values(|x: BehaviorFinding| x@),
        }
    }
}

pub struct BehaviorCategoryReportV {
    pub name: Seq<char>,
    pub severity: Seq<char>,
    pub evidence_count: usize,
    pub evidence: Seq<Seq<char>>,
}

impl View for BehaviorCategoryReport {
    type V = BehaviorCategoryReportV;

    open spec fn view(&self) -> BehaviorCategoryReportV {
        BehaviorCategoryReportV {
            name: self.name@,
            severity: self.severity@,
            evidence_count: self.evidence_count,
            evidence: self.evidence@.map_values(|s: String| s@),
        }
    }
}

pub struct BehaviorFindingV {
    pub category: Seq<char>,
    pub severity: Seq<char>,
    pub source: Seq<char>,
    pub detail: Seq<char>,
}

impl View for BehaviorFinding {
    type V = BehaviorFindingV;

    open spec fn view(&self) -> BehaviorFindingV {
        BehaviorFindingV {
            category: self.category@,
            severity: self.severity@,
            source: self.source@,
            detail: self.detail@,
        }
    }
}

pub struct ImportAddressReportV {
    pub library: Seq<char>,
    pub function: Seq<char>,
    pub address: u64,
    pub ordinal: Option<u16>,
}

impl View for ImportAddressReport {
    type V = ImportAddressReportV;

    open spec fn view(&self) -> ImportAddressReportV {
        ImportAddressReportV {
            library: self.library@,
            function: self.function@,
            address: self.address,
            ordinal: self.ordinal,
        }
    }
}

pub struct ImportReportV {
    pub name: Seq<char>,
    pub functions: Seq<Seq<char>>,
}

impl View for ImportReport {
    type V = ImportReportV;

    open spec fn view(&self) -> ImportReportV {
        ImportReportV {
            name: self.name@,
            functions: self.functions@.map_values(|s: String| s@),
        }
    }
}

pub struct ExportReportV {
    pub name: Seq<char>,
    pub address: u64,
    pub ordinal: Option<u16>,
}

impl View for ExportReport {
    type V = ExportReportV;

    open spec fn view(&self) -> ExportReportV {
        ExportReportV {
            name: self.name@,
            address: self.address,
            ordinal: self.ordinal,
        }
    }
}

// ---------------------------------------------------------------------------
// Stable sorting
// ---------------------------------------------------------------------------

/// A strict "comes before" order on report records, stated on their views.
pub trait SortKey: View + Sized {
    spec fn key_lt(a: Self::V, b: Self::V) -> bool;

    fn key_lt_exec(&self, other: &Self) -> (r: bool)
        ensures
            r == Self::key_lt(self@, other@),
    ;
}

/// Where an element goes when inserted stably: before the first element
/// from `i` on that it strictly precedes.
pub open spec fn first_after<T: SortKey>(s: Seq<T::V>, x: T::V, i: int) -> int
    decreases s.len() - i,
{
    if i < 0 || i >= s.len() || T::key_lt(x, s[i]) {
        i
    } else {
        first_after::<T>(s, x, i + 1)
    }
}

/// A stable sort: each element, in order, is inserted after every element
/// it does not strictly precede.
pub open spec fn stable_sorted<T: SortKey>(s: Seq<T::V>) -> Seq<T::V>
    decreases s.len(),
{
    if s.len() == 0 {
        s
    } else {
        let r = stable_sorted::<T>(s.drop_last());
        r.insert(first_after::<T>(r, s.last(), 0), s.last())
    }
}

proof fn lemma_stable_sorted_len<T: SortKey>(s: Seq<T::V>)
    ensures
        stable_sorted::<T>(s).len() == s.len(),
    decreases s.len(),
{
    if s.len() > 0 {
        lemma_stable_sorted_len::<T>(s.drop_last());
        lemma_first_after_bounds::<T>(stable_sorted::<T>(s.drop_last()), s.last(), 0);
    }
}

proof fn lemma_first_after_bounds<T: SortKey>(s: Seq<T::V>, x: T::V, i: int)
    requires
        0 <= i <= s.len(),
    ensures
        i <= first_after::<T>(s, x, i) <= s.len(),
    decreases s.len() - i,
{
    if i < s.len() && !T::key_lt(x, s[i]) {
        lemma_first_after_bounds::<T>(s, x, i + 1);
    }
}

/// `key_lt` is a strict order: irreflexive and transitive.
pub open spec fn strict_order<T: SortKey>() -> bool {
    &&& forall|a: T::V| !#[trigger] T::key_lt(a, a)
    &&& forall|a: T::V, b: T::V, c: T::V|
        #[trigger] T::key_lt(a, b) && #[trigger] T::key_lt(b, c) ==> T::key_lt(a, c)
}

/// No element strictly precedes one before it.
pub open spec fn is_sorted_by<T: SortKey>(s: Seq<T::V>) -> bool {
    forall|i: int, j: int| 0 <= i < j < s.len() ==> !T::key_lt(#[trigger] s[j], #[trigger] s[i])
}

pub(crate) proof fn lemma_first_after_spec<T: SortKey>(s: Seq<T::V>, x: T::V, i: int)
    requires
        0 <= i <= s.len(),
    ensures
        i <= first_after::<T>(s, x, i) <= s.len(),
        forall|j: int| i <= j < first_after::<T>(s, x, i) ==> !T::key_lt(x, #[trigger] s[j]),
        first_after::<T>(s, x, i) < s.len() ==> T::key_lt(x, s[first_after::<T>(s, x, i)]),
    decreases s.len() - i,
{
    if i < s.len() && !T::key_lt(x, s[i]) {
        lemma_first_after_spec::<T>(s, x, i + 1);
    }
}

/// Law: a stable sort keeps exactly the elements it was given.
pub proof fn lemma_stable_sorted_elements<T: SortKey>(s: Seq<T::V>)
    ensures
        stable_sorted::<T>(s).len() == s.len(),
        forall|y: T::V| #[trigger] stable_sorted::<T>(s).contains(y) == s.contains(y),
    decreases s.len(),
{
    lemma_stable_sorted_len::<T>(s);
    if s.len() > 0 {
        let pre = s.drop_last();
        let r = stable_sorted::<T>(pre);
        lemma_stable_sorted_elements::<T>(pre);
        lemma_first_after_spec::<T>(r, s.last(), 0);
        let p = first_after::<T>(r, s.last(), 0);
        let out = r.insert(p, s.last());
        assert forall|y: T::V| #[trigger] out.contains(y) == s.contains(y) by {
            if out.contains(y) {
                let k = choose|k: int| 0 <= k < out.len() && out[k] == y;
                if k < p {
                    assert(r[k] == y);
                    assert(r.contains(y));
                    let m = choose|m: int| 0 <= m < pre.len() && pre[m] == y;
                    assert(s[m] == y);
                } else if k == p {
                    assert(s[s.len() - 1] == y);
                } else {
                    assert(r[k - 1] == y);
                    assert(r.contains(y));
                    let m = choose|m: int| 0 <= m < pre.len() && pre[m] == y;
                    assert(s[m] == y);
                }
            }
            if s.contains(y) {
                let k = choose|k: int| 0 <= k < s.len() && s[k] == y;
                if k == s.len() - 1 {
                    assert(out[p] == y);
                } else {
                    assert(pre[k] == y);
                    assert(pre.contains(y));
                    assert(stable_sorted::<T>(pre).contains(y));
                    assert(r.contains(y));
                    let m = choose|m: int| 0 <= m < r.len() && r[m] == y;
                    assert(0 <= m < r.len() && r[m] == y);
                    if m < p {
                        assert(out[m] == y);
                    } else {
                        assert(out[m + 1] == y);
                    }
                }
            }
        }
    }
}

/// Law: under a strict order, a stable sort leaves no element strictly
/// before one that precedes it.
pub proof fn lemma_stable_sorted_sorted<T: SortKey>(s: Seq<T::V>)
    requires
        strict_order::<T>(),
    ensures
        is_sorted_by::<T>(stable_sorted::<T>(s)),
    decreases s.len(),
{
    if s.len() > 0 {
        let pre = s.drop_last();
        let r = stable_sorted::<T>(pre);
        let x = s.last();
        lemma_stable_sorted_sorted::<T>(pre);
        lemma_first_after_spec::<T>(r, x, 0);
        let p = first_after::<T>(r, x, 0);
        let out = r.insert(p, x);
        assert forall|i: int, j: int| 0 <= i < j < out.len() implies !T::key_lt(
            #[trigger] out[j],
            #[trigger] out[i],
        ) by {
            if j < p {
                assert(out[i] == r[i] && out[j] == r[j]);
            } else if j == p {
                assert(out[i] == r[i]);
            } else if i < p {
                assert(out[i] == r[i] && out[j] == r[j - 1]);
            } else if i == p {
                assert(out[j] == r[j - 1]);
                if T::key_lt(r[j - 1], x) {
                    if j - 1 > p {
                        assert(!T::key_lt(r[j - 1], r[p]));
                    }
                    assert(T::key_lt(x, r[p]));
                    assert(T::key_lt(r[j - 1], r[p]));
                }
            } else {
                assert(out[i] == r[i - 1] && out[j] == r[j - 1]);
            }
        }
    }
}

/// Law: a property of every two distinct positions survives a stable sort.
pub proof fn lemma_stable_sorted_pairwise<T: SortKey>(s: Seq<T::V>, p: spec_fn(T::V, T::V) -> bool)
    requires
        forall|i: int, j: int| 0 <= i < s.len() && 0 <= j < s.len() && i != j ==> #[trigger] p(s[i], s[j]),
    ensures
        forall|i: int, j: int|
            0 <= i < stable_sorted::<T>(s).len() && 0 <= j < stable_sorted::<T>(s).len() && i != j
                ==> #[trigger] p(stable_sorted::<T>(s)[i], stable_sorted::<T>(s)[j]),
    decreases s.len(),
{
    lemma_stable_sorted_len::<T>(s);
    if s.len() > 0 {
        let pre = s.drop_last();
        let r = stable_sorted::<T>(pre);
        let x = s.last();
        assert forall|i: int, j: int| 0 <= i < pre.len() && 0 <= j < pre.len() && i != j implies #[trigger] p(
            pre[i],
            pre[j],
        ) by {
            assert(pre[i] == s[i] && pre[j] == s[j]);
        }
        lemma_stable_sorted_pairwise::<T>(pre, p);
        lemma_stable_sorted_elements::<T>(pre);
        lemma_first_after_spec::<T>(r, x, 0);
        let q = first_after::<T>(r, x, 0);
        let out = r.insert(q, x);
        assert forall|i: int, j: int| 0 <= i < out.len() && 0 <= j < out.len() && i != j implies #[trigger] p(
            out[i],
            out[j],
        ) by {
            let ri = if i < q { i } else { i - 1 };
            let rj = if j < q { j } else { j - 1 };
            if i == q {
                assert(out[j] == r[rj]);
                assert(r.contains(r[rj]));
                assert(stable_sorted::<T>(pre).contains(r[rj]));
                let m = choose|m: int| 0 <= m < pre.len() && pre[m] == r[rj];
                assert(p(s[s.len() - 1], s[m]));
            } else if j == q {
                assert(out[i] == r[ri]);
                assert(r.contains(r[ri]));
                assert(stable_sorted::<T>(pre).contains(r[ri]));
                let m = choose|m: int| 0 <= m < pre.len() && pre[m] == r[ri];
                assert(p(s[m], s[s.len() - 1]));
            } else {
                assert(out[i] == r[ri] && out[j] == r[rj]);
            }
        }
    }
}

/// Sorts stably by the records' order.
pub fn sort_stable<T: SortKey>(v: Vec<T>) -> (r: Vec<T>)
    ensures
        views_of(r@) == stable_sorted::<T>(views_of(v@)),
{
    let ghost orig = views_of(v@);
    let mut rest = v;
    let mut out: Vec<T> = Vec::new();
    let ghost mut k: int = 0;
    proof {
        assert(orig.take(0) =~= seq![]);
        assert(views_of(rest@) =~= orig.skip(0));
        assert(views_of(out@) =~= seq![]);
    }
    while rest.len() > 0
        invariant
            0 <= k <= orig.len(),
            views_of(rest@) == orig.skip(k),
            views_of(out@) == stable_sorted::<T>(orig.take(k)),
        decreases rest@.len(),
    {
        let ghost rest0 = rest@;
        let x = rest.remove(0);
        let ghost r0 = views_of(out@);
        proof {
            lemma_stable_sorted_len::<T>(orig.take(k));
            assert(views_of(rest0).len() == rest0.len());
            assert(k < orig.len());
            assert(views_of(rest0)[0] == x@);
            assert(orig.skip(k)[0] == orig[k]);
            assert(orig[k] == x@);
        }
        let mut p: usize = 0;
        while p < out.len() && !x.key_lt_exec(&out[p])
            invariant
                p <= out@.len(),
                r0 == views_of(out@),
                first_after::<T>(r0, x@, 0) == first_after::<T>(r0, x@, p as int),
            decreases out@.len() - p,
        {
            p = p + 1;
        }
        proof {
            assert(orig.take(k + 1).drop_last() =~= orig.take(k));
            assert(orig.take(k + 1).last() == x@);
            assert(first_after::<T>(r0, x@, p as int) == p);
        }
        let ghost out0 = out@;
        out.insert(p, x);
        proof {
            assert(views_of(out@) =~= r0.insert(p as int, x@));
            assert(views_of(rest@).len() == orig.skip(k + 1).len());
            assert forall|j: int| 0 <= j < views_of(rest@).len() implies views_of(rest@)[j]
                == orig.skip(k + 1)[j] by {
                assert(rest@[j] == rest0[j + 1]);
                assert(views_of(rest0)[j + 1] == orig.skip(k)[j + 1]);
            }
            k = k + 1;
            assert(views_of(rest@) =~= orig.skip(k));
        }
    }
    proof {
        assert(orig.take(k) =~= orig);
    }
    out
}

// ---------------------------------------------------------------------------
// Classification of imports and strings
// ---------------------------------------------------------------------------

/// The exact names an API may have: the base name, and the `A`/`W`, `Ex`,
/// `ExA`/`ExW`, `2`, `2A`/`2W` variants.
pub open spec fn api_name_matches_spec(name: Seq<char>, candidate: Seq<char>) -> bool {
    let c = lower_seq(candidate);
    name == c || name == c + "a"@ || name == c + "w"@ || name == c + "ex"@ || name == c + "exa"@
        || name == c + "exw"@ || name == c + "2"@ || name == c + "2a"@ || name == c + "2w"@
}

pub open spec fn matches_any_spec(name: Seq<char>, candidates: Seq<Seq<char>>) -> bool {
    exists|k: int| 0 <= k < candidates.len() && api_name_matches_spec(name, #[trigger] candidates[k])
}

fn with_suffix(c: &[char], suffix: &str) -> (r: Vec<char>)
    ensures
        r@ == c@ + suffix@,
{
    let mut v: Vec<char> = Vec::new();
    crate::text::extend_slice(&mut v, c);
    extend_chars(&mut v, suffix);
    v
}

/// Whether a lower-cased name is an API name or one of its variants.
pub fn api_name_matches(name: &[char], candidate: &str) -> (r: bool)
    ensures
        r == api_name_matches_spec(name@, candidate@),
{
    let c = lower_chars(&chars_of(candidate));
    eq_chars(name, &c) || eq_chars(name, &with_suffix(&c, "a")) || eq_chars(
        name,
        &with_suffix(&c, "w"),
    ) || eq_chars(name, &with_suffix(&c, "ex")) || eq_chars(name, &with_suffix(&c, "exa"))
        || eq_chars(name, &with_suffix(&c, "exw")) || eq_chars(name, &with_suffix(&c, "2"))
        || eq_chars(name, &with_suffix(&c, "2a")) || eq_chars(name, &with_suffix(&c, "2w"))
}

/// Whether a lower-cased name matches any of the API names.
pub fn matches_any(name: &[char], prefixes: &Vec<&'static str>) -> (r: bool)
    ensures
        r == matches_any_spec(name@, prefixes@.map_values(|p: &str| p@)),
{
    let ghost cs = prefixes@.map_values(|p: &str| p@);
    let mut k: usize = 0;
    while k < prefixes.len()
        invariant
            k <= prefixes@.len(),
            cs == prefixes@.map_values(|p: &str| p@),
            forall|q: int| 0 <= q < k ==> !api_name_matches_spec(name@, #[trigger] cs[q]),
        decreases prefixes@.len() - k,
    {
        if api_name_matches(name, prefixes[k]) {
            assert(api_name_matches_spec(name@, cs[k as int]));
            return true;
        }
        k = k + 1;
    }
    false
}

/// The API names of each behavior class, lower-case, before any suffix.
pub open spec fn process_injection_apis() -> Seq<Seq<char>> {
    seq![
        "createremotethread"@,
        "ntcreatethreadex"@,
        "writeprocessmemory"@,
        "readprocessmemory"@,
        "virtualallocex"@,
        "openprocess"@,
        "setthreadcontext"@,
        "queueuserapc"@,
    ]
}

pub open spec fn network_apis() -> Seq<Seq<char>> {
    seq![
        "internetopen"@,
        "internetconnect"@,
        "internetopenurl"@,
        "httpopenrequest"@,
        "httpsendrequest"@,
        "winhttpopen"@,
        "winhttpconnect"@,
        "winhttpsendrequest"@,
        "wsastartup"@,
        "connect"@,
        "send"@,
        "recv"@,
        "urldownloadtofile"@,
    ]
}

pub open spec fn registry_apis() -> Seq<Seq<char>> {
    seq![
        "regopenkey"@,
        "regcreatekey"@,
        "regsetvalue"@,
        "regqueryvalue"@,
        "regdeletekey"@,
        "regdeletevalue"@,
    ]
}

pub open spec fn process_execution_apis() -> Seq<Seq<char>> {
    seq![
        "createprocess"@,
        "shellexecute"@,
        "winexec"@,
        "system"@,
        "terminateprocess"@,
    ]
}

pub open spec fn filesystem_apis() -> Seq<Seq<char>> {
    seq![
        "createfile"@,
        "readfile"@,
        "writefile"@,
        "deletefile"@,
        "movefile"@,
        "copyfile"@,
        "findfirstfile"@,
        "findnextfile"@,
        "getfileattributes"@,
        "setfileattributes"@,
    ]
}

pub open spec fn memory_apis() -> Seq<Seq<char>> {
    seq![
        "virtualalloc"@,
        "virtualprotect"@,
        "heapalloc"@,
        "rtlmovememory"@,
        "rtlcopymemory"@,
    ]
}

pub open spec fn dynamic_loading_apis() -> Seq<Seq<char>> {
    seq![
        "loadlibrary"@,
        "getprocaddress"@,
        "ldrloaddll"@,
    ]
}

pub open spec fn anti_debug_apis() -> Seq<Seq<char>> {
    seq![
        "isdebuggerpresent"@,
        "checkremotedebuggerpresent"@,
        "outputdebugstring"@,
        "ntqueryinformationprocess"@,
    ]
}

pub open spec fn crypto_apis() -> Seq<Seq<char>> {
    seq![
        "cryptacquirecontext"@,
        "cryptprotectdata"@,
        "cryptdecrypt"@,
        "cryptencrypt"@,
        "bcrypt"@,
        "openssl"@,
    ]
}

pub open spec fn persistence_apis() -> Seq<Seq<char>> {
    seq![
        "createservice"@,
        "openservice"@,
        "startservice"@,
        "changeserviceconfig"@,
        "schtasks"@,
    ]
}

/// The behavior class, severity and summary of an imported API, by its
/// lower-cased name; the first class that lists it wins.
pub open spec fn api_class(name: Seq<char>) -> Option<(Seq<char>, Seq<char>, Seq<char>)> {
    if matches_any_spec(name, process_injection_apis()) {
        Some(("process_injection"@, "high"@, "process memory/thread manipulation API"@))
    } else if matches_any_spec(name, network_apis()) {
        Some(("network"@, "medium"@, "network communication API"@))
    } else if matches_any_spec(name, registry_apis()) {
        Some(("registry"@, "medium"@, "Windows registry access API"@))
    } else if matches_any_spec(name, process_execution_apis()) {
        Some(("process_execution"@, "medium"@, "process execution/control API"@))
    } else if matches_any_spec(name, filesystem_apis()) {
        Some(("filesystem"@, "medium"@, "file access or filesystem API"@))
    } else if matches_any_spec(name, memory_apis()) {
        Some(("memory"@, "medium"@, "memory allocation/protection API"@))
    } else if matches_any_spec(name, dynamic_loading_apis()) {
        Some(("dynamic_loading"@, "medium"@, "runtime library loading or symbol lookup API"@))
    } else if matches_any_spec(name, anti_debug_apis()) {
        Some(("anti_debug"@, "medium"@, "debugger detection API"@))
    } else if matches_any_spec(name, crypto_apis()) {
        Some(("crypto"@, "medium"@, "cryptography or protected-data API"@))
    } else if matches_any_spec(name, persistence_apis()) {
        Some(("persistence"@, "high"@, "service or scheduled-task persistence API"@))
    } else {
        None
    }
}

/// Law: an API's class does not depend on the case of its name: two names
/// equal but for ASCII case, such as a name and its upper-cased form, get the
/// same class, severity and summary.
pub proof fn lemma_classify_api_ignores_case(a: Seq<char>, b: Seq<char>)
    requires
        eq_ignore_case(a, b),
    ensures
        api_class(lower_seq(a)) == api_class(lower_seq(b)),
        api_class(lower_seq(upper_seq(a))) == api_class(lower_seq(a)),
{
    lemma_lower_of_upper(a);
}

/// The behavior class, severity and summary of an imported API.
pub fn classify_api(function: &str) -> (r: Option<(&'static str, &'static str, &'static str)>)
    ensures
        match r {
            Some((c, s, m)) => api_class(lower_seq(function@)) == Some((c@, s@, m@)),
            None => api_class(lower_seq(function@)) is None,
        },
{
    let name = lower_chars(&chars_of(function));
    let process_injection: Vec<&'static str> = vec!["createremotethread", "ntcreatethreadex", "writeprocessmemory", "readprocessmemory", "virtualallocex", "openprocess", "setthreadcontext", "queueuserapc"];
    proof {
        assert(process_injection@.map_values(|p: &str| p@) =~= process_injection_apis());
    }
    let network: Vec<&'static str> = vec!["internetopen", "internetconnect", "internetopenurl", "httpopenrequest", "httpsendrequest", "winhttpopen", "winhttpconnect", "winhttpsendrequest", "wsastartup", "connect", "send", "recv", "urldownloadtofile"];
    proof {
        assert(network@.map_values(|p: &str| p@) =~= network_apis());
    }
    let registry: Vec<&'static str> = vec!["regopenkey", "regcreatekey", "regsetvalue", "regqueryvalue", "regdeletekey", "regdeletevalue"];
    proof {
        assert(registry@.map_values(|p: &str| p@) =~= registry_apis());
    }
    let process_execution: Vec<&'static str> = vec!["createprocess", "shellexecute", "winexec", "system", "terminateprocess"];
    proof {
        assert(process_execution@.map_values(|p: &str| p@) =~= process_execution_apis());
    }
    let filesystem: Vec<&'static str> = vec!["createfile", "readfile", "writefile", "deletefile", "movefile", "copyfile", "findfirstfile", "findnextfile", "getfileattributes", "setfileattributes"];
    proof {
        assert(filesystem@.map_values(|p: &str| p@) =~= filesystem_apis());
    }
    let memory: Vec<&'static str> = vec!["virtualalloc", "virtualprotect", "heapalloc", "rtlmovememory", "rtlcopymemory"];
    proof {
        assert(memory@.map_values(|p: &str| p@) =~= memory_apis());
    }
    let dynamic_loading: Vec<&'static str> = vec!["loadlibrary", "getprocaddress", "ldrloaddll"];
    proof {
        assert(dynamic_loading@.map_values(|p: &str| p@) =~= dynamic_loading_apis());
    }
    let anti_debug: Vec<&'static str> = vec!["isdebuggerpresent", "checkremotedebuggerpresent", "outputdebugstring", "ntqueryinformationprocess"];
    proof {
        assert(anti_debug@.map_values(|p: &str| p@) =~= anti_debug_apis());
    }
    let crypto: Vec<&'static str> = vec!["cryptacquirecontext", "cryptprotectdata", "cryptdecrypt", "cryptencrypt", "bcrypt", "openssl"];
    proof {
        assert(crypto@.map_values(|p: &str| p@) =~= crypto_apis());
    }
    let persistence: Vec<&'static str> = vec!["createservice", "openservice", "startservice", "changeserviceconfig", "schtasks"];
    proof {
        assert(persistence@.map_values(|p: &str| p@) =~= persistence_apis());
    }
    if matches_any(&name, &process_injection) {
        Some(("process_injection", "high", "process memory/thread manipulation API"))
    } else if matches_any(&name, &network) {
        Some(("network", "medium", "network communication API"))
    } else if matches_any(&name, &registry) {
        Some(("registry", "medium", "Windows registry access API"))
    } else if matches_any(&name, &process_execution) {
        Some(("process_execution", "medium", "process execution/control API"))
    } else if matches_any(&name, &filesystem) {
        Some(("filesystem", "medium", "file access or filesystem API"))
    } else if matches_any(&name, &memory) {
        Some(("memory", "medium", "memory allocation/protection API"))
    } else if matches_any(&name, &dynamic_loading) {
        Some(("dynamic_loading", "medium", "runtime library loading or symbol lookup API"))
    } else if matches_any(&name, &anti_debug) {
        Some(("anti_debug", "medium", "debugger detection API"))
    } else if matches_any(&name, &crypto) {
        Some(("crypto", "medium", "cryptography or protected-data API"))
    } else if matches_any(&name, &persistence) {
        Some(("persistence", "high", "service or scheduled-task persistence API"))
    } else {
        None
    }
}

/// The category of a high-signal string: URLs, shell commands, credential
/// hints, and platform indicators (module names, registry paths).
pub open spec fn suspicious_category(value: Seq<char>) -> Option<Seq<char>> {
    let l = lower_seq(value);
    if starts_with(l, "http://"@) || starts_with(l, "https://"@) {
        Some("url"@)
    } else if contains_seq(l, "powershell"@) || contains_seq(l, "cmd.exe"@) || contains_seq(
        l,
        "/bin/sh"@,
    ) || contains_seq(l, "curl "@) || contains_seq(l, "wget "@) {
        Some("command"@)
    } else if contains_seq(l, "password"@) || contains_seq(l, "passwd"@) || contains_seq(
        l,
        "token"@,
    ) || contains_seq(l, "apikey"@) || contains_seq(l, "api_key"@) || contains_seq(l, "secret"@) {
        Some("credential_hint"@)
    } else if ends_with(l, ".dll"@) || ends_with(l, ".exe"@) || ends_with(l, ".sys"@)
        || contains_seq(l, "\\software\\"@) {
        Some("platform_indicator"@)
    } else {
        None
    }
}

/// The category of a high-signal string.
pub fn suspicious_string_category(value: &str) -> (r: Option<&'static str>)
    ensures
        match r {
            Some(c) => suspicious_category(value@) == Some(c@),
            None => suspicious_category(value@) is None,
        },
{
    let l = lower_chars(&chars_of(value));
    if starts_with_exec(&l, "http://") || starts_with_exec(&l, "https://") {
        Some("url")
    } else if contains_exec(&l, "powershell") || contains_exec(&l, "cmd.exe") || contains_exec(
        &l,
        "/bin/sh",
    ) || contains_exec(&l, "curl ") || contains_exec(&l, "wget ") {
        Some("command")
    } else if contains_exec(&l, "password") || contains_exec(&l, "passwd") || contains_exec(
        &l,
        "token",
    ) || contains_exec(&l, "apikey") || contains_exec(&l, "api_key") || contains_exec(
        &l,
        "secret",
    ) {
        Some("credential_hint")
    } else if ends_with_exec(&l, ".dll") || ends_with_exec(&l, ".exe") || ends_with_exec(&l, ".sys")
        || contains_exec(&l, "\\software\\") {
        Some("platform_indicator")
    } else {
        None
    }
}

/// The behavior category and severity a string category stands for.
pub open spec fn string_behavior(category: Seq<char>) -> (Seq<char>, Seq<char>) {
    if category == "url"@ {
        ("network"@, "medium"@)
    } else if category == "command"@ {
        ("process_execution"@, "medium"@)
    } else if category == "credential_hint"@ {
        ("credential_access"@, "medium"@)
    } else if category == "platform_indicator"@ {
        ("filesystem"@, "low"@)
    } else {
        ("string_indicator"@, "low"@)
    }
}

pub fn behavior_from_string_category(category: &str) -> (r: (&'static str, &'static str))
    ensures
        (r.0@, r.1@) == string_behavior(category@),
{
    let c = chars_of(category);
    if eq_str(&c, "url") {
        ("network", "medium")
    } else if eq_str(&c, "command") {
        ("process_execution", "medium")
    } else if eq_str(&c, "credential_hint") {
        ("credential_access", "medium")
    } else if eq_str(&c, "platform_indicator") {
        ("filesystem", "low")
    } else {
        ("string_indicator", "low")
    }
}

/// The rank of a severity: high 3, medium 2, low 1, anything else 0.
pub open spec fn severity_rank_spec(s: Seq<char>) -> u8 {
    if s == "high"@ {
        3
    } else if s == "medium"@ {
        2
    } else if s == "low"@ {
        1
    } else {
        0
    }
}

pub fn severity_rank(severity: &str) -> (r: u8)
    ensures
        r == severity_rank_spec(severity@),
{
    let s = chars_of(severity);
    if eq_str(&s, "high") {
        3
    } else if eq_str(&s, "medium") {
        2
    } else if eq_str(&s, "low") {
        1
    } else {
        0
    }
}

/// The risk level of a score: high from 70, medium from 25, low from 1.
pub open spec fn risk_level_spec(score: u8) -> Seq<char> {
    if 70 <= score <= 100 {
        "high"@
    } else if 25 <= score <= 69 {
        "medium"@
    } else if 1 <= score <= 24 {
        "low"@
    } else {
        "none"@
    }
}

pub fn risk_level(score: u8) -> (r: &'static str)
    ensures
        r@ == risk_level_spec(score),
{
    if 70 <= score && score <= 100 {
        "high"
    } else if 25 <= score && score <= 69 {
        "medium"
    } else if 1 <= score && score <= 24 {
        "low"
    } else {
        "none"
    }
}

/// `str_` and the address in upper-case hexadecimal.
pub open spec fn string_symbol_spec(address: u64) -> Seq<char> {
    "str_"@ + hex_text(address as nat, true)
}

pub fn string_symbol(address: u64) -> (r: String)
    ensures
        r@ == string_symbol_spec(address),
{
    let mut v: Vec<char> = Vec::new();
    extend_chars(&mut v, "str_");
    push_hex(&mut v, address, true);
    string_of(&v)
}

// ---------------------------------------------------------------------------
// Lookup maps
// ---------------------------------------------------------------------------

/// Function names by address (a later function wins).
pub open spec fn names_map(fs: Seq<FunctionInfo>) -> Map<u64, Seq<char>>
    decreases fs.len(),
{
    if fs.len() == 0 {
        Map::empty()
    } else {
        names_map(fs.drop_last()).insert(fs.last().address, fs.last().name@)
    }
}

/// (library, function) of each import-table address (a later entry wins).
pub open spec fn import_map(imps: Seq<ImportAddressInfo>) -> Map<u64, (Seq<char>, Seq<char>)>
    decreases imps.len(),
{
    if imps.len() == 0 {
        Map::empty()
    } else {
        import_map(imps.drop_last()).insert(
            imps.last().address,
            (imps.last().library@, imps.last().function@),
        )
    }
}

/// String values by address (a later string wins).
pub open spec fn string_map(ss: Seq<StringInfo>) -> Map<u64, Seq<char>>
    decreases ss.len(),
{
    if ss.len() == 0 {
        Map::empty()
    } else {
        string_map(ss.drop_last()).insert(ss.last().address, ss.last().value@)
    }
}

pub open spec fn import_index_ok(m: Map<u64, usize>, imps: Seq<ImportAddressInfo>) -> bool {
    &&& forall|a: u64| #[trigger] m.contains_key(a) == import_map(imps).contains_key(a)
    &&& forall|a: u64|
        #[trigger] m.contains_key(a) ==> m[a] < imps.len() && (
            imps[m[a] as int].library@,
            imps[m[a] as int].function@,
        ) == import_map(imps)[a]
}

pub open spec fn string_index_ok(m: Map<u64, usize>, ss: Seq<StringInfo>) -> bool {
    &&& forall|a: u64| #[trigger] m.contains_key(a) == string_map(ss).contains_key(a)
    &&& forall|a: u64|
        #[trigger] m.contains_key(a) ==> m[a] < ss.len() && ss[m[a] as int].value@ == string_map(
            ss,
        )[a]
}

/// Function names by address.
pub fn build_function_name_map(functions: &[FunctionInfo]) -> (r: HashMap<u64, String>)
    ensures
        names_view(r@) == names_map(functions@),
{
    let mut m: HashMap<u64, String> = HashMap::new();
    let mut i: usize = 0;
    proof {
        assert(functions@.take(0) =~= seq![]);
        assert(names_view(m@) =~= Map::empty());
    }
    while i < functions.len()
        invariant
            i <= functions@.len(),
            names_view(m@) == names_map(functions@.take(i as int)),
        decreases functions@.len() - i,
    {
        let ghost before = m@;
        let name = functions[i].name.clone();
        m.insert(functions[i].address, name);
        proof {
            assert(functions@.take(i + 1).drop_last() =~= functions@.take(i as int));
            assert(names_view(m@) =~= names_view(before).insert(functions@[i as int].address, functions@[i as int].name@));
        }
        i = i + 1;
    }
    proof {
        assert(functions@.take(functions@.len() as int) =~= functions@);
    }
    m
}

/// The import-table entry index of each import address.
pub fn build_import_address_map(imports: &[ImportAddressInfo]) -> (r: HashMap<u64, usize>)
    ensures
        import_index_ok(r@, imports@),
{
    let mut m: HashMap<u64, usize> = HashMap::new();
    let mut i: usize = 0;
    proof {
        assert(imports@.take(0) =~= seq![]);
    }
    while i < imports.len()
        invariant
            i <= imports@.len(),
            import_index_ok(m@, imports@.take(i as int)),
            forall|a: u64| #[trigger] m@.contains_key(a) ==> m@[a] < i,
        decreases imports@.len() - i,
    {
        m.insert(imports[i].address, i);
        proof {
            let t = imports@.take(i + 1);
            assert(t.drop_last() =~= imports@.take(i as int));
            assert forall|a: u64| #[trigger] m@.contains_key(a) implies m@[a] < t.len() && (
                t[m@[a] as int].library@,
                t[m@[a] as int].function@,
            ) == import_map(t)[a] by {
                if a != imports@[i as int].address {
                    assert(t[m@[a] as int] == imports@.take(i as int)[m@[a] as int]);
                }
            }
        }
        i = i + 1;
    }
    proof {
        assert(imports@.take(imports@.len() as int) =~= imports@);
    }
    m
}

/// The index of the string at each address.
pub fn build_string_map(strings: &[StringInfo]) -> (r: HashMap<u64, usize>)
    ensures
        string_index_ok(r@, strings@),
{
    let mut m: HashMap<u64, usize> = HashMap::new();
    let mut i: usize = 0;
    proof {
        assert(strings@.take(0) =~= seq![]);
    }
    while i < strings.len()
        invariant
            i <= strings@.len(),
            string_index_ok(m@, strings@.take(i as int)),
            forall|a: u64| #[trigger] m@.contains_key(a) ==> m@[a] < i,
        decreases strings@.len() - i,
    {
        m.insert(strings[i].address, i);
        proof {
            let t = strings@.take(i + 1);
            assert(t.drop_last() =~= strings@.take(i as int));
            assert forall|a: u64| #[trigger] m@.contains_key(a) implies m@[a] < t.len()
                && t[m@[a] as int].value@ == string_map(t)[a] by {
                if a != strings@[i as int].address {
                    assert(t[m@[a] as int] == strings@.take(i as int)[m@[a] as int]);
                }
            }
        }
        i = i + 1;
    }
    proof {
        assert(strings@.take(strings@.len() as int) =~= strings@);
    }
    m
}

// ---------------------------------------------------------------------------
// Per-function references
// ---------------------------------------------------------------------------

/// The reference of a call or jump to `target`: an import's
/// `library!function` when the target is an import-table address, else the
/// function at the target, if one is known.
pub open spec fn reference_spec(
    ins: u64,
    target: u64,
    names: Map<u64, Seq<char>>,
    imps: Map<u64, (Seq<char>, Seq<char>)>,
) -> CallReferenceV {
    if imps.contains_key(target) {
        CallReferenceV {
            instruction_address: ins,
            target_address: target,
            target_name: Some(imps[target].0 + "!"@ + imps[target].1),
            target_kind: "import"@,
            target_library: Some(imps[target].0),
            target_symbol: Some(imps[target].1),
        }
    } else {
        CallReferenceV {
            instruction_address: ins,
            target_address: target,
            target_name: if names.contains_key(target) {
                Some(names[target])
            } else {
                None
            },
            target_kind: "function"@,
            target_library: None,
            target_symbol: None,
        }
    }
}

pub open spec fn call_target_spec(i: X86InstructionV) -> Option<u64> {
    if is_call_mnemonic(i.mnemonic) {
        i.near_branch_target
    } else {
        None
    }
}

pub open spec fn import_call_target_spec(i: X86InstructionV) -> Option<u64> {
    if is_call_mnemonic(i.mnemonic) {
        referenced_address(i.address, i.length, i.operands)
    } else {
        None
    }
}

pub open spec fn branch_target_spec(i: X86InstructionV) -> Option<u64> {
    if is_call_mnemonic(i.mnemonic) || is_unconditional_jump_mnemonic(i.mnemonic) {
        i.near_branch_target
    } else {
        None
    }
}

pub open spec fn import_branch_target_spec(i: X86InstructionV) -> Option<u64> {
    if is_call_mnemonic(i.mnemonic) || is_unconditional_jump_mnemonic(i.mnemonic) {
        referenced_address(i.address, i.length, i.operands)
    } else {
        None
    }
}

/// The target of a call: its direct target, else the import slot it reads.
pub open spec fn call_ref_target(i: X86InstructionV) -> Option<u64> {
    match call_target_spec(i) {
        Some(t) => Some(t),
        None => import_call_target_spec(i),
    }
}

/// The target of an unconditional jump: its direct target, else the import
/// slot it reads.
pub open spec fn tail_ref_target(i: X86InstructionV) -> Option<u64> {
    if is_unconditional_jump_mnemonic(i.mnemonic) {
        match branch_target_spec(i) {
            Some(t) => Some(t),
            None => import_branch_target_spec(i),
        }
    } else {
        None
    }
}

/// The call references of an instruction list, in order.
pub open spec fn call_refs_spec(
    s: Seq<Instruction>,
    names: Map<u64, Seq<char>>,
    imps: Map<u64, (Seq<char>, Seq<char>)>,
) -> Seq<CallReferenceV>
    decreases s.len(),
{
    if s.len() == 0 {
        seq![]
    } else {
        let r = call_refs_spec(s.drop_last(), names, imps);
        match call_ref_target(s.last()@) {
            Some(t) => r.push(reference_spec(s.last()@.address, t, names, imps)),
            None => r,
        }
    }
}

/// The tail-call references of an instruction list, in order.
pub open spec fn tail_refs_spec(
    s: Seq<Instruction>,
    names: Map<u64, Seq<char>>,
    imps: Map<u64, (Seq<char>, Seq<char>)>,
) -> Seq<CallReferenceV>
    decreases s.len(),
{
    if s.len() == 0 {
        seq![]
    } else {
        let r = tail_refs_spec(s.drop_last(), names, imps);
        match tail_ref_target(s.last()@) {
            Some(t) => r.push(reference_spec(s.last()@.address, t, names, imps)),
            None => r,
        }
    }
}

/// String references gathered from the addresses `addrs` of the instruction
/// at `ins`, each (instruction, string) pair at most once.
pub open spec fn refs_of_addresses(
    ins: u64,
    addrs: Seq<u64>,
    strings: Map<u64, Seq<char>>,
    acc: (Seq<StringReferenceV>, Set<(u64, u64)>),
) -> (Seq<StringReferenceV>, Set<(u64, u64)>)
    decreases addrs.len(),
{
    if addrs.len() == 0 {
        acc
    } else {
        let a = addrs[0];
        let next = if strings.contains_key(a) && !acc.1.contains((ins, a)) {
            (
                acc.0.push(
                    StringReferenceV {
                        instruction_address: ins,
                        address: a,
                        symbol: string_symbol_spec(a),
                        value: strings[a],
                    },
                ),
                acc.1.insert((ins, a)),
            )
        } else {
            acc
        };
        refs_of_addresses(ins, addrs.drop_first(), strings, next)
    }
}

/// String references of the instructions from index `i` on.
pub open spec fn string_refs_from(
    s: Seq<Instruction>,
    i: int,
    strings: Map<u64, Seq<char>>,
    acc: (Seq<StringReferenceV>, Set<(u64, u64)>),
) -> (Seq<StringReferenceV>, Set<(u64, u64)>)
    decreases s.len() - i,
{
    if i < 0 || i >= s.len() {
        acc
    } else {
        string_refs_from(
            s,
            i + 1,
            strings,
            refs_of_addresses(s[i]@.address, hex_values(display_text(s[i]@)), strings, acc),
        )
    }
}

/// The string references of an instruction list: every hex value in an
/// instruction's text that is a string's address, once per instruction.
pub open spec fn string_refs_spec(s: Seq<Instruction>, strings: Map<u64, Seq<char>>) -> Seq<
    StringReferenceV,
> {
    string_refs_from(s, 0, strings, (seq![], Set::empty())).0
}

pub open spec fn is_branch_or_call(i: X86InstructionV) -> bool {
    is_call_mnemonic(i.mnemonic) || is_conditional_jump_mnemonic(i.mnemonic)
        || is_unconditional_jump_mnemonic(i.mnemonic)
}

pub open spec fn count_branches(s: Seq<Instruction>) -> nat
    decreases s.len(),
{
    if s.len() == 0 {
        0
    } else {
        count_branches(s.drop_last()) + if is_branch_or_call(s.last()@) {
            1nat
        } else {
            0nat
        }
    }
}

/// One block per branch or call, plus one; none for an empty function.
pub open spec fn basic_block_estimate_spec(s: Seq<Instruction>) -> nat {
    if s.len() == 0 {
        0
    } else {
        count_branches(s) + 1
    }
}

/// A one-instruction function that is an unconditional jump is a thunk.
pub open spec fn function_kind_spec(s: Seq<Instruction>) -> Seq<char> {
    if s.len() == 1 && is_unconditional_jump_mnemonic(s[0]@.mnemonic) {
        "tailcall_thunk"@
    } else {
        "normal"@
    }
}

pub open spec fn function_report_spec(
    f: FunctionInfo,
    names: Map<u64, Seq<char>>,
    strings: Map<u64, Seq<char>>,
    imps: Map<u64, (Seq<char>, Seq<char>)>,
) -> FunctionReportV {
    FunctionReportV {
        name: f.name@,
        address: f.address,
        size: f.size,
        instruction_count: f.instructions@.len() as usize,
        basic_block_estimate: basic_block_estimate_spec(f.instructions@) as usize,
        function_kind: function_kind_spec(f.instructions@),
        is_import: f.is_import,
        is_export: f.is_export,
        calls: call_refs_spec(f.instructions@, names, imps),
        tail_calls: tail_refs_spec(f.instructions@, names, imps),
        string_refs: string_refs_spec(f.instructions@, strings),
    }
}

fn call_target(instruction: &Instruction) -> (r: Option<u64>)
    ensures
        r == call_target_spec(instruction@),
{
    match instruction {
        Instruction::X86(x) => if x.is_call() {
            x.near_branch_target
        } else {
            None
        },
    }
}

fn import_call_target(instruction: &Instruction) -> (r: Option<u64>)
    ensures
        r == import_call_target_spec(instruction@),
{
    match instruction {
        Instruction::X86(x) => if x.is_call() {
            referenced_memory_address(x.address, x.length, x.operands.as_str())
        } else {
            None
        },
    }
}

fn branch_target(instruction: &Instruction) -> (r: Option<u64>)
    ensures
        r == branch_target_spec(instruction@),
{
    match instruction {
        Instruction::X86(x) => if x.is_call() || x.is_unconditional_jump() {
            x.near_branch_target
        } else {
            None
        },
    }
}

fn import_branch_target(instruction: &Instruction) -> (r: Option<u64>)
    ensures
        r == import_branch_target_spec(instruction@),
{
    match instruction {
        Instruction::X86(x) => if x.is_call() || x.is_unconditional_jump() {
            referenced_memory_address(x.address, x.length, x.operands.as_str())
        } else {
            None
        },
    }
}

/// The addresses an instruction's text mentions.
fn referenced_addresses(instruction: &Instruction) -> (r: Vec<u64>)
    ensures
        r@ == hex_values(display_text(instruction@)),
{
    match instruction {
        Instruction::X86(x) => collect_hex_addresses(x.to_string().as_str()),
    }
}

fn reference_for_target(
    instruction_address: u64,
    target: u64,
    function_names: &HashMap<u64, String>,
    imports: &[ImportAddressInfo],
    import_addresses: &HashMap<u64, usize>,
) -> (r: CallReference)
    requires
        import_index_ok(import_addresses@, imports@),
    ensures
        r@ == reference_spec(
            instruction_address,
            target,
            names_view(function_names@),
            import_map(imports@),
        ),
{
    match import_addresses.get(&target) {
        Some(k) => {
            let import = &imports[*k];
            let mut n: Vec<char> = chars_of(import.library.as_str());
            extend_chars(&mut n, "!");
            extend_chars(&mut n, import.function.as_str());
            CallReference {
                instruction_address,
                target_address: target,
                target_name: Some(string_of(&n)),
                target_kind: String::from_str("import"),
                target_library: Some(import.library.clone()),
                target_symbol: Some(import.function.clone()),
            }
        },
        None => {
            let name = match function_names.get(&target) {
                Some(n) => Some(n.clone()),
                None => None,
            };
            CallReference {
                instruction_address,
                target_address: target,
                target_name: name,
                target_kind: String::from_str("function"),
                target_library: None,
                target_symbol: None,
            }
        },
    }
}

fn call_references(
    function: &FunctionInfo,
    function_names: &HashMap<u64, String>,
    imports: &[ImportAddressInfo],
    import_addresses: &HashMap<u64, usize>,
) -> (r: Vec<CallReference>)
    requires
        import_index_ok(import_addresses@, imports@),
    ensures
        r@.map_values(|c: CallReference| c@) == call_refs_spec(
            function.instructions@,
            names_view(function_names@),
            import_map(imports@),
        ),
{
    let ghost s = function.instructions@;
    let ghost names = names_view(function_names@);
    let ghost imps = import_map(imports@);
    let mut out: Vec<CallReference> = Vec::new();
    let mut i: usize = 0;
    proof {
        assert(s.take(0) =~= seq![]);
    }
    while i < function.instructions.len()
        invariant
            i <= s.len(),
            s == function.instructions@,
            names == names_view(function_names@),
            imps == import_map(imports@),
            import_index_ok(import_addresses@, imports@),
            out@.map_values(|c: CallReference| c@) == call_refs_spec(s.take(i as int), names, imps),
        decreases s.len() - i,
    {
        let instruction = &function.instructions[i];
        let ghost before = out@;
        proof {
            assert(s.take(i + 1).drop_last() =~= s.take(i as int));
            assert(s.take(i + 1).last() == s[i as int]);
        }
        let target = match call_target(instruction) {
            Some(t) => Some(t),
            None => import_call_target(instruction),
        };
        match target {
            Some(t) => {
                let c = reference_for_target(
                    instruction.address(),
                    t,
                    function_names,
                    imports,
                    import_addresses,
                );
                out.push(c);
                proof {
                    assert(out@.map_values(|c: CallReference| c@) =~= before.map_values(
                        |c: CallReference| c@,
                    ).push(c@));
                }
            },
            None => {},
        }
        i = i + 1;
    }
    proof {
        assert(s.take(s.len() as int) =~= s);
    }
    out
}

fn tail_call_references(
    function: &FunctionInfo,
    function_names: &HashMap<u64, String>,
    imports: &[ImportAddressInfo],
    import_addresses: &HashMap<u64, usize>,
) -> (r: Vec<CallReference>)
    requires
        import_index_ok(import_addresses@, imports@),
    ensures
        r@.map_values(|c: CallReference| c@) == tail_refs_spec(
            function.instructions@,
            names_view(function_names@),
            import_map(imports@),
        ),
{
    let ghost s = function.instructions@;
    let ghost names = names_view(function_names@);
    let ghost imps = import_map(imports@);
    let mut out: Vec<CallReference> = Vec::new();
    let mut i: usize = 0;
    proof {
        assert(s.take(0) =~= seq![]);
    }
    while i < function.instructions.len()
        invariant
            i <= s.len(),
            s == function.instructions@,
            names == names_view(function_names@),
            imps == import_map(imports@),
            import_index_ok(import_addresses@, imports@),
            out@.map_values(|c: CallReference| c@) == tail_refs_spec(s.take(i as int), names, imps),
        decreases s.len() - i,
    {
        let instruction = &function.instructions[i];
        let ghost before = out@;
        proof {
            assert(s.take(i + 1).drop_last() =~= s.take(i as int));
            assert(s.take(i + 1).last() == s[i as int]);
        }
        let target = if instruction.is_unconditional_jump() {
            match branch_target(instruction) {
                Some(t) => Some(t),
                None => import_branch_target(instruction),
            }
        } else {
            None
        };
        match target {
            Some(t) => {
                let c = reference_for_target(
                    instruction.address(),
                    t,
                    function_names,
                    imports,
                    import_addresses,
                );
                out.push(c);
                proof {
                    assert(out@.map_values(|c: CallReference| c@) =~= before.map_values(
                        |c: CallReference| c@,
                    ).push(c@));
                }
            },
            None => {},
        }
        i = i + 1;
    }
    proof {
        assert(s.take(s.len() as int) =~= s);
    }
    out
}

fn seen_contains(seen: &Vec<(u64, u64)>, p: (u64, u64)) -> (r: bool)
    ensures
        r == seen@.contains(p),
{
    let mut i: usize = 0;
    while i < seen.len()
        invariant
            i <= seen@.len(),
            forall|j: int| 0 <= j < i ==> seen@[j] != p,
        decreases seen@.len() - i,
    {
        if seen[i].0 == p.0 && seen[i].1 == p.1 {
            assert(seen@[i as int] == p);
            return true;
        }
        i = i + 1;
    }
    false
}

fn string_references(
    function: &FunctionInfo,
    strings: &[StringInfo],
    string_index: &HashMap<u64, usize>,
) -> (r: Vec<StringReference>)
    requires
        string_index_ok(string_index@, strings@),
    ensures
        r@.map_values(|x: StringReference| x@) == string_refs_spec(
            function.instructions@,
            string_map(strings@),
        ),
{
    let ghost s = function.instructions@;
    let ghost smap = string_map(strings@);
    let ghost result = string_refs_spec(s, smap);
    let mut refs: Vec<StringReference> = Vec::new();
    let mut seen: Vec<(u64, u64)> = Vec::new();
    let ghost mut seen_set: Set<(u64, u64)> = Set::empty();
    let mut i: usize = 0;
    proof {
        assert(refs@.map_values(|x: StringReference| x@) =~= seq![]);
    }
    while i < function.instructions.len()
        invariant
            i <= s.len(),
            s == function.instructions@,
            smap == string_map(strings@),
            string_index_ok(string_index@, strings@),
            forall|p: (u64, u64)| #[trigger] seen@.contains(p) == seen_set.contains(p),
            result == string_refs_from(
                s,
                i as int,
                smap,
                (refs@.map_values(|x: StringReference| x@), seen_set),
            ).0,
        decreases s.len() - i,
    {
        let instruction = &function.instructions[i];
        let ins = instruction.address();
        let addrs = referenced_addresses(instruction);
        let ghost acc0 = (refs@.map_values(|x: StringReference| x@), seen_set);
        let mut k: usize = 0;
        proof {
            assert(addrs@.skip(0) =~= addrs@);
        }
        while k < addrs.len()
            invariant
                k <= addrs@.len(),
                smap == string_map(strings@),
                string_index_ok(string_index@, strings@),
                forall|p: (u64, u64)| #[trigger] seen@.contains(p) == seen_set.contains(p),
                refs_of_addresses(ins, addrs@, smap, acc0) == refs_of_addresses(
                    ins,
                    addrs@.skip(k as int),
                    smap,
                    (refs@.map_values(|x: StringReference| x@), seen_set),
                ),
            decreases addrs@.len() - k,
        {
            let address = addrs[k];
            let ghost before = refs@;
            proof {
                assert(addrs@.skip(k as int).drop_first() =~= addrs@.skip(k + 1));
                assert(addrs@.skip(k as int)[0] == address);
            }
            match string_index.get(&address) {
                Some(idx) => {
                    if !seen_contains(&seen, (ins, address)) {
                        seen.push((ins, address));
                        let r = StringReference {
                            instruction_address: ins,
                            address,
                            symbol: string_symbol(address),
                            value: strings[*idx].value.clone(),
                        };
                        refs.push(r);
                        proof {
                            broadcast use vstd::seq_lib::lemma_seq_contains_after_push;
                            seen_set = seen_set.insert((ins, address));
                            assert(refs@.map_values(|x: StringReference| x@) =~= before.map_values(
                                |x: StringReference| x@,
                            ).push(r@));
                        }
                    }
                },
                None => {},
            }
            k = k + 1;
        }
        proof {
            assert(addrs@.skip(addrs@.len() as int) =~= seq![]);
            assert(s[i as int]@.address == ins);
        }
        i = i + 1;
    }
    refs
}

fn basic_block_estimate(function: &FunctionInfo) -> (r: usize)
    requires
        function.instructions@.len() < usize::MAX,
    ensures
        r == basic_block_estimate_spec(function.instructions@),
{
    let ghost s = function.instructions@;
    let mut count: usize = 0;
    let mut i: usize = 0;
    proof {
        assert(s.take(0) =~= seq![]);
    }
    while i < function.instructions.len()
        invariant
            i <= s.len(),
            s == function.instructions@,
            count == count_branches(s.take(i as int)),
            count <= i,
        decreases s.len() - i,
    {
        let instruction = &function.instructions[i];
        proof {
            assert(s.take(i + 1).drop_last() =~= s.take(i as int));
        }
        if instruction.is_call() || instruction.is_conditional_jump()
            || instruction.is_unconditional_jump() {
            count = count + 1;
        }
        i = i + 1;
    }
    proof {
        assert(s.take(s.len() as int) =~= s);
    }
    if function.instructions.len() == 0 {
        0
    } else {
        count + 1
    }
}

fn function_kind(function: &FunctionInfo) -> (r: String)
    ensures
        r@ == function_kind_spec(function.instructions@),
{
    if function.instructions.len() == 1 && function.instructions[0].is_unconditional_jump() {
        String::from_str("tailcall_thunk")
    } else {
        String::from_str("normal")
    }
}

fn function_report(
    function: &FunctionInfo,
    function_names: &HashMap<u64, String>,
    strings: &[StringInfo],
    string_index: &HashMap<u64, usize>,
    imports: &[ImportAddressInfo],
    import_addresses: &HashMap<u64, usize>,
) -> (r: FunctionReport)
    requires
        import_index_ok(import_addresses@, imports@),
        string_index_ok(string_index@, strings@),
        function.instructions@.len() < usize::MAX,
    ensures
        r@ == function_report_spec(
            *function,
            names_view(function_names@),
            string_map(strings@),
            import_map(imports@),
        ),
{
    let tail_calls = tail_call_references(function, function_names, imports, import_addresses);
    FunctionReport {
        name: function.name.clone(),
        address: function.address,
        size: function.size,
        instruction_count: function.instructions.len(),
        basic_block_estimate: basic_block_estimate(function),
        function_kind: function_kind(function),
        is_import: function.is_import,
        is_export: function.is_export,
        calls: call_references(function, function_names, imports, import_addresses),
        tail_calls,
        string_refs: string_references(function, strings, string_index),
    }
}

// ---------------------------------------------------------------------------
// Tables
// ---------------------------------------------------------------------------

pub open spec fn section_report_spec(s: SectionInfo) -> SectionReportV {
    SectionReportV {
        name: s.name@,
        virtual_address: s.virtual_address,
        size: s.size,
        raw_size: s.raw_data@.len() as usize,
        is_code: s.characteristics.is_code,
        is_data: s.characteristics.is_data,
        is_readable: s.characteristics.is_readable,
        is_writable: s.characteristics.is_writable,
        is_executable: s.characteristics.is_executable,
    }
}

pub open spec fn string_report_spec(s: StringInfo) -> StringReportV {
    StringReportV {
        address: s.address,
        symbol: string_symbol_spec(s.address),
        value: s.value@,
        encoding: encoding_name(s.encoding),
        length: s.length,
    }
}

pub open spec fn suspicious_report_spec(s: StringInfo) -> Option<SuspiciousStringReportV> {
    match suspicious_category(s.value@) {
        Some(c) => Some(
            SuspiciousStringReportV {
                address: s.address,
                symbol: string_symbol_spec(s.address),
                value: s.value@,
                category: c,
            },
        ),
        None => None,
    }
}

pub open spec fn suspicious_reports_spec(ss: Seq<StringInfo>) -> Seq<SuspiciousStringReportV>
    decreases ss.len(),
{
    if ss.len() == 0 {
        seq![]
    } else {
        let r = suspicious_reports_spec(ss.drop_last());
        match suspicious_report_spec(ss.last()) {
            Some(x) => r.push(x),
            None => r,
        }
    }
}

pub open spec fn import_address_report_spec(i: ImportAddressInfo) -> ImportAddressReportV {
    ImportAddressReportV {
        library: i.library@,
        function: i.function@,
        address: i.address,
        ordinal: i.ordinal,
    }
}

pub fn section_report(section: &SectionInfo) -> (r: SectionReport)
    ensures
        r@ == section_report_spec(*section),
{
    SectionReport {
        name: section.name.clone(),
        virtual_address: section.virtual_address,
        size: section.size,
        raw_size: section.raw_data.len(),
        is_code: section.characteristics.is_code,
        is_data: section.characteristics.is_data,
        is_readable: section.characteristics.is_readable,
        is_writable: section.characteristics.is_writable,
        is_executable: section.characteristics.is_executable,
    }
}

pub fn string_report(string: &StringInfo) -> (r: StringReport)
    ensures
        r@ == string_report_spec(*string),
{
    StringReport {
        address: string.address,
        symbol: string_symbol(string.address),
        value: string.value.clone(),
        encoding: String::from_str(string.encoding.name()),
        length: string.length,
    }
}

pub fn suspicious_string_report(string: &StringInfo) -> (r: Option<SuspiciousStringReport>)
    ensures
        match r {
            Some(x) => suspicious_report_spec(*string) == Some(x@),
            None => suspicious_report_spec(*string) is None,
        },
{
    let category = match suspicious_string_category(string.value.as_str()) {
        Some(c) => c,
        None => {
            return None;
        },
    };
    Some(
        SuspiciousStringReport {
            address: string.address,
            symbol: string_symbol(string.address),
            value: string.value.clone(),
            category: String::from_str(category),
        },
    )
}

pub fn import_address_report(import: &ImportAddressInfo) -> (r: ImportAddressReport)
    ensures
        r@ == import_address_report_spec(*import),
{
    ImportAddressReport {
        library: import.library.clone(),
        function: import.function.clone(),
        address: import.address,
        ordinal: import.ordinal,
    }
}

// ---------------------------------------------------------------------------
// Whole-program summaries
// ---------------------------------------------------------------------------

pub open spec fn count_where(s: Seq<Instruction>, p: spec_fn(X86InstructionV) -> bool) -> nat
    decreases s.len(),
{
    if s.len() == 0 {
        0
    } else {
        count_where(s.drop_last(), p) + if p(s.last()@) {
            1nat
        } else {
            0nat
        }
    }
}

pub open spec fn count_all(fs: Seq<FunctionInfo>, p: spec_fn(X86InstructionV) -> bool) -> nat
    decreases fs.len(),
{
    if fs.len() == 0 {
        0
    } else {
        count_all(fs.drop_last(), p) + count_where(fs.last().instructions@, p)
    }
}

pub open spec fn total_instructions(fs: Seq<FunctionInfo>) -> nat
    decreases fs.len(),
{
    if fs.len() == 0 {
        0
    } else {
        total_instructions(fs.drop_last()) + fs.last().instructions@.len()
    }
}

/// A filtered count never exceeds the number of instructions.
pub proof fn lemma_count_where_le(s: Seq<Instruction>, p: spec_fn(X86InstructionV) -> bool)
    ensures
        count_where(s, p) <= s.len(),
    decreases s.len(),
{
    if s.len() > 0 {
        lemma_count_where_le(s.drop_last(), p);
    }
}

/// A filtered count over all functions never exceeds their instruction total.
pub proof fn lemma_count_all_le(fs: Seq<FunctionInfo>, p: spec_fn(X86InstructionV) -> bool)
    ensures
        count_all(fs, p) <= total_instructions(fs),
    decreases fs.len(),
{
    if fs.len() > 0 {
        lemma_count_all_le(fs.drop_last(), p);
        lemma_count_where_le(fs.last().instructions@, p);
    }
}

/// The functions of a prefix hold no more instructions than all of them.
pub proof fn lemma_total_instructions_prefix(fs: Seq<FunctionInfo>, k: int)
    requires
        0 <= k <= fs.len(),
    ensures
        total_instructions(fs.take(k)) <= total_instructions(fs),
    decreases fs.len() - k,
{
    if k < fs.len() {
        lemma_total_instructions_prefix(fs, k + 1);
        assert(fs.take(k + 1).drop_last() =~= fs.take(k));
    } else {
        assert(fs.take(k) =~= fs);
    }
}

pub open spec fn cfg_summary_spec(basic_block_count: usize, fs: Seq<FunctionInfo>) -> CfgSummaryReportV {
    CfgSummaryReportV {
        basic_block_count,
        direct_call_count: count_all(fs, |i: X86InstructionV| is_call_mnemonic(i.mnemonic)) as usize,
        conditional_branch_count: count_all(
            fs,
            |i: X86InstructionV| is_conditional_jump_mnemonic(i.mnemonic),
        ) as usize,
        unconditional_branch_count: count_all(
            fs,
            |i: X86InstructionV| is_unconditional_jump_mnemonic(i.mnemonic),
        ) as usize,
        return_count: count_all(fs, |i: X86InstructionV| is_return_mnemonic(i.mnemonic)) as usize,
    }
}

/// Counts of calls, branches and returns over every function.
pub fn cfg_summary(basic_block_count: usize, functions: &[FunctionInfo]) -> (r: CfgSummaryReport)
    requires
        total_instructions(functions@) <= usize::MAX,
    ensures
        r@ == cfg_summary_spec(basic_block_count, functions@),
{
    let ghost fs = functions@;
    let ghost pc = |i: X86InstructionV| is_call_mnemonic(i.mnemonic);
    let ghost pj = |i: X86InstructionV| is_conditional_jump_mnemonic(i.mnemonic);
    let ghost pu = |i: X86InstructionV| is_unconditional_jump_mnemonic(i.mnemonic);
    let ghost pr = |i: X86InstructionV| is_return_mnemonic(i.mnemonic);
    let mut calls: usize = 0;
    let mut conds: usize = 0;
    let mut jumps: usize = 0;
    let mut rets: usize = 0;
    let mut f: usize = 0;
    proof {
        assert(fs.take(0) =~= seq![]);
    }
    while f < functions.len()
        invariant
            f <= fs.len(),
            fs == functions@,
            total_instructions(fs) <= usize::MAX,
            calls == count_all(fs.take(f as int), pc),
            conds == count_all(fs.take(f as int), pj),
            jumps == count_all(fs.take(f as int), pu),
            rets == count_all(fs.take(f as int), pr),
            pc == (|i: X86InstructionV| is_call_mnemonic(i.mnemonic)),
            pj == (|i: X86InstructionV| is_conditional_jump_mnemonic(i.mnemonic)),
            pu == (|i: X86InstructionV| is_unconditional_jump_mnemonic(i.mnemonic)),
            pr == (|i: X86InstructionV| is_return_mnemonic(i.mnemonic)),
        decreases fs.len() - f,
    {
        let s = &functions[f].instructions;
        let ghost base = fs.take(f as int);
        proof {
            assert(fs.take(f + 1).drop_last() =~= base);
            lemma_total_instructions_prefix(fs, f + 1);
            lemma_count_all_le(base, pc);
            lemma_count_all_le(base, pj);
            lemma_count_all_le(base, pu);
            lemma_count_all_le(base, pr);
        }
        let mut i: usize = 0;
        proof {
            assert(s@.take(0) =~= seq![]);
        }
        while i < s.len()
            invariant
                i <= s@.len(),
                total_instructions(base) + s@.len() <= usize::MAX,
                calls == count_all(base, pc) + count_where(s@.take(i as int), pc),
                conds == count_all(base, pj) + count_where(s@.take(i as int), pj),
                jumps == count_all(base, pu) + count_where(s@.take(i as int), pu),
                rets == count_all(base, pr) + count_where(s@.take(i as int), pr),
                count_all(base, pc) <= total_instructions(base),
                count_all(base, pj) <= total_instructions(base),
                count_all(base, pu) <= total_instructions(base),
                count_all(base, pr) <= total_instructions(base),
                pc == (|i: X86InstructionV| is_call_mnemonic(i.mnemonic)),
                pj == (|i: X86InstructionV| is_conditional_jump_mnemonic(i.mnemonic)),
                pu == (|i: X86InstructionV| is_unconditional_jump_mnemonic(i.mnemonic)),
                pr == (|i: X86InstructionV| is_return_mnemonic(i.mnemonic)),
            decreases s@.len() - i,
        {
            proof {
                assert(s@.take(i + 1).drop_last() =~= s@.take(i as int));
                lemma_count_where_le(s@.take(i as int), pc);
                lemma_count_where_le(s@.take(i as int), pj);
                lemma_count_where_le(s@.take(i as int), pu);
                lemma_count_where_le(s@.take(i as int), pr);
            }
            let instruction = &s[i];
            if instruction.is_call() {
                calls = calls + 1;
            }
            if instruction.is_conditional_jump() {
                conds = conds + 1;
            }
            if instruction.is_unconditional_jump() {
                jumps = jumps + 1;
            }
            if instruction.is_return() {
                rets = rets + 1;
            }
            i = i + 1;
        }
        proof {
            assert(s@.take(s@.len() as int) =~= s@);
        }
        f = f + 1;
    }
    proof {
        assert(fs.take(fs.len() as int) =~= fs);
    }
    CfgSummaryReport {
        basic_block_count,
        direct_call_count: calls,
        conditional_branch_count: conds,
        unconditional_branch_count: jumps,
        return_count: rets,
    }
}

/// An indirect jump through a scaled index, such as `[rax*8+4000h]`.
pub open spec fn looks_like_jump_table_spec(ops: Seq<char>) -> bool {
    ops.contains('[') && ops.contains(']') && ops.contains('*')
}

pub fn looks_like_jump_table_expression(operands: &str) -> (r: bool)
    ensures
        r == looks_like_jump_table_spec(operands@),
{
    let o = chars_of(operands);
    has_char_exec(&o, '[') && has_char_exec(&o, ']') && has_char_exec(&o, '*')
}

pub open spec fn report_names(rs: Seq<FunctionReportV>) -> Map<u64, Seq<char>>
    decreases rs.len(),
{
    if rs.len() == 0 {
        Map::empty()
    } else {
        report_names(rs.drop_last()).insert(rs.last().address, rs.last().name)
    }
}

pub open spec fn is_jump_table_candidate(i: X86InstructionV) -> bool {
    is_unconditional_jump_mnemonic(i.mnemonic) && i.near_branch_target is None
        && looks_like_jump_table_spec(i.operands)
}

pub open spec fn jump_tables_in(
    f: FunctionInfo,
    s: Seq<Instruction>,
    names: Map<u64, Seq<char>>,
) -> Seq<JumpTableReportV>
    decreases s.len(),
{
    if s.len() == 0 {
        seq![]
    } else {
        let r = jump_tables_in(f, s.drop_last(), names);
        if is_jump_table_candidate(s.last()@) {
            r.push(
                JumpTableReportV {
                    function_name: if names.contains_key(f.address) {
                        names[f.address]
                    } else {
                        f.name@
                    },
                    function_address: f.address,
                    instruction_address: s.last()@.address,
                    expression: s.last()@.operands,
                },
            )
        } else {
            r
        }
    }
}

pub open spec fn jump_tables_spec(fs: Seq<FunctionInfo>, names: Map<u64, Seq<char>>) -> Seq<
    JumpTableReportV,
>
    decreases fs.len(),
{
    if fs.len() == 0 {
        seq![]
    } else {
        jump_tables_spec(fs.drop_last(), names) + jump_tables_in(
            fs.last(),
            fs.last().instructions@,
            names,
        )
    }
}

/// Indirect jumps through scaled indexes, per function.
pub fn jump_table_reports(function_reports: &[FunctionReport], functions: &[FunctionInfo]) -> (r:
    Vec<JumpTableReport>)
    ensures
        r@.map_values(|x: JumpTableReport| x@) == jump_tables_spec(
            functions@,
            report_names(function_reports@.map_values(|x: FunctionReport| x@)),
        ),
{
    let ghost rv = function_reports@.map_values(|x: FunctionReport| x@);
    let mut names: HashMap<u64, String> = HashMap::new();
    let mut q: usize = 0;
    proof {
        assert(rv.take(0) =~= seq![]);
        assert(names_view(names@) =~= Map::empty());
    }
    while q < function_reports.len()
        invariant
            q <= function_reports@.len(),
            rv == function_reports@.map_values(|x: FunctionReport| x@),
            names_view(names@) == report_names(rv.take(q as int)),
        decreases function_reports@.len() - q,
    {
        let ghost before = names@;
        names.insert(function_reports[q].address, function_reports[q].name.clone());
        proof {
            assert(rv.take(q + 1).drop_last() =~= rv.take(q as int));
            assert(rv[q as int] == function_reports@[q as int]@);
            assert(names_view(names@) =~= names_view(before).insert(
                function_reports@[q as int].address,
                function_reports@[q as int].name@,
            ));
        }
        q = q + 1;
    }
    proof {
        assert(rv.take(rv.len() as int) =~= rv);
    }
    let ghost nm = names_view(names@);
    let ghost fs = functions@;
    let mut reports: Vec<JumpTableReport> = Vec::new();
    let mut f: usize = 0;
    proof {
        assert(fs.take(0) =~= seq![]);
        assert(reports@.map_values(|x: JumpTableReport| x@) =~= seq![]);
    }
    while f < functions.len()
        invariant
            f <= fs.len(),
            fs == functions@,
            nm == names_view(names@),
            reports@.map_values(|x: JumpTableReport| x@) == jump_tables_spec(fs.take(f as int), nm),
        decreases fs.len() - f,
    {
        let function = &functions[f];
        let ghost start = reports@.map_values(|x: JumpTableReport| x@);
        let ghost s = function.instructions@;
        let mut i: usize = 0;
        proof {
            assert(s.take(0) =~= seq![]);
            assert(start + jump_tables_in(*function, s.take(0), nm) =~= start);
        }
        while i < function.instructions.len()
            invariant
                i <= s.len(),
                s == function.instructions@,
                nm == names_view(names@),
                reports@.map_values(|x: JumpTableReport| x@) == start + jump_tables_in(
                    *function,
                    s.take(i as int),
                    nm,
                ),
            decreases s.len() - i,
        {
            proof {
                assert(s.take(i + 1).drop_last() =~= s.take(i as int));
                assert(s.take(i + 1).last() == s[i as int]);
            }
            match &function.instructions[i] {
                Instruction::X86(x) => {
                    if x.is_unconditional_jump() && x.near_branch_target.is_none()
                        && looks_like_jump_table_expression(x.operands.as_str()) {
                        let name = match names.get(&function.address) {
                            Some(n) => n.clone(),
                            None => function.name.clone(),
                        };
                        let ghost before = reports@;
                        let j = JumpTableReport {
                            function_name: name,
                            function_address: function.address,
                            instruction_address: x.address,
                            expression: x.operands.clone(),
                        };
                        reports.push(j);
                        proof {
                            assert(reports@.map_values(|x: JumpTableReport| x@) =~= before.map_values(
                                |x: JumpTableReport| x@,
                            ).push(j@));
                        }
                    }
                },
            }
            i = i + 1;
        }
        proof {
            assert(s.take(s.len() as int) =~= s);
            assert(fs.take(f + 1).drop_last() =~= fs.take(f as int));
        }
        f = f + 1;
    }
    proof {
        assert(fs.take(fs.len() as int) =~= fs);
    }
    reports
}

pub open spec fn strings_by_function_spec(rs: Seq<FunctionReportV>) -> Seq<FunctionStringIndexV>
    decreases rs.len(),
{
    if rs.len() == 0 {
        seq![]
    } else {
        let r = strings_by_function_spec(rs.drop_last());
        if rs.last().string_refs.len() > 0 {
            r.push(
                FunctionStringIndexV {
                    function_name: rs.last().name,
                    function_address: rs.last().address,
                    strings: rs.last().string_refs,
                },
            )
        } else {
            r
        }
    }
}

/// The string references of each function that has any.
pub fn strings_by_function(functions: &[FunctionReport]) -> (r: Vec<FunctionStringIndex>)
    ensures
        r@.map_values(|x: FunctionStringIndex| x@) == strings_by_function_spec(
            functions@.map_values(|x: FunctionReport| x@),
        ),
{
    let ghost rv = functions@.map_values(|x: FunctionReport| x@);
    let mut out: Vec<FunctionStringIndex> = Vec::new();
    let mut k: usize = 0;
    proof {
        assert(rv.take(0) =~= seq![]);
        assert(out@.map_values(|x: FunctionStringIndex| x@) =~= seq![]);
    }
    while k < functions.len()
        invariant
            k <= functions@.len(),
            rv == functions@.map_values(|x: FunctionReport| x@),
            out@.map_values(|x: FunctionStringIndex| x@) == strings_by_function_spec(rv.take(k as int)),
        decreases functions@.len() - k,
    {
        proof {
            assert(rv.take(k + 1).drop_last() =~= rv.take(k as int));
            assert(rv[k as int] == functions@[k as int]@);
        }
        let function = &functions[k];
        if function.string_refs.len() > 0 {
            let ghost before = out@;
            let x = FunctionStringIndex {
                function_name: function.name.clone(),
                function_address: function.address,
                strings: clone_string_refs(&function.string_refs),
            };
            out.push(x);
            proof {
                assert(out@.map_values(|x: FunctionStringIndex| x@) =~= before.map_values(
                    |x: FunctionStringIndex| x@,
                ).push(x@));
            }
        }
        k = k + 1;
    }
    proof {
        assert(rv.take(rv.len() as int) =~= rv);
    }
    out
}

pub(crate) fn clone_string_refs(v: &Vec<StringReference>) -> (r: Vec<StringReference>)
    ensures
        r@.map_values(|x: StringReference| x@) == v@.map_values(|x: StringReference| x@),
{
    let mut out: Vec<StringReference> = Vec::new();
    let mut i: usize = 0;
    while i < v.len()
        invariant
            i <= v@.len(),
            out@.len() == i,
            forall|j: int| 0 <= j < i ==> #[trigger] out@[j]@ == v@[j]@,
        decreases v@.len() - i,
    {
        let x = &v[i];
        out.push(
            StringReference {
                instruction_address: x.instruction_address,
                address: x.address,
                symbol: x.symbol.clone(),
                value: x.value.clone(),
            },
        );
        i = i + 1;
    }
    proof {
        assert(out@.map_values(|x: StringReference| x@) =~= v@.map_values(|x: StringReference| x@));
    }
    out
}

pub(crate) fn clone_call_refs(v: &Vec<CallReference>) -> (r: Vec<CallReference>)
    ensures
        r@.map_values(|x: CallReference| x@) == v@.map_values(|x: CallReference| x@),
{
    let mut out: Vec<CallReference> = Vec::new();
    let mut i: usize = 0;
    while i < v.len()
        invariant
            i <= v@.len(),
            out@.len() == i,
            forall|j: int| 0 <= j < i ==> #[trigger] out@[j]@ == v@[j]@,
        decreases v@.len() - i,
    {
        let x = &v[i];
        out.push(
            CallReference {
                instruction_address: x.instruction_address,
                target_address: x.target_address,
                target_name: crate::disasm::ir::clone_opt_string(&x.target_name),
                target_kind: x.target_kind.clone(),
                target_library: crate::disasm::ir::clone_opt_string(&x.target_library),
                target_symbol: crate::disasm::ir::clone_opt_string(&x.target_symbol),
            },
        );
        i = i + 1;
    }
    proof {
        assert(out@.map_values(|x: CallReference| x@) =~= v@.map_values(|x: CallReference| x@));
    }
    out
}

// ---------------------------------------------------------------------------
// Sort orders of report records
// ---------------------------------------------------------------------------

impl SortKey for CallGraphEdge {
    open spec fn key_lt(a: CallGraphEdgeV, b: CallGraphEdgeV) -> bool {
        a.caller_address < b.caller_address || (a.caller_address == b.caller_address
            && a.callee_address < b.callee_address)
    }

    fn key_lt_exec(&self, other: &Self) -> (r: bool) {
        self.caller_address < other.caller_address || (self.caller_address
            == other.caller_address && self.callee_address < other.callee_address)
    }
}

impl SortKey for CallerReference {
    open spec fn key_lt(a: CallerReferenceV, b: CallerReferenceV) -> bool {
        a.caller_address < b.caller_address || (a.caller_address == b.caller_address
            && a.instruction_address < b.instruction_address)
    }

    fn key_lt_exec(&self, other: &Self) -> (r: bool) {
        self.caller_address < other.caller_address || (self.caller_address
            == other.caller_address && self.instruction_address < other.instruction_address)
    }
}

impl SortKey for ImportCallerReference {
    open spec fn key_lt(a: ImportCallerReferenceV, b: ImportCallerReferenceV) -> bool {
        a.function_address < b.function_address || (a.function_address == b.function_address
            && a.instruction_address < b.instruction_address)
    }

    fn key_lt_exec(&self, other: &Self) -> (r: bool) {
        self.function_address < other.function_address || (self.function_address
            == other.function_address && self.instruction_address < other.instruction_address)
    }
}

impl SortKey for FunctionXrefReport {
    open spec fn key_lt(a: FunctionXrefReportV, b: FunctionXrefReportV) -> bool {
        a.function_address < b.function_address
    }

    fn key_lt_exec(&self, other: &Self) -> (r: bool) {
        self.function_address < other.function_address
    }
}

/// Lexicographic order on two strings, then two more.
pub open spec fn lex2_lt(a1: Seq<char>, a2: Seq<char>, b1: Seq<char>, b2: Seq<char>) -> bool {
    lex_lt(a1, b1) || (a1 == b1 && lex_lt(a2, b2))
}

fn lex2_less(a1: &[char], a2: &[char], b1: &[char], b2: &[char]) -> (r: bool)
    ensures
        r == lex2_lt(a1@, a2@, b1@, b2@),
{
    lex_less(a1, b1) || (eq_chars(a1, b1) && lex_less(a2, b2))
}

pub(crate) fn lowered(s: &String) -> (r: Vec<char>)
    ensures
        r@ == lower_seq(s@),
{
    lower_chars(&chars_of(s.as_str()))
}

impl SortKey for ImportXrefReport {
    open spec fn key_lt(a: ImportXrefReportV, b: ImportXrefReportV) -> bool {
        lex2_lt(lower_seq(a.library), lower_seq(a.function), lower_seq(b.library), lower_seq(b.function))
    }

    fn key_lt_exec(&self, other: &Self) -> (r: bool) {
        lex2_less(
            &lowered(&self.library),
            &lowered(&self.function),
            &lowered(&other.library),
            &lowered(&other.function),
        )
    }
}

impl SortKey for ApiInsightReport {
    /// Higher severity first, then by category, library and function.
    open spec fn key_lt(a: ApiInsightReportV, b: ApiInsightReportV) -> bool {
        let ra = severity_rank_spec(a.severity);
        let rb = severity_rank_spec(b.severity);
        ra > rb || (ra == rb && (lex_lt(a.category, b.category) || (a.category == b.category
            && lex2_lt(lower_seq(a.library), lower_seq(a.function), lower_seq(b.library), lower_seq(b.function)))))
    }

    fn key_lt_exec(&self, other: &Self) -> (r: bool) {
        let ra = severity_rank(self.severity.as_str());
        let rb = severity_rank(other.severity.as_str());
        let ca = chars_of(self.category.as_str());
        let cb = chars_of(other.category.as_str());
        ra > rb || (ra == rb && (lex_less(&ca, &cb) || (eq_chars(&ca, &cb) && lex2_less(
            &lowered(&self.library),
            &lowered(&self.function),
            &lowered(&other.library),
            &lowered(&other.function),
        ))))
    }
}

impl SortKey for BehaviorFinding {
    /// Higher severity first, then by category and detail.
    open spec fn key_lt(a: BehaviorFindingV, b: BehaviorFindingV) -> bool {
        let ra = severity_rank_spec(a.severity);
        let rb = severity_rank_spec(b.severity);
        ra > rb || (ra == rb && lex2_lt(a.category, a.detail, b.category, b.detail))
    }

    fn key_lt_exec(&self, other: &Self) -> (r: bool) {
        let ra = severity_rank(self.severity.as_str());
        let rb = severity_rank(other.severity.as_str());
        ra > rb || (ra == rb && lex2_less(
            &chars_of(self.category.as_str()),
            &chars_of(self.detail.as_str()),
            &chars_of(other.category.as_str()),
            &chars_of(other.detail.as_str()),
        ))
    }
}

impl SortKey for BehaviorCategoryReport {
    /// Higher severity first, then by name.
    open spec fn key_lt(a: BehaviorCategoryReportV, b: BehaviorCategoryReportV) -> bool {
        let ra = severity_rank_spec(a.severity);
        let rb = severity_rank_spec(b.severity);
        ra > rb || (ra == rb && lex_lt(a.name, b.name))
    }

    fn key_lt_exec(&self, other: &Self) -> (r: bool) {
        let ra = severity_rank(self.severity.as_str());
        let rb = severity_rank(other.severity.as_str());
        ra > rb || (ra == rb && lex_less(
            &chars_of(self.name.as_str()),
            &chars_of(other.name.as_str()),
        ))
    }
}

/// The views of a sequence of records.
pub open spec fn views_of<T: View>(s: Seq<T>) -> Seq<T::V> {
    s.map_values(|x: T| x@)
}

// ---------------------------------------------------------------------------
// The package
// ---------------------------------------------------------------------------

pub open spec fn runtime_hint_spec(m: RuntimeMatch) -> RuntimeHintReportV {
    RuntimeHintReportV {
        name: m.name@,
        confidence: m.confidence,
        evidence: m.evidence@.map_values(|s: String| s@),
        guidance: m.guidance@,
    }
}

pub open spec fn import_report_spec(i: ImportInfo) -> ImportReportV {
    ImportReportV { name: i.name@, functions: i.functions@.map_values(|s: String| s@) }
}

pub open spec fn export_report_spec(e: ExportInfo) -> ExportReportV {
    ExportReportV { name: e.name@, address: e.address, ordinal: e.ordinal }
}

/// Identity and counts of the analysed binary.
pub open spec fn summary_spec(inputs: AnalysisReportInputs) -> AnalysisSummaryV {
    AnalysisSummaryV {
        input_path: inputs.input_path@,
        format: inputs.format@,
        architecture: inputs.architecture@,
        entry_point: inputs.entry_point,
        instruction_count: inputs.instruction_count,
        basic_block_count: inputs.basic_block_count,
        function_count: inputs.functions@.len() as usize,
        string_count: inputs.strings@.len() as usize,
        import_count: inputs.imports@.len() as usize,
        export_count: inputs.exports@.len() as usize,
        runtime_hints: inputs.runtime_matches@.map_values(|m: RuntimeMatch| runtime_hint_spec(m)),
    }
}

/// The report of every function, with names, strings and imports resolved.
pub open spec fn function_reports_spec(inputs: AnalysisReportInputs) -> Seq<FunctionReportV> {
    Seq::new(
        inputs.functions@.len(),
        |i: int|
            function_report_spec(
                inputs.functions@[i],
                names_map(inputs.functions@),
                string_map(inputs.strings@),
                import_map(inputs.import_addresses@),
            ),
    )
}

/// Law: the package's summary counts what the package lists: as many
/// functions, strings, imports and exports as the inputs hold, one section
/// report per section, and the inputs' entry point. (The lengths of slices
/// fit in a `usize`.)
pub proof fn lemma_package_counts(inputs: AnalysisReportInputs)
    requires
        inputs.functions@.len() <= usize::MAX,
        inputs.strings@.len() <= usize::MAX,
        inputs.imports@.len() <= usize::MAX,
        inputs.exports@.len() <= usize::MAX,
    ensures
        summary_spec(inputs).function_count == function_reports_spec(inputs).len(),
        function_reports_spec(inputs).len() == inputs.functions@.len(),
        summary_spec(inputs).string_count == inputs.strings@.map_values(
            |s: StringInfo| string_report_spec(s),
        ).len(),
        inputs.strings@.map_values(|s: StringInfo| string_report_spec(s)).len() == inputs.strings@.len(),
        summary_spec(inputs).import_count == inputs.imports@.map_values(
            |i: ImportInfo| import_report_spec(i),
        ).len(),
        inputs.imports@.map_values(|i: ImportInfo| import_report_spec(i)).len() == inputs.imports@.len(),
        summary_spec(inputs).export_count == inputs.exports@.map_values(
            |e: ExportInfo| export_report_spec(e),
        ).len(),
        inputs.exports@.map_values(|e: ExportInfo| export_report_spec(e)).len() == inputs.exports@.len(),
        inputs.sections@.map_values(|x: SectionInfo| section_report_spec(x)).len() == inputs.sections@.len(),
        summary_spec(inputs).entry_point == inputs.entry_point,
{
}

/// Every function can count its instructions and basic blocks, and the
/// whole program's instructions can be counted, in a `usize`.
pub open spec fn counts_fit(fs: Seq<FunctionInfo>) -> bool {
    &&& forall|i: int| 0 <= i < fs.len() ==> (#[trigger] fs[i]).instructions@.len() < usize::MAX
    &&& total_instructions(fs) <= usize::MAX
}

fn clone_strings(v: &Vec<String>) -> (r: Vec<String>)
    ensures
        r@.map_values(|s: String| s@) == v@.map_values(|s: String| s@),
{
    let mut out: Vec<String> = Vec::new();
    let mut i: usize = 0;
    while i < v.len()
        invariant
            i <= v@.len(),
            out@.len() == i,
            forall|j: int| 0 <= j < i ==> #[trigger] out@[j]@ == v@[j]@,
        decreases v@.len() - i,
    {
        out.push(v[i].clone());
        i = i + 1;
    }
    proof {
        assert(out@.map_values(|s: String| s@) =~= v@.map_values(|s: String| s@));
    }
    out
}

fn runtime_hints(matches: &[RuntimeMatch]) -> (r: Vec<RuntimeHintReport>)
    ensures
        views_of(r@) == matches@.map_values(|m: RuntimeMatch| runtime_hint_spec(m)),
{
    let mut out: Vec<RuntimeHintReport> = Vec::new();
    let mut i: usize = 0;
    while i < matches.len()
        invariant
            i <= matches@.len(),
            out@.len() == i,
            forall|j: int| 0 <= j < i ==> #[trigger] out@[j]@ == runtime_hint_spec(matches@[j]),
        decreases matches@.len() - i,
    {
        let m = &matches[i];
        out.push(
            RuntimeHintReport {
                name: m.name.clone(),
                confidence: m.confidence,
                evidence: clone_strings(&m.evidence),
                guidance: m.guidance.clone(),
            },
        );
        i = i + 1;
    }
    proof {
        assert(views_of(out@) =~= matches@.map_values(|m: RuntimeMatch| runtime_hint_spec(m)));
    }
    out
}

fn section_reports(sections: &[SectionInfo]) -> (r: Vec<SectionReport>)
    ensures
        views_of(r@) == sections@.map_values(|s: SectionInfo| section_report_spec(s)),
{
    let mut out: Vec<SectionReport> = Vec::new();
    let mut i: usize = 0;
    while i < sections.len()
        invariant
            i <= sections@.len(),
            out@.len() == i,
            forall|j: int| 0 <= j < i ==> #[trigger] out@[j]@ == section_report_spec(sections@[j]),
        decreases sections@.len() - i,
    {
        out.push(section_report(&sections[i]));
        i = i + 1;
    }
    proof {
        assert(views_of(out@) =~= sections@.map_values(|s: SectionInfo| section_report_spec(s)));
    }
    out
}

fn string_reports(strings: &[StringInfo]) -> (r: Vec<StringReport>)
    ensures
        views_of(r@) == strings@.map_values(|s: StringInfo| string_report_spec(s)),
{
    let mut out: Vec<StringReport> = Vec::new();
    let mut i: usize = 0;
    while i < strings.len()
        invariant
            i <= strings@.len(),
            out@.len() == i,
            forall|j: int| 0 <= j < i ==> #[trigger] out@[j]@ == string_report_spec(strings@[j]),
        decreases strings@.len() - i,
    {
        out.push(string_report(&strings[i]));
        i = i + 1;
    }
    proof {
        assert(views_of(out@) =~= strings@.map_values(|s: StringInfo| string_report_spec(s)));
    }
    out
}

fn suspicious_string_reports(strings: &[StringInfo]) -> (r: Vec<SuspiciousStringReport>)
    ensures
        views_of(r@) == suspicious_reports_spec(strings@),
{
    let mut out: Vec<SuspiciousStringReport> = Vec::new();
    let mut i: usize = 0;
    proof {
        assert(strings@.take(0) =~= seq![]);
        assert(views_of(out@) =~= seq![]);
    }
    while i < strings.len()
        invariant
            i <= strings@.len(),
            views_of(out@) == suspicious_reports_spec(strings@.take(i as int)),
        decreases strings@.len() - i,
    {
        proof {
            assert(strings@.take(i + 1).drop_last() =~= strings@.take(i as int));
        }
        let ghost before = views_of(out@);
        match suspicious_string_report(&strings[i]) {
            Some(x) => {
                out.push(x);
                proof {
                    assert(views_of(out@) =~= before.push(x@));
                }
            },
            None => {},
        }
        i = i + 1;
    }
    proof {
        assert(strings@.take(strings@.len() as int) =~= strings@);
    }
    out
}

fn import_address_reports(imports: &[ImportAddressInfo]) -> (r: Vec<ImportAddressReport>)
    ensures
        views_of(r@) == imports@.map_values(|i: ImportAddressInfo| import_address_report_spec(i)),
{
    let mut out: Vec<ImportAddressReport> = Vec::new();
    let mut i: usize = 0;
    while i < imports.len()
        invariant
            i <= imports@.len(),
            out@.len() == i,
            forall|j: int|
                0 <= j < i ==> #[trigger] out@[j]@ == import_address_report_spec(imports@[j]),
        decreases imports@.len() - i,
    {
        out.push(import_address_report(&imports[i]));
        i = i + 1;
    }
    proof {
        assert(views_of(out@) =~= imports@.map_values(
            |i: ImportAddressInfo| import_address_report_spec(i),
        ));
    }
    out
}

fn import_reports(imports: &[ImportInfo]) -> (r: Vec<ImportReport>)
    ensures
        views_of(r@) == imports@.map_values(|i: ImportInfo| import_report_spec(i)),
{
    let mut out: Vec<ImportReport> = Vec::new();
    let mut i: usize = 0;
    while i < imports.len()
        invariant
            i <= imports@.len(),
            out@.len() == i,
            forall|j: int| 0 <= j < i ==> #[trigger] out@[j]@ == import_report_spec(imports@[j]),
        decreases imports@.len() - i,
    {
        out.push(
            ImportReport {
                name: imports[i].name.clone(),
                functions: clone_strings(&imports[i].functions),
            },
        );
        i = i + 1;
    }
    proof {
        assert(views_of(out@) =~= imports@.map_values(|i: ImportInfo| import_report_spec(i)));
    }
    out
}

fn export_reports(exports: &[ExportInfo]) -> (r: Vec<ExportReport>)
    ensures
        views_of(r@) == exports@.map_values(|e: ExportInfo| export_report_spec(e)),
{
    let mut out: Vec<ExportReport> = Vec::new();
    let mut i: usize = 0;
    while i < exports.len()
        invariant
            i <= exports@.len(),
            out@.len() == i,
            forall|j: int| 0 <= j < i ==> #[trigger] out@[j]@ == export_report_spec(exports@[j]),
        decreases exports@.len() - i,
    {
        out.push(
            ExportReport {
                name: exports[i].name.clone(),
                address: exports[i].address,
                ordinal: exports[i].ordinal,
            },
        );
        i = i + 1;
    }
    proof {
        assert(views_of(out@) =~= exports@.map_values(|e: ExportInfo| export_report_spec(e)));
    }
    out
}

fn function_reports(
    functions: &[FunctionInfo],
    strings: &[StringInfo],
    import_addresses: &[ImportAddressInfo],
) -> (r: Vec<FunctionReport>)
    requires
        forall|i: int|
            0 <= i < functions@.len() ==> (#[trigger] functions@[i]).instructions@.len()
                < usize::MAX,
    ensures
        views_of(r@) == Seq::new(
            functions@.len(),
            |i: int|
                function_report_spec(
                    functions@[i],
                    names_map(functions@),
                    string_map(strings@),
                    import_map(import_addresses@),
                ),
        ),
{
    let function_names = build_function_name_map(functions);
    let string_index = build_string_map(strings);
    let import_index = build_import_address_map(import_addresses);
    let ghost all = Seq::new(
        functions@.len(),
        |i: int|
            function_report_spec(
                functions@[i],
                names_map(functions@),
                string_map(strings@),
                import_map(import_addresses@),
            ),
    );
    let mut out: Vec<FunctionReport> = Vec::new();
    let mut i: usize = 0;
    while i < functions.len()
        invariant
            i <= functions@.len(),
            out@.len() == i,
            names_view(function_names@) == names_map(functions@),
            string_index_ok(string_index@, strings@),
            import_index_ok(import_index@, import_addresses@),
            forall|j: int|
                0 <= j < functions@.len() ==> (#[trigger] functions@[j]).instructions@.len()
                    < usize::MAX,
            all.len() == functions@.len(),
            forall|j: int|
                0 <= j < all.len() ==> #[trigger] all[j] == function_report_spec(
                    functions@[j],
                    names_map(functions@),
                    string_map(strings@),
                    import_map(import_addresses@),
                ),
            forall|j: int| 0 <= j < i ==> #[trigger] out@[j]@ == all[j],
        decreases functions@.len() - i,
    {
        let x = function_report(
            &functions[i],
            &function_names,
            strings,
            &string_index,
            import_addresses,
            &import_index,
        );
        out.push(x);
        i = i + 1;
    }
    proof {
        assert(views_of(out@) =~= all);
    }
    out
}

/// Builds report packages.
pub struct AnalysisReportBuilder;

impl AnalysisReportBuilder {
    pub fn new() -> Self {
        AnalysisReportBuilder
    }

    /// The complete report package of one analysed binary.
    pub fn build(&self, inputs: AnalysisReportInputs<'_>) -> (r: AnalysisReportPackage)
        requires
            counts_fit(inputs.functions@),
        ensures
            r@.summary == summary_spec(inputs),
            r@.functions == function_reports_spec(inputs),
            r@.cfg_summary == cfg_summary_spec(inputs.basic_block_count, inputs.functions@),
            r@.jump_tables == jump_tables_spec(inputs.functions@, report_names(r@.functions)),
            r@.call_graph == call_graph_spec(r@.functions),
            r@.xrefs == (XrefReportV {
                functions: function_xrefs_spec(r@.functions),
                imports: import_xrefs_spec(
                    r@.functions,
                    inputs.imports@,
                    inputs.import_addresses@,
                    r@.api_insights,
                ),
            }),
            r@.sections == inputs.sections@.map_values(|s: SectionInfo| section_report_spec(s)),
            r@.strings == inputs.strings@.map_values(|s: StringInfo| string_report_spec(s)),
            r@.suspicious_strings == suspicious_reports_spec(inputs.strings@),
            r@.strings_by_function == strings_by_function_spec(r@.functions),
            r@.api_insights == api_insights_spec(inputs.imports@),
            r@.behavior_report == behavior_report_spec(
                r@.api_insights,
                r@.suspicious_strings,
                inputs.runtime_matches@,
            ),
            r@.import_addresses == inputs.import_addresses@.map_values(
                |i: ImportAddressInfo| import_address_report_spec(i),
            ),
            r@.imports == inputs.imports@.map_values(|i: ImportInfo| import_report_spec(i)),
            r@.exports == inputs.exports@.map_values(|e: ExportInfo| export_report_spec(e)),
    {
        let functions = function_reports(inputs.functions, inputs.strings, inputs.import_addresses);
        let cfg = cfg_summary(inputs.basic_block_count, inputs.functions);
        let jump_tables = jump_table_reports(&functions, inputs.functions);
        let call_graph = call_graph_edges(&functions);
        let by_function = strings_by_function(&functions);
        let suspicious = suspicious_string_reports(inputs.strings);
        let insights = api_insights(inputs.imports);
        let xrefs = xref_report(&functions, inputs.imports, inputs.import_addresses, &insights);
        proof {
            lemma_report_weights_bounded(
                inputs.imports@,
                suspicious_reports_spec(inputs.strings@),
                inputs.runtime_matches@,
            );
        }
        let behavior = behavior_report(&insights, &suspicious, inputs.runtime_matches);
        let summary = AnalysisSummary {
            input_path: inputs.input_path.to_string(),
            format: inputs.format.to_string(),
            architecture: inputs.architecture.to_string(),
            entry_point: inputs.entry_point,
            instruction_count: inputs.instruction_count,
            basic_block_count: inputs.basic_block_count,
            function_count: inputs.functions.len(),
            string_count: inputs.strings.len(),
            import_count: inputs.imports.len(),
            export_count: inputs.exports.len(),
            runtime_hints: runtime_hints(inputs.runtime_matches),
        };
        let r = AnalysisReportPackage {
            summary,
            cfg_summary: cfg,
            functions,
            jump_tables,
            call_graph,
            xrefs,
            sections: section_reports(inputs.sections),
            strings: string_reports(inputs.strings),
            suspicious_strings: suspicious,
            strings_by_function: by_function,
            api_insights: insights,
            behavior_report: behavior,
            import_addresses: import_address_reports(inputs.import_addresses),
            imports: import_reports(inputs.imports),
            exports: export_reports(inputs.exports),
        };
        proof {
            assert(r@.functions =~= views_of(r.functions@));
            assert(r@.api_insights =~= views_of(r.api_insights@));
            assert(r@.suspicious_strings =~= views_of(r.suspicious_strings@));
            assert(r@.summary.runtime_hints =~= views_of(r.summary.runtime_hints@));
        }
        r
    }
}

impl Default for AnalysisReportBuilder {
    fn default() -> (r: Self) {
        AnalysisReportBuilder::new()
    }
}

} // verus!
