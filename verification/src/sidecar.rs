//! Values exchanged with the type sidecar: anchors, records, pair specifications and verdicts.

use crate::duplicate::{duplicate_all, Duplicate};
use crate::text::{copy_list, copy_option};
use vstd::prelude::*;

verus! {

/// Where a capture anchor came from.
#[derive(Debug, Clone, Copy, PartialEq, Eq, Structural)]
pub enum AnchorOrigin {
    LlmSymbol,
    DeterministicInfer,
    AnchorBackfill,
    ManifestPlaceholder,
}

/// One alias of a capture, with what the capture resolves it from.
#[derive(Debug, Clone, PartialEq, Eq)]
pub enum CaptureAnchor {
    Symbol { alias: String, symbol_name: String, source_file: String, anchor_origin: AnchorOrigin, array_depth: Option<u32> },
    Infer { alias: String, source_file: String, anchor_origin: AnchorOrigin, span_start: Option<u32>, span_end: Option<u32>, line_number: Option<u32>, expression_text: Option<String>, param_name: Option<String> },
    Literal { alias: String, type_text: String, anchor_origin: AnchorOrigin, source_file: Option<String> },
}

/// What a [`CaptureAnchor`] holds.
pub enum CaptureAnchorModel {
    Symbol { alias: Seq<char>, symbol_name: Seq<char>, source_file: Seq<char>, anchor_origin: AnchorOrigin, array_depth: Option<u32> },
    Infer { alias: Seq<char>, source_file: Seq<char>, anchor_origin: AnchorOrigin, span_start: Option<u32>, span_end: Option<u32>, line_number: Option<u32>, expression_text: Option<Seq<char>>, param_name: Option<Seq<char>> },
    Literal { alias: Seq<char>, type_text: Seq<char>, anchor_origin: AnchorOrigin, source_file: Option<Seq<char>> },
}

impl DeepView for CaptureAnchor {
    type V = CaptureAnchorModel;

    open spec fn deep_view(&self) -> CaptureAnchorModel {
        match self {
            CaptureAnchor::Symbol { alias, symbol_name, source_file, anchor_origin, array_depth } => CaptureAnchorModel::Symbol {
                alias: alias@,
                symbol_name: symbol_name@,
                source_file: source_file@,
                anchor_origin: *anchor_origin,
                array_depth: *array_depth,
            },
            CaptureAnchor::Infer { alias, source_file, anchor_origin, span_start, span_end, line_number, expression_text, param_name } => CaptureAnchorModel::Infer {
                alias: alias@,
                source_file: source_file@,
                anchor_origin: *anchor_origin,
                span_start: *span_start,
                span_end: *span_end,
                line_number: *line_number,
                expression_text: expression_text.deep_view(),
                param_name: param_name.deep_view(),
            },
            CaptureAnchor::Literal { alias, type_text, anchor_origin, source_file } => CaptureAnchorModel::Literal {
                alias: alias@,
                type_text: type_text@,
                anchor_origin: *anchor_origin,
                source_file: source_file.deep_view(),
            },
        }
    }
}

impl Duplicate for CaptureAnchor {
    fn duplicate(&self) -> (r: Self) {
        match self {
            CaptureAnchor::Symbol { alias, symbol_name, source_file, anchor_origin, array_depth } => CaptureAnchor::Symbol {
                alias: alias.clone(),
                symbol_name: symbol_name.clone(),
                source_file: source_file.clone(),
                anchor_origin: *anchor_origin,
                array_depth: *array_depth,
            },
            CaptureAnchor::Infer { alias, source_file, anchor_origin, span_start, span_end, line_number, expression_text, param_name } => CaptureAnchor::Infer {
                alias: alias.clone(),
                source_file: source_file.clone(),
                anchor_origin: *anchor_origin,
                span_start: *span_start,
                span_end: *span_end,
                line_number: *line_number,
                expression_text: copy_option(expression_text),
                param_name: copy_option(param_name),
            },
            CaptureAnchor::Literal { alias, type_text, anchor_origin, source_file } => CaptureAnchor::Literal {
                alias: alias.clone(),
                type_text: type_text.clone(),
                anchor_origin: *anchor_origin,
                source_file: copy_option(source_file),
            },
        }
    }
}

/// What an inference request asks the type of.
#[derive(Debug, Clone, Copy, PartialEq, Eq, Structural)]
pub enum InferKind {
    ResponseBody,
    RequestBody,
    CallResult,
    FunctionParam,
    Expression,
}

/// A place in a type at which a top type stands, and why.
#[derive(Debug, Clone, PartialEq, Eq)]
pub struct TypeProvenance {
    pub path: String,
    pub kind: String,
    pub reason: String,
    pub detail: Option<String>,
}

/// What a [`TypeProvenance`] holds.
pub struct TypeProvenanceModel {
    pub path: Seq<char>,
    pub kind: Seq<char>,
    pub reason: Seq<char>,
    pub detail: Option<Seq<char>>,
}

impl DeepView for TypeProvenance {
    type V = TypeProvenanceModel;

    open spec fn deep_view(&self) -> TypeProvenanceModel {
        TypeProvenanceModel {
            path: self.path@,
            kind: self.kind@,
            reason: self.reason@,
            detail: self.detail.deep_view(),
        }
    }
}

impl Duplicate for TypeProvenance {
    fn duplicate(&self) -> (r: Self) {
        TypeProvenance {
            path: self.path.clone(),
            kind: self.kind.clone(),
            reason: self.reason.clone(),
            detail: copy_option(&self.detail),
        }
    }
}

/// The type an inference printed for an alias.
#[derive(Debug, Clone, PartialEq, Eq)]
pub struct InferredType {
    pub alias: String,
    pub type_string: String,
    pub primary_type_symbol: Option<String>,
    pub array_depth: Option<u32>,
    pub any_provenance: Vec<TypeProvenance>,
}

/// What an [`InferredType`] holds.
pub struct InferredTypeModel {
    pub alias: Seq<char>,
    pub type_string: Seq<char>,
    pub primary_type_symbol: Option<Seq<char>>,
    pub array_depth: Option<u32>,
    pub any_provenance: Seq<TypeProvenanceModel>,
}

impl DeepView for InferredType {
    type V = InferredTypeModel;

    open spec fn deep_view(&self) -> InferredTypeModel {
        InferredTypeModel {
            alias: self.alias@,
            type_string: self.type_string@,
            primary_type_symbol: self.primary_type_symbol.deep_view(),
            array_depth: self.array_depth,
            any_provenance: self.any_provenance.deep_view(),
        }
    }
}

impl Duplicate for InferredType {
    fn duplicate(&self) -> (r: Self) {
        InferredType {
            alias: self.alias.clone(),
            type_string: self.type_string.clone(),
            primary_type_symbol: copy_option(&self.primary_type_symbol),
            array_depth: self.array_depth,
            any_provenance: duplicate_all(&self.any_provenance),
        }
    }
}

/// A request to capture a named symbol.
#[derive(Debug, Clone, PartialEq, Eq)]
pub struct SymbolRequest {
    pub symbol_name: String,
    pub source_file: String,
    pub alias: Option<String>,
    pub array_depth: Option<u32>,
}

/// What a [`SymbolRequest`] holds.
pub struct SymbolRequestModel {
    pub symbol_name: Seq<char>,
    pub source_file: Seq<char>,
    pub alias: Option<Seq<char>>,
    pub array_depth: Option<u32>,
}

impl DeepView for SymbolRequest {
    type V = SymbolRequestModel;

    open spec fn deep_view(&self) -> SymbolRequestModel {
        SymbolRequestModel {
            symbol_name: self.symbol_name@,
            source_file: self.source_file@,
            alias: self.alias.deep_view(),
            array_depth: self.array_depth,
        }
    }
}

impl Duplicate for SymbolRequest {
    fn duplicate(&self) -> (r: Self) {
        SymbolRequest {
            symbol_name: self.symbol_name.clone(),
            source_file: self.source_file.clone(),
            alias: copy_option(&self.alias),
            array_depth: self.array_depth,
        }
    }
}

/// A request to infer the type at a place in a file.
#[derive(Debug, Clone, PartialEq, Eq)]
pub struct InferRequestItem {
    pub file_path: String,
    pub line_number: u32,
    pub span_start: Option<u32>,
    pub span_end: Option<u32>,
    pub expression_text: Option<String>,
    pub expression_line: Option<u32>,
    pub infer_kind: InferKind,
    pub alias: Option<String>,
    pub param_name: Option<String>,
}

/// What an [`InferRequestItem`] holds.
pub struct InferRequestItemModel {
    pub file_path: Seq<char>,
    pub line_number: u32,
    pub span_start: Option<u32>,
    pub span_end: Option<u32>,
    pub expression_text: Option<Seq<char>>,
    pub expression_line: Option<u32>,
    pub infer_kind: InferKind,
    pub alias: Option<Seq<char>>,
    pub param_name: Option<Seq<char>>,
}

impl DeepView for InferRequestItem {
    type V = InferRequestItemModel;

    open spec fn deep_view(&self) -> InferRequestItemModel {
        InferRequestItemModel {
            file_path: self.file_path@,
            line_number: self.line_number,
            span_start: self.span_start,
            span_end: self.span_end,
            expression_text: self.expression_text.deep_view(),
            expression_line: self.expression_line,
            infer_kind: self.infer_kind,
            alias: self.alias.deep_view(),
            param_name: self.param_name.deep_view(),
        }
    }
}

impl Duplicate for InferRequestItem {
    fn duplicate(&self) -> (r: Self) {
        InferRequestItem {
            file_path: self.file_path.clone(),
            line_number: self.line_number,
            span_start: self.span_start,
            span_end: self.span_end,
            expression_text: copy_option(&self.expression_text),
            expression_line: self.expression_line,
            infer_kind: self.infer_kind,
            alias: copy_option(&self.alias),
            param_name: copy_option(&self.param_name),
        }
    }
}

/// A type of the explicit bundle, with its expansion.
#[derive(Debug, Clone, PartialEq, Eq)]
pub struct ManifestEntry {
    pub alias: String,
    pub type_string: String,
}

/// What a [`ManifestEntry`] holds.
pub struct ManifestEntryModel {
    pub alias: Seq<char>,
    pub type_string: Seq<char>,
}

impl DeepView for ManifestEntry {
    type V = ManifestEntryModel;

    open spec fn deep_view(&self) -> ManifestEntryModel {
        ManifestEntryModel {
            alias: self.alias@,
            type_string: self.type_string@,
        }
    }
}

impl Duplicate for ManifestEntry {
    fn duplicate(&self) -> (r: Self) {
        ManifestEntry {
            alias: self.alias.clone(),
            type_string: self.type_string.clone(),
        }
    }
}

/// What a capture reports about one alias.
#[derive(Debug, Clone, PartialEq, Eq)]
pub struct CaptureAliasRecord {
    pub alias: String,
    pub anchor_kind: String,
    pub self_check: String,
    pub capture_failure_reason: Option<String>,
    pub top_type_at_self_check: bool,
    pub any_provenance: Vec<TypeProvenance>,
}

/// What a [`CaptureAliasRecord`] holds.
pub struct CaptureAliasRecordModel {
    pub alias: Seq<char>,
    pub anchor_kind: Seq<char>,
    pub self_check: Seq<char>,
    pub capture_failure_reason: Option<Seq<char>>,
    pub top_type_at_self_check: bool,
    pub any_provenance: Seq<TypeProvenanceModel>,
}

impl DeepView for CaptureAliasRecord {
    type V = CaptureAliasRecordModel;

    open spec fn deep_view(&self) -> CaptureAliasRecordModel {
        CaptureAliasRecordModel {
            alias: self.alias@,
            anchor_kind: self.anchor_kind@,
            self_check: self.self_check@,
            capture_failure_reason: self.capture_failure_reason.deep_view(),
            top_type_at_self_check: self.top_type_at_self_check,
            any_provenance: self.any_provenance.deep_view(),
        }
    }
}

impl Duplicate for CaptureAliasRecord {
    fn duplicate(&self) -> (r: Self) {
        CaptureAliasRecord {
            alias: self.alias.clone(),
            anchor_kind: self.anchor_kind.clone(),
            self_check: self.self_check.clone(),
            capture_failure_reason: copy_option(&self.capture_failure_reason),
            top_type_at_self_check: self.top_type_at_self_check,
            any_provenance: duplicate_all(&self.any_provenance),
        }
    }
}

/// The protocol a pair is probed under.
#[derive(Debug, Clone, Copy, PartialEq, Eq, Structural)]
pub enum ProbeProtocol {
    Http,
    Graphql,
    Socket,
    Pubsub,
}

/// The half of an operation a pair is probed for.
#[derive(Debug, Clone, Copy, PartialEq, Eq, Structural)]
pub enum ProbeTypeKind {
    Request,
    Response,
    Both,
}

/// One side of a pair: a service and the alias of its type.
#[derive(Debug, Clone, PartialEq, Eq)]
pub struct CheckPairEndpoint {
    pub service_name: String,
    pub alias: String,
}

/// What a [`CheckPairEndpoint`] holds.
pub struct CheckPairEndpointModel {
    pub service_name: Seq<char>,
    pub alias: Seq<char>,
}

impl DeepView for CheckPairEndpoint {
    type V = CheckPairEndpointModel;

    open spec fn deep_view(&self) -> CheckPairEndpointModel {
        CheckPairEndpointModel {
            service_name: self.service_name@,
            alias: self.alias@,
        }
    }
}

impl Duplicate for CheckPairEndpoint {
    fn duplicate(&self) -> (r: Self) {
        CheckPairEndpoint {
            service_name: self.service_name.clone(),
            alias: self.alias.clone(),
        }
    }
}

/// A pair to probe.
#[derive(Debug, Clone, PartialEq, Eq)]
pub struct CheckPairSpec {
    pub pair_key: String,
    pub protocol: ProbeProtocol,
    pub type_kind: ProbeTypeKind,
    pub producer: CheckPairEndpoint,
    pub consumer: CheckPairEndpoint,
}

/// What a [`CheckPairSpec`] holds.
pub struct CheckPairSpecModel {
    pub pair_key: Seq<char>,
    pub protocol: ProbeProtocol,
    pub type_kind: ProbeTypeKind,
    pub producer: CheckPairEndpointModel,
    pub consumer: CheckPairEndpointModel,
}

impl DeepView for CheckPairSpec {
    type V = CheckPairSpecModel;

    open spec fn deep_view(&self) -> CheckPairSpecModel {
        CheckPairSpecModel {
            pair_key: self.pair_key@,
            protocol: self.protocol,
            type_kind: self.type_kind,
            producer: self.producer.deep_view(),
            consumer: self.consumer.deep_view(),
        }
    }
}

impl Duplicate for CheckPairSpec {
    fn duplicate(&self) -> (r: Self) {
        CheckPairSpec {
            pair_key: self.pair_key.clone(),
            protocol: self.protocol,
            type_kind: self.type_kind,
            producer: self.producer.duplicate(),
            consumer: self.consumer.duplicate(),
        }
    }
}

/// The four verdicts on a pair.
#[derive(Debug, Clone, Copy, PartialEq, Eq, Structural)]
pub enum VerdictBucket {
    Compatible,
    Incompatible,
    Unverifiable,
    GateCaughtBakedAny,
}

/// A side of a pair.
#[derive(Debug, Clone, Copy, PartialEq, Eq, Structural)]
pub enum VerdictSide {
    Producer,
    Consumer,
}

/// The verdict of a check on one pair.
#[derive(Debug, Clone, PartialEq, Eq)]
pub struct CheckVerdict {
    pub pair_key: String,
    pub bucket: VerdictBucket,
    pub gate: Option<String>,
    pub diagnostic: Option<String>,
    pub resolved: bool,
    pub unresolved_reason: Option<String>,
    pub unresolved_side: Option<VerdictSide>,
    pub notes: Vec<String>,
}

/// What a [`CheckVerdict`] holds.
pub struct CheckVerdictModel {
    pub pair_key: Seq<char>,
    pub bucket: VerdictBucket,
    pub gate: Option<Seq<char>>,
    pub diagnostic: Option<Seq<char>>,
    pub resolved: bool,
    pub unresolved_reason: Option<Seq<char>>,
    pub unresolved_side: Option<VerdictSide>,
    pub notes: Seq<Seq<char>>,
}

impl DeepView for CheckVerdict {
    type V = CheckVerdictModel;

    open spec fn deep_view(&self) -> CheckVerdictModel {
        CheckVerdictModel {
            pair_key: self.pair_key@,
            bucket: self.bucket,
            gate: self.gate.deep_view(),
            diagnostic: self.diagnostic.deep_view(),
            resolved: self.resolved,
            unresolved_reason: self.unresolved_reason.deep_view(),
            unresolved_side: self.unresolved_side,
            notes: self.notes.deep_view(),
        }
    }
}

impl Duplicate for CheckVerdict {
    fn duplicate(&self) -> (r: Self) {
        CheckVerdict {
            pair_key: self.pair_key.clone(),
            bucket: self.bucket,
            gate: copy_option(&self.gate),
            diagnostic: copy_option(&self.diagnostic),
            resolved: self.resolved,
            unresolved_reason: copy_option(&self.unresolved_reason),
            unresolved_side: self.unresolved_side,
            notes: copy_list(&self.notes),
        }
    }
}

/// What retyping a consumer's call decided.
#[derive(Debug, Clone, Copy, PartialEq, Eq, Structural)]
pub enum RetypeVerdict {
    Mismatch,
    Agrees,
    Abstain,
}

/// An error of the retyped consumer file.
#[derive(Debug, Clone, PartialEq, Eq)]
pub struct RetypeDiagnostic {
    pub line: u32,
    pub message: String,
}

/// What a [`RetypeDiagnostic`] holds.
pub struct RetypeDiagnosticModel {
    pub line: u32,
    pub message: Seq<char>,
}

impl DeepView for RetypeDiagnostic {
    type V = RetypeDiagnosticModel;

    open spec fn deep_view(&self) -> RetypeDiagnosticModel {
        RetypeDiagnosticModel {
            line: self.line,
            message: self.message@,
        }
    }
}

impl Duplicate for RetypeDiagnostic {
    fn duplicate(&self) -> (r: Self) {
        RetypeDiagnostic {
            line: self.line,
            message: self.message.clone(),
        }
    }
}

/// The answer to one retype item.
#[derive(Debug, Clone, PartialEq, Eq)]
pub struct RetypeOutcome {
    pub item_id: String,
    pub outcome: RetypeVerdict,
    pub diagnostics: Vec<RetypeDiagnostic>,
    pub reason: Option<String>,
}

/// What a [`RetypeOutcome`] holds.
pub struct RetypeOutcomeModel {
    pub item_id: Seq<char>,
    pub outcome: RetypeVerdict,
    pub diagnostics: Seq<RetypeDiagnosticModel>,
    pub reason: Option<Seq<char>>,
}

impl DeepView for RetypeOutcome {
    type V = RetypeOutcomeModel;

    open spec fn deep_view(&self) -> RetypeOutcomeModel {
        RetypeOutcomeModel {
            item_id: self.item_id@,
            outcome: self.outcome,
            diagnostics: self.diagnostics.deep_view(),
            reason: self.reason.deep_view(),
        }
    }
}

impl Duplicate for RetypeOutcome {
    fn duplicate(&self) -> (r: Self) {
        RetypeOutcome {
            item_id: self.item_id.clone(),
            outcome: self.outcome,
            diagnostics: duplicate_all(&self.diagnostics),
            reason: copy_option(&self.reason),
        }
    }
}

/// A consumer call to retype with a producer's type.
#[derive(Debug, Clone, PartialEq, Eq)]
pub struct RetypeItem {
    pub item_id: String,
    pub file_path: String,
    pub line_number: u32,
    pub span_start: Option<u32>,
    pub span_end: Option<u32>,
    pub expression_text: Option<String>,
    pub expression_line: Option<u32>,
    pub producer_type: String,
    pub wire: bool,
}

/// What a [`RetypeItem`] holds.
pub struct RetypeItemModel {
    pub item_id: Seq<char>,
    pub file_path: Seq<char>,
    pub line_number: u32,
    pub span_start: Option<u32>,
    pub span_end: Option<u32>,
    pub expression_text: Option<Seq<char>>,
    pub expression_line: Option<u32>,
    pub producer_type: Seq<char>,
    pub wire: bool,
}

impl DeepView for RetypeItem {
    type V = RetypeItemModel;

    open spec fn deep_view(&self) -> RetypeItemModel {
        RetypeItemModel {
            item_id: self.item_id@,
            file_path: self.file_path@,
            line_number: self.line_number,
            span_start: self.span_start,
            span_end: self.span_end,
            expression_text: self.expression_text.deep_view(),
            expression_line: self.expression_line,
            producer_type: self.producer_type@,
            wire: self.wire,
        }
    }
}

impl Duplicate for RetypeItem {
    fn duplicate(&self) -> (r: Self) {
        RetypeItem {
            item_id: self.item_id.clone(),
            file_path: self.file_path.clone(),
            line_number: self.line_number,
            span_start: self.span_start,
            span_end: self.span_end,
            expression_text: copy_option(&self.expression_text),
            expression_line: self.expression_line,
            producer_type: self.producer_type.clone(),
            wire: self.wire,
        }
    }
}

/// A stub directory that takes part in a check.
#[derive(Debug, Clone, PartialEq, Eq)]
pub struct CheckStubInput {
    pub service_name: String,
    pub stub_dir: String,
}

/// What a [`CheckStubInput`] holds.
pub struct CheckStubInputModel {
    pub service_name: Seq<char>,
    pub stub_dir: Seq<char>,
}

impl DeepView for CheckStubInput {
    type V = CheckStubInputModel;

    open spec fn deep_view(&self) -> CheckStubInputModel {
        CheckStubInputModel {
            service_name: self.service_name@,
            stub_dir: self.stub_dir@,
        }
    }
}

impl Duplicate for CheckStubInput {
    fn duplicate(&self) -> (r: Self) {
        CheckStubInput {
            service_name: self.service_name.clone(),
            stub_dir: self.stub_dir.clone(),
        }
    }
}

} // verus!
