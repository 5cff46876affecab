//! Capturing a service's types: one anchor per alias, and the backfill of demoted aliases.

use crate::duplicate::Duplicate;
use crate::engine::type_texts::{
    backfill_text, inference_decided_no_contract, inference_was_blind, is_blind, is_decided, usable_backfill_text,
    usable_inferred_text, usable_text,
};
use crate::engine::{path_under, repo_relative};
use crate::ordered::{TextMap, TextSet};
use crate::sidecar::{
    AnchorOrigin, CaptureAliasRecord, CaptureAliasRecordModel, CaptureAnchor, CaptureAnchorModel, InferKind,
    InferRequestItem, InferRequestItemModel, InferredType, InferredTypeModel, ManifestEntry, ManifestEntryModel,
    SymbolRequest, SymbolRequestModel,
};
use crate::text::{copy_option, insert_sorted, same, sorted_distinct, sorted_distinct_sorts, text_less, text_less_asymmetric, texts_ascend, trim, trimmed};
use vstd::prelude::*;

verus! {

// ---------------------------------------------------------------------------
// What the inferences of an alias say
// ---------------------------------------------------------------------------

/// The first usable text that the inferences hold for an alias.
pub open spec fn first_usable(inferred: Seq<InferredTypeModel>, alias: Seq<char>) -> Option<Seq<char>>
    decreases inferred.len(),
{
    if inferred.len() == 0 {
        None
    } else {
        match first_usable(inferred.drop_last(), alias) {
            Some(text) => Some(text),
            None => if inferred.last().alias == alias {
                usable_text(inferred.last().type_string)
            } else {
                None
            },
        }
    }
}

/// An inference ran for the alias.
pub open spec fn infers_alias(inferred: Seq<InferredTypeModel>, alias: Seq<char>) -> bool {
    exists|i: int| 0 <= i < inferred.len() && (#[trigger] inferred[i]).alias == alias
}

/// An inference ran for the alias, and every one that ran saw nothing.
pub open spec fn alias_is_blind(inferred: Seq<InferredTypeModel>, alias: Seq<char>) -> bool {
    &&& infers_alias(inferred, alias)
    &&& forall|i: int| 0 <= i < inferred.len() && (#[trigger] inferred[i]).alias == alias ==> is_blind(inferred[i])
}

/// Some inference decided that the alias has no contract.
pub open spec fn alias_is_decided(inferred: Seq<InferredTypeModel>, alias: Seq<char>) -> bool {
    exists|i: int| 0 <= i < inferred.len() && (#[trigger] inferred[i]).alias == alias && is_decided(inferred[i])
}

fn first_usable_text(inferred: &Vec<InferredType>, alias: &str) -> (r: Option<String>)
    ensures
        r.deep_view() == first_usable(inferred.deep_view(), alias@),
{
    let mut found: Option<String> = None;
    let mut i: usize = 0;
    assert(inferred.deep_view().take(0) == Seq::<InferredTypeModel>::empty());
    while i < inferred.len()
        invariant
            i <= inferred.len(),
            found.deep_view() == first_usable(inferred.deep_view().take(i as int), alias@),
        decreases inferred.len() - i,
    {
        let ghost all = inferred.deep_view();
        assert(all.take(i + 1).drop_last() == all.take(i as int));
        assert(all.take(i + 1).last() == inferred@[i as int].deep_view());
        if found.is_none() && same(inferred[i].alias.as_str(), alias) {
            found = usable_inferred_text(inferred[i].type_string.as_str());
        }
        i += 1;
    }
    assert(inferred.deep_view().take(inferred@.len() as int) == inferred.deep_view());
    found
}

fn blind_for(inferred: &Vec<InferredType>, alias: &str) -> (r: bool)
    ensures
        r == alias_is_blind(inferred.deep_view(), alias@),
{
    let ghost all = inferred.deep_view();
    let mut ran: bool = false;
    let mut i: usize = 0;
    while i < inferred.len()
        invariant
            i <= inferred.len(),
            all == inferred.deep_view(),
            ran == exists|j: int| 0 <= j < i && (#[trigger] all[j]).alias == alias@,
            forall|j: int| 0 <= j < i && (#[trigger] all[j]).alias == alias@ ==> is_blind(all[j]),
        decreases inferred.len() - i,
    {
        assert(all[i as int] == inferred@[i as int].deep_view());
        if same(inferred[i].alias.as_str(), alias) {
            if !inference_was_blind(&inferred[i]) {
                return false;
            }
            ran = true;
        }
        i += 1;
    }
    ran
}

fn decided_for(inferred: &Vec<InferredType>, alias: &str) -> (r: bool)
    ensures
        r == alias_is_decided(inferred.deep_view(), alias@),
{
    let ghost all = inferred.deep_view();
    let mut i: usize = 0;
    while i < inferred.len()
        invariant
            i <= inferred.len(),
            all == inferred.deep_view(),
            forall|j: int| 0 <= j < i && (#[trigger] all[j]).alias == alias@ ==> !is_decided(all[j]),
        decreases inferred.len() - i,
    {
        assert(all[i as int] == inferred@[i as int].deep_view());
        if same(inferred[i].alias.as_str(), alias) && inference_decided_no_contract(&inferred[i]) {
            return true;
        }
        i += 1;
    }
    false
}

/// The aliases whose inference ran and came back blind every time. One sighted
/// inference clears its alias.
pub fn blind_inference_aliases(inferred: &Vec<InferredType>) -> (r: TextSet)
    ensures
        forall|alias: Seq<char>| #[trigger] r@.contains(alias) <==> alias_is_blind(inferred.deep_view(), alias),
{
    let ghost all = inferred.deep_view();
    let mut blind = TextSet::new();
    let mut i: usize = 0;
    while i < inferred.len()
        invariant
            i <= inferred.len(),
            all == inferred.deep_view(),
            forall|alias: Seq<char>|
                #[trigger] blind@.contains(alias) <==> alias_is_blind(all, alias) && infers_alias(all.take(i as int), alias),
        decreases inferred.len() - i,
    {
        let ghost before = blind@;
        let ghost here = inferred@[i as int].alias@;
        assert(all[i as int] == inferred@[i as int].deep_view());
        if blind_for(inferred, inferred[i].alias.as_str()) {
            let _ = blind.insert(inferred[i].alias.clone());
        }
        assert forall|alias: Seq<char>| #[trigger] blind@.contains(alias) <==> alias_is_blind(all, alias) && infers_alias(
            all.take(i + 1),
            alias,
        ) by {
            let now = all.take(i + 1);
            assert(before.contains(alias) <==> alias_is_blind(all, alias) && infers_alias(all.take(i as int), alias));
            if alias == here {
                assert(now[i as int].alias == alias);
            }
            if infers_alias(all.take(i as int), alias) {
                let j = choose|j: int| 0 <= j < i && (#[trigger] all.take(i as int)[j]).alias == alias;
                assert(now[j].alias == alias);
            }
            if infers_alias(now, alias) && alias != here {
                let j = choose|j: int| 0 <= j < i + 1 && (#[trigger] now[j]).alias == alias;
                assert(all.take(i as int)[j].alias == alias);
            }
        }
        i += 1;
    }
    assert(all.take(all.len() as int) == all);
    blind
}

// ---------------------------------------------------------------------------
// Anchors
// ---------------------------------------------------------------------------

pub open spec fn anchor_alias(anchor: CaptureAnchorModel) -> Seq<char> {
    match anchor {
        CaptureAnchorModel::Symbol { alias, .. } => alias,
        CaptureAnchorModel::Infer { alias, .. } => alias,
        CaptureAnchorModel::Literal { alias, .. } => alias,
    }
}

pub open spec fn anchor_file(anchor: CaptureAnchorModel) -> Option<Seq<char>> {
    match anchor {
        CaptureAnchorModel::Symbol { source_file, .. } => Some(source_file),
        CaptureAnchorModel::Infer { source_file, .. } => Some(source_file),
        CaptureAnchorModel::Literal { source_file, .. } => source_file,
    }
}

impl CaptureAnchor {
    pub fn alias(&self) -> (r: &String)
        ensures
            r@ == anchor_alias(self.deep_view()),
    {
        match self {
            CaptureAnchor::Symbol { alias, .. } => alias,
            CaptureAnchor::Infer { alias, .. } => alias,
            CaptureAnchor::Literal { alias, .. } => alias,
        }
    }

    /// The file whose names the anchor's type may use.
    pub fn source_file(&self) -> (r: Option<String>)
        ensures
            r.deep_view() == anchor_file(self.deep_view()),
    {
        match self {
            CaptureAnchor::Symbol { source_file, .. } => Some(source_file.clone()),
            CaptureAnchor::Infer { source_file, .. } => Some(source_file.clone()),
            CaptureAnchor::Literal { source_file, .. } => copy_option(source_file),
        }
    }
}

/// Some anchor of the list stands for the alias.
pub open spec fn has_alias(anchors: Seq<CaptureAnchorModel>, alias: Seq<char>) -> bool {
    exists|i: int| 0 <= i < anchors.len() && anchor_alias(#[trigger] anchors[i]) == alias
}

fn anchors_have(anchors: &Vec<CaptureAnchor>, alias: &str) -> (r: bool)
    ensures
        r == has_alias(anchors.deep_view(), alias@),
{
    let ghost all = anchors.deep_view();
    let mut i: usize = 0;
    while i < anchors.len()
        invariant
            i <= anchors.len(),
            all == anchors.deep_view(),
            forall|j: int| 0 <= j < i ==> anchor_alias(#[trigger] all[j]) != alias@,
        decreases anchors.len() - i,
    {
        assert(all[i as int] == anchors@[i as int].deep_view());
        if same(anchors[i].alias().as_str(), alias) {
            return true;
        }
        i += 1;
    }
    false
}

pub open spec fn positive(n: Option<u32>) -> Option<u32> {
    match n {
        Some(k) if k > 0 => Some(k),
        _ => None,
    }
}

fn keep_positive(n: Option<u32>) -> (r: Option<u32>)
    ensures
        r == positive(n),
{
    match n {
        Some(k) => if k > 0 {
            Some(k)
        } else {
            None
        },
        None => None,
    }
}

/// The list after an explicit symbol request. The symbol is a bare element
/// name, so when no depth is known and the inference was blind the request
/// adds nothing: its array-ness would be a guess.
pub open spec fn after_symbol(
    anchors: Seq<CaptureAnchorModel>,
    request: SymbolRequestModel,
    inferred: Seq<InferredTypeModel>,
    root: Seq<char>,
) -> Seq<CaptureAnchorModel> {
    match request.alias {
        None => anchors,
        Some(alias) => if (request.array_depth is None && alias_is_blind(inferred, alias)) || has_alias(anchors, alias) {
            anchors
        } else {
            anchors.push(
                CaptureAnchorModel::Symbol {
                    alias,
                    symbol_name: request.symbol_name,
                    source_file: path_under(request.source_file, root),
                    anchor_origin: AnchorOrigin::LlmSymbol,
                    array_depth: positive(request.array_depth),
                },
            )
        },
    }
}

/// The anchor of an inference request: the text the inference printed where it
/// is usable, `unknown` where the inferrer decided there is no contract, and
/// else the place to infer at.
pub open spec fn infer_anchor(
    alias: Seq<char>,
    request: InferRequestItemModel,
    inferred: Seq<InferredTypeModel>,
    root: Seq<char>,
) -> CaptureAnchorModel {
    match first_usable(inferred, alias) {
        Some(text) => CaptureAnchorModel::Literal {
            alias,
            type_text: text,
            anchor_origin: AnchorOrigin::DeterministicInfer,
            source_file: Some(path_under(request.file_path, root)),
        },
        None => if alias_is_decided(inferred, alias) {
            CaptureAnchorModel::Literal {
                alias,
                type_text: "unknown"@,
                anchor_origin: AnchorOrigin::DeterministicInfer,
                source_file: None,
            }
        } else {
            CaptureAnchorModel::Infer {
                alias,
                source_file: path_under(request.file_path, root),
                anchor_origin: AnchorOrigin::DeterministicInfer,
                span_start: request.span_start,
                span_end: request.span_end,
                line_number: match positive(request.expression_line) {
                    Some(line) => Some(line),
                    None => positive(Some(request.line_number)),
                },
                expression_text: request.expression_text,
                param_name: if request.infer_kind == InferKind::FunctionParam {
                    request.param_name
                } else {
                    None
                },
            }
        },
    }
}

pub open spec fn after_infer(
    anchors: Seq<CaptureAnchorModel>,
    request: InferRequestItemModel,
    inferred: Seq<InferredTypeModel>,
    root: Seq<char>,
) -> Seq<CaptureAnchorModel> {
    match request.alias {
        None => anchors,
        Some(alias) => if has_alias(anchors, alias) {
            anchors
        } else {
            anchors.push(infer_anchor(alias, request, inferred, root))
        },
    }
}

pub open spec fn after_inline(anchors: Seq<CaptureAnchorModel>, inline: (Seq<char>, Seq<char>)) -> Seq<CaptureAnchorModel> {
    if trimmed(inline.1).len() == 0 || has_alias(anchors, inline.0) {
        anchors
    } else {
        anchors.push(
            CaptureAnchorModel::Literal {
                alias: inline.0,
                type_text: inline.1,
                anchor_origin: AnchorOrigin::LlmSymbol,
                source_file: None,
            },
        )
    }
}

pub open spec fn symbol_stage(
    requests: Seq<SymbolRequestModel>,
    inferred: Seq<InferredTypeModel>,
    root: Seq<char>,
) -> Seq<CaptureAnchorModel>
    decreases requests.len(),
{
    if requests.len() == 0 {
        Seq::empty()
    } else {
        after_symbol(symbol_stage(requests.drop_last(), inferred, root), requests.last(), inferred, root)
    }
}

pub open spec fn infer_stage(
    start: Seq<CaptureAnchorModel>,
    requests: Seq<InferRequestItemModel>,
    inferred: Seq<InferredTypeModel>,
    root: Seq<char>,
) -> Seq<CaptureAnchorModel>
    decreases requests.len(),
{
    if requests.len() == 0 {
        start
    } else {
        after_infer(infer_stage(start, requests.drop_last(), inferred, root), requests.last(), inferred, root)
    }
}

pub open spec fn inline_stage(start: Seq<CaptureAnchorModel>, inline: Seq<(Seq<char>, Seq<char>)>) -> Seq<CaptureAnchorModel>
    decreases inline.len(),
{
    if inline.len() == 0 {
        start
    } else {
        after_inline(inline_stage(start, inline.drop_last()), inline.last())
    }
}

/// The anchors that the type requests give.
pub open spec fn requested_anchors(
    explicit: Seq<SymbolRequestModel>,
    infer: Seq<InferRequestItemModel>,
    inline: Seq<(Seq<char>, Seq<char>)>,
    inferred: Seq<InferredTypeModel>,
    root: Seq<char>,
) -> Seq<CaptureAnchorModel> {
    inline_stage(infer_stage(symbol_stage(explicit, inferred, root), infer, inferred, root), inline)
}

/// The aliases of the manifest that no anchor stands for, in order, each once.
pub open spec fn unrequested(anchors: Seq<CaptureAnchorModel>, manifest: Seq<Seq<char>>) -> Seq<Seq<char>> {
    sorted_distinct(manifest.filter(|alias: Seq<char>| !has_alias(anchors, alias)))
}

pub open spec fn placeholder(alias: Seq<char>) -> CaptureAnchorModel {
    CaptureAnchorModel::Literal {
        alias,
        type_text: "unknown"@,
        anchor_origin: AnchorOrigin::ManifestPlaceholder,
        source_file: None,
    }
}

/// The anchors of a capture: those the requests give, and a placeholder for
/// every other alias of the manifest.
pub open spec fn capture_anchors(
    explicit: Seq<SymbolRequestModel>,
    infer: Seq<InferRequestItemModel>,
    inline: Seq<(Seq<char>, Seq<char>)>,
    inferred: Seq<InferredTypeModel>,
    manifest: Seq<Seq<char>>,
    root: Seq<char>,
) -> Seq<CaptureAnchorModel> {
    let requested = requested_anchors(explicit, infer, inline, inferred, root);
    requested + unrequested(requested, manifest).map_values(|alias: Seq<char>| placeholder(alias))
}

fn push_symbol(anchors: &mut Vec<CaptureAnchor>, request: &SymbolRequest, inferred: &Vec<InferredType>, blind: &TextSet, repo_root: &str)
    requires
        forall|alias: Seq<char>| #[trigger] blind@.contains(alias) <==> alias_is_blind(inferred.deep_view(), alias),
    ensures
        final(anchors).deep_view() == after_symbol(
            old(anchors).deep_view(),
            request.deep_view(),
            inferred.deep_view(),
            repo_root@,
        ),
{
    let ghost before = anchors.deep_view();
    match &request.alias {
        None => {},
        Some(alias) => {
            if request.array_depth.is_none() && blind.contains(alias.as_str()) {
                return;
            }
            if anchors_have(anchors, alias.as_str()) {
                return;
            }
            anchors.push(
                CaptureAnchor::Symbol {
                    alias: alias.clone(),
                    symbol_name: request.symbol_name.clone(),
                    source_file: repo_relative(request.source_file.as_str(), repo_root),
                    anchor_origin: AnchorOrigin::LlmSymbol,
                    array_depth: keep_positive(request.array_depth),
                },
            );
            assert(anchors.deep_view() =~= before.push(anchors@.last().deep_view()));
        },
    }
}

fn anchor_for_infer(alias: &String, request: &InferRequestItem, inferred: &Vec<InferredType>, repo_root: &str) -> (r: CaptureAnchor)
    ensures
        r.deep_view() == infer_anchor(alias@, request.deep_view(), inferred.deep_view(), repo_root@),
{
    match first_usable_text(inferred, alias.as_str()) {
        Some(text) => CaptureAnchor::Literal {
            alias: alias.clone(),
            type_text: text,
            anchor_origin: AnchorOrigin::DeterministicInfer,
            source_file: Some(repo_relative(request.file_path.as_str(), repo_root)),
        },
        None => {
            if decided_for(inferred, alias.as_str()) {
                return CaptureAnchor::Literal {
                    alias: alias.clone(),
                    type_text: "unknown".to_owned(),
                    anchor_origin: AnchorOrigin::DeterministicInfer,
                    source_file: None,
                };
            }
            let line_number = match keep_positive(request.expression_line) {
                Some(line) => Some(line),
                None => keep_positive(Some(request.line_number)),
            };
            let param_name = match request.infer_kind {
                InferKind::FunctionParam => copy_option(&request.param_name),
                _ => None,
            };
            CaptureAnchor::Infer {
                alias: alias.clone(),
                source_file: repo_relative(request.file_path.as_str(), repo_root),
                anchor_origin: AnchorOrigin::DeterministicInfer,
                span_start: request.span_start,
                span_end: request.span_end,
                line_number,
                expression_text: copy_option(&request.expression_text),
                param_name,
            }
        },
    }
}

fn push_infer(anchors: &mut Vec<CaptureAnchor>, request: &InferRequestItem, inferred: &Vec<InferredType>, repo_root: &str)
    ensures
        final(anchors).deep_view() == after_infer(
            old(anchors).deep_view(),
            request.deep_view(),
            inferred.deep_view(),
            repo_root@,
        ),
{
    let ghost before = anchors.deep_view();
    match &request.alias {
        None => {},
        Some(alias) => {
            if anchors_have(anchors, alias.as_str()) {
                return;
            }
            let anchor = anchor_for_infer(alias, request, inferred, repo_root);
            anchors.push(anchor);
            assert(anchors.deep_view() =~= before.push(anchor.deep_view()));
        },
    }
}

fn push_inline(anchors: &mut Vec<CaptureAnchor>, inline: &(String, String))
    ensures
        final(anchors).deep_view() == after_inline(old(anchors).deep_view(), inline.deep_view()),
{
    let ghost before = anchors.deep_view();
    if trim(inline.1.as_str()).as_str().is_empty() || anchors_have(anchors, inline.0.as_str()) {
        return;
    }
    anchors.push(
        CaptureAnchor::Literal {
            alias: inline.0.clone(),
            type_text: inline.1.clone(),
            anchor_origin: AnchorOrigin::LlmSymbol,
            source_file: None,
        },
    );
    assert(anchors.deep_view() =~= before.push(anchors@.last().deep_view()));
}

fn unrequested_aliases(anchors: &Vec<CaptureAnchor>, manifest: &Vec<String>) -> (r: Vec<String>)
    ensures
        r.deep_view() == unrequested(anchors.deep_view(), manifest.deep_view()),
{
    let ghost all = manifest.deep_view();
    let ghost keep = |alias: Seq<char>| !has_alias(anchors.deep_view(), alias);
    let mut r: Vec<String> = Vec::new();
    let mut i: usize = 0;
    assert(all.take(0).filter(keep) == Seq::<Seq<char>>::empty()) by {
        reveal(Seq::filter);
    }
    while i < manifest.len()
        invariant
            i <= manifest.len(),
            all == manifest.deep_view(),
            keep == (|alias: Seq<char>| !has_alias(anchors.deep_view(), alias)),
            texts_ascend(r.deep_view()),
            r.deep_view() == sorted_distinct(all.take(i as int).filter(keep)),
        decreases manifest.len() - i,
    {
        assert(all.take(i + 1).drop_last() == all.take(i as int));
        assert(all.take(i + 1).last() == manifest@[i as int]@);
        reveal(Seq::filter);
        if !anchors_have(anchors, manifest[i].as_str()) {
            insert_sorted(&mut r, manifest[i].clone());
            assert(all.take(i + 1).filter(keep).drop_last() == all.take(i as int).filter(keep));
        }
        i += 1;
    }
    assert(all.take(all.len() as int) == all);
    r
}

/// Derives one capture anchor per alias from the collected type requests: an
/// explicit symbol request wins over an inference request for the same alias,
/// which wins over an inline text. Every alias of the manifest that no request
/// reaches ships as an `unknown` placeholder, so that the captured surface
/// carries each alias a check will import.
pub fn derive_capture_anchors(
    explicit: &Vec<SymbolRequest>,
    infer: &Vec<InferRequestItem>,
    inline_aliases: &Vec<(String, String)>,
    inferred: &Vec<InferredType>,
    manifest_aliases: &Vec<String>,
    repo_root: &str,
) -> (anchors: Vec<CaptureAnchor>)
    ensures
        anchors.deep_view() == capture_anchors(
            explicit.deep_view(),
            infer.deep_view(),
            inline_aliases.deep_view(),
            inferred.deep_view(),
            manifest_aliases.deep_view(),
            repo_root@,
        ),
{
    let blind = blind_inference_aliases(inferred);
    let mut anchors: Vec<CaptureAnchor> = Vec::new();
    let ghost seen = inferred.deep_view();
    let ghost symbols = explicit.deep_view();
    let mut i: usize = 0;
    assert(anchors.deep_view() =~= symbol_stage(symbols.take(0), seen, repo_root@));
    while i < explicit.len()
        invariant
            i <= explicit.len(),
            symbols == explicit.deep_view(),
            seen == inferred.deep_view(),
            forall|alias: Seq<char>| #[trigger] blind@.contains(alias) <==> alias_is_blind(inferred.deep_view(), alias),
            anchors.deep_view() == symbol_stage(symbols.take(i as int), seen, repo_root@),
        decreases explicit.len() - i,
    {
        assert(symbols.take(i + 1).drop_last() == symbols.take(i as int));
        assert(symbols.take(i + 1).last() == explicit@[i as int].deep_view());
        push_symbol(&mut anchors, &explicit[i], inferred, &blind, repo_root);
        i += 1;
    }
    assert(symbols.take(symbols.len() as int) == symbols);
    let ghost first = anchors.deep_view();
    let ghost requests = infer.deep_view();
    let mut j: usize = 0;
    assert(first == infer_stage(first, requests.take(0), seen, repo_root@));
    while j < infer.len()
        invariant
            j <= infer.len(),
            requests == infer.deep_view(),
            seen == inferred.deep_view(),
            anchors.deep_view() == infer_stage(first, requests.take(j as int), seen, repo_root@),
        decreases infer.len() - j,
    {
        assert(requests.take(j + 1).drop_last() == requests.take(j as int));
        assert(requests.take(j + 1).last() == infer@[j as int].deep_view());
        push_infer(&mut anchors, &infer[j], inferred, repo_root);
        j += 1;
    }
    assert(requests.take(requests.len() as int) == requests);
    let ghost second = anchors.deep_view();
    let ghost inline = inline_aliases.deep_view();
    let mut k: usize = 0;
    assert(second == inline_stage(second, inline.take(0)));
    while k < inline_aliases.len()
        invariant
            k <= inline_aliases.len(),
            inline == inline_aliases.deep_view(),
            anchors.deep_view() == inline_stage(second, inline.take(k as int)),
        decreases inline_aliases.len() - k,
    {
        assert(inline.take(k + 1).drop_last() == inline.take(k as int));
        assert(inline.take(k + 1).last() == inline_aliases@[k as int].deep_view());
        push_inline(&mut anchors, &inline_aliases[k]);
        k += 1;
    }
    assert(inline.take(inline.len() as int) == inline);
    let ghost requested = anchors.deep_view();
    let placeholders = unrequested_aliases(&anchors, manifest_aliases);
    let ghost rest = placeholders.deep_view().map_values(|alias: Seq<char>| placeholder(alias));
    let mut n: usize = 0;
    assert(anchors.deep_view() == requested + rest.take(0));
    while n < placeholders.len()
        invariant
            n <= placeholders.len(),
            rest == placeholders.deep_view().map_values(|alias: Seq<char>| placeholder(alias)),
            anchors.deep_view() == requested + rest.take(n as int),
        decreases placeholders.len() - n,
    {
        let ghost before = anchors.deep_view();
        anchors.push(
            CaptureAnchor::Literal {
                alias: placeholders[n].clone(),
                type_text: "unknown".to_owned(),
                anchor_origin: AnchorOrigin::ManifestPlaceholder,
                source_file: None,
            },
        );
        assert(anchors.deep_view() =~= before.push(placeholder(placeholders@[n as int]@)));
        assert(rest.take(n + 1) == rest.take(n as int).push(placeholder(placeholders@[n as int]@)));
        assert(anchors.deep_view() =~= requested + rest.take(n + 1));
        n += 1;
    }
    assert(rest.take(rest.len() as int) == rest);
    anchors
}


// ---------------------------------------------------------------------------
// Laws of the anchors
// ---------------------------------------------------------------------------

/// No two anchors of the list stand for one alias.
pub open spec fn aliases_distinct(anchors: Seq<CaptureAnchorModel>) -> bool {
    forall|i: int, j: int| 0 <= i < j < anchors.len() ==> anchor_alias(#[trigger] anchors[i]) != anchor_alias(#[trigger] anchors[j])
}

proof fn symbol_stage_distinct(requests: Seq<SymbolRequestModel>, inferred: Seq<InferredTypeModel>, root: Seq<char>)
    ensures
        aliases_distinct(symbol_stage(requests, inferred, root)),
    decreases requests.len(),
{
    if requests.len() > 0 {
        symbol_stage_distinct(requests.drop_last(), inferred, root);
    }
}

proof fn infer_stage_distinct(
    start: Seq<CaptureAnchorModel>,
    requests: Seq<InferRequestItemModel>,
    inferred: Seq<InferredTypeModel>,
    root: Seq<char>,
)
    requires
        aliases_distinct(start),
    ensures
        aliases_distinct(infer_stage(start, requests, inferred, root)),
    decreases requests.len(),
{
    if requests.len() > 0 {
        infer_stage_distinct(start, requests.drop_last(), inferred, root);
    }
}

proof fn inline_stage_distinct(start: Seq<CaptureAnchorModel>, inline: Seq<(Seq<char>, Seq<char>)>)
    requires
        aliases_distinct(start),
    ensures
        aliases_distinct(inline_stage(start, inline)),
    decreases inline.len(),
{
    if inline.len() > 0 {
        inline_stage_distinct(start, inline.drop_last());
    }
}

pub proof fn unrequested_are_exactly_the_missing(anchors: Seq<CaptureAnchorModel>, manifest: Seq<Seq<char>>)
    ensures
        texts_ascend(unrequested(anchors, manifest)),
        forall|alias: Seq<char>|
            unrequested(anchors, manifest).contains(alias) <==> manifest.contains(alias) && !has_alias(anchors, alias),
{
    let keep = |alias: Seq<char>| !has_alias(anchors, alias);
    let kept = manifest.filter(keep);
    sorted_distinct_sorts(kept);
    assert forall|alias: Seq<char>| kept.contains(alias) <==> manifest.contains(alias) && !has_alias(anchors, alias) by {
        filter_keeps_exactly(manifest, keep, alias);
    }
}

proof fn filter_keeps_exactly(list: Seq<Seq<char>>, keep: spec_fn(Seq<char>) -> bool, x: Seq<char>)
    ensures
        list.filter(keep).contains(x) <==> list.contains(x) && keep(x),
    decreases list.len(),
{
    reveal(Seq::filter);
    if list.len() > 0 {
        let init = list.drop_last();
        filter_keeps_exactly(init, keep, x);
        let kept = init.filter(keep);
        let all = list.filter(keep);
        if kept.contains(x) {
            let k = choose|k: int| 0 <= k < kept.len() && kept[k] == x;
            assert(all[k] == x);
        }
        if init.contains(x) {
            let k = choose|k: int| 0 <= k < init.len() && init[k] == x;
            assert(list[k] == x);
        }
        if list.contains(x) && x != list.last() {
            let k = choose|k: int| 0 <= k < list.len() && list[k] == x;
            assert(init[k] == x);
        }
        if keep(list.last()) {
            assert(all[all.len() - 1] == list.last());
            if all.contains(x) && x != list.last() {
                let k = choose|k: int| 0 <= k < all.len() && all[k] == x;
                assert(kept[k] == x);
            }
        }
        assert(list[list.len() - 1] == list.last());
    }
}

/// Every alias of a capture has one anchor.
pub proof fn one_anchor_per_alias(
    explicit: Seq<SymbolRequestModel>,
    infer: Seq<InferRequestItemModel>,
    inline: Seq<(Seq<char>, Seq<char>)>,
    inferred: Seq<InferredTypeModel>,
    manifest: Seq<Seq<char>>,
    root: Seq<char>,
)
    ensures
        aliases_distinct(capture_anchors(explicit, infer, inline, inferred, manifest, root)),
{
    let requested = requested_anchors(explicit, infer, inline, inferred, root);
    symbol_stage_distinct(explicit, inferred, root);
    infer_stage_distinct(symbol_stage(explicit, inferred, root), infer, inferred, root);
    inline_stage_distinct(infer_stage(symbol_stage(explicit, inferred, root), infer, inferred, root), inline);
    unrequested_are_exactly_the_missing(requested, manifest);
    let rest = unrequested(requested, manifest);
    let all = capture_anchors(explicit, infer, inline, inferred, manifest, root);
    let n = requested.len();
    assert forall|i: int, j: int| 0 <= i < j < all.len() implies anchor_alias(#[trigger] all[i]) != anchor_alias(
        #[trigger] all[j],
    ) by {
        if j < n {
            assert(all[i] == requested[i]);
            assert(all[j] == requested[j]);
        } else {
            assert(anchor_alias(all[j]) == rest[j - n]);
            assert(rest.contains(rest[j - n]));
            if i < n {
                assert(all[i] == requested[i]);
                assert(!has_alias(requested, rest[j - n]));
            } else {
                assert(anchor_alias(all[i]) == rest[i - n]);
                assert(text_less(rest[i - n], rest[j - n]));
                text_less_asymmetric(rest[i - n], rest[j - n]);
            }
        }
    }
}

/// Every alias of the manifest has an anchor, so a check finds each alias that
/// it imports on the surface.
pub proof fn every_manifest_alias_is_anchored(
    explicit: Seq<SymbolRequestModel>,
    infer: Seq<InferRequestItemModel>,
    inline: Seq<(Seq<char>, Seq<char>)>,
    inferred: Seq<InferredTypeModel>,
    manifest: Seq<Seq<char>>,
    root: Seq<char>,
    alias: Seq<char>,
)
    requires
        manifest.contains(alias),
    ensures
        has_alias(capture_anchors(explicit, infer, inline, inferred, manifest, root), alias),
{
    let requested = requested_anchors(explicit, infer, inline, inferred, root);
    let rest = unrequested(requested, manifest);
    let all = capture_anchors(explicit, infer, inline, inferred, manifest, root);
    unrequested_are_exactly_the_missing(requested, manifest);
    if has_alias(requested, alias) {
        let i = choose|i: int| 0 <= i < requested.len() && anchor_alias(#[trigger] requested[i]) == alias;
        assert(anchor_alias(all[i]) == alias);
    } else {
        assert(rest.contains(alias));
        let i = choose|i: int| 0 <= i < rest.len() && rest[i] == alias;
        assert(anchor_alias(all[requested.len() + i]) == alias);
    }
}

/// An alias whose inference was blind, and for which no caller knows the array
/// depth, is never anchored at a bare symbol: its array-ness is not guessed.
pub proof fn blind_alias_keeps_no_symbol(
    explicit: Seq<SymbolRequestModel>,
    infer: Seq<InferRequestItemModel>,
    inline: Seq<(Seq<char>, Seq<char>)>,
    inferred: Seq<InferredTypeModel>,
    manifest: Seq<Seq<char>>,
    root: Seq<char>,
    alias: Seq<char>,
)
    requires
        alias_is_blind(inferred, alias),
        forall|i: int|
            0 <= i < explicit.len() && (#[trigger] explicit[i]).alias == Some(alias) ==> explicit[i].array_depth is None,
    ensures
        forall|i: int|
            0 <= i < capture_anchors(explicit, infer, inline, inferred, manifest, root).len() && anchor_alias(
                #[trigger] capture_anchors(explicit, infer, inline, inferred, manifest, root)[i],
            ) == alias ==> !(capture_anchors(explicit, infer, inline, inferred, manifest, root)[i] is Symbol),
{
    let first = symbol_stage(explicit, inferred, root);
    blind_alias_not_in_symbols(explicit, inferred, root, alias);
    infer_stage_adds_no_symbol(first, infer, inferred, root);
    inline_stage_adds_no_symbol(infer_stage(first, infer, inferred, root), inline);
    let requested = requested_anchors(explicit, infer, inline, inferred, root);
    let all = capture_anchors(explicit, infer, inline, inferred, manifest, root);
    assert forall|i: int| 0 <= i < all.len() && anchor_alias(#[trigger] all[i]) == alias implies !(all[i] is Symbol) by {
        if i < first.len() {
            assert(all[i] == first[i]);
        } else if i < requested.len() {
            assert(all[i] == requested[i]);
        }
    }
}

proof fn blind_alias_not_in_symbols(
    explicit: Seq<SymbolRequestModel>,
    inferred: Seq<InferredTypeModel>,
    root: Seq<char>,
    alias: Seq<char>,
)
    requires
        alias_is_blind(inferred, alias),
        forall|i: int|
            0 <= i < explicit.len() && (#[trigger] explicit[i]).alias == Some(alias) ==> explicit[i].array_depth is None,
    ensures
        !has_alias(symbol_stage(explicit, inferred, root), alias),
    decreases explicit.len(),
{
    if explicit.len() > 0 {
        let init = explicit.drop_last();
        assert forall|i: int| 0 <= i < init.len() && (#[trigger] init[i]).alias == Some(alias) implies init[i].array_depth is None by {
            assert(init[i] == explicit[i]);
        }
        blind_alias_not_in_symbols(init, inferred, root, alias);
        assert(explicit[explicit.len() - 1] == explicit.last());
    }
}

proof fn infer_stage_adds_no_symbol(
    start: Seq<CaptureAnchorModel>,
    requests: Seq<InferRequestItemModel>,
    inferred: Seq<InferredTypeModel>,
    root: Seq<char>,
)
    ensures
        start.len() <= infer_stage(start, requests, inferred, root).len(),
        forall|i: int| 0 <= i < start.len() ==> #[trigger] infer_stage(start, requests, inferred, root)[i] == start[i],
        forall|i: int|
            start.len() <= i < infer_stage(start, requests, inferred, root).len() ==> !((#[trigger] infer_stage(
                start,
                requests,
                inferred,
                root,
            )[i]) is Symbol),
    decreases requests.len(),
{
    if requests.len() > 0 {
        infer_stage_adds_no_symbol(start, requests.drop_last(), inferred, root);
    }
}

proof fn inline_stage_adds_no_symbol(start: Seq<CaptureAnchorModel>, inline: Seq<(Seq<char>, Seq<char>)>)
    ensures
        start.len() <= inline_stage(start, inline).len(),
        forall|i: int| 0 <= i < start.len() ==> #[trigger] inline_stage(start, inline)[i] == start[i],
        forall|i: int|
            start.len() <= i < inline_stage(start, inline).len() ==> !((#[trigger] inline_stage(start, inline)[i]) is Symbol),
    decreases inline.len(),
{
    if inline.len() > 0 {
        inline_stage_adds_no_symbol(start, inline.drop_last());
    }
}

// ---------------------------------------------------------------------------
// Backfill
// ---------------------------------------------------------------------------

/// The first text for an alias, among the explicit types, that can replace an
/// anchor.
pub open spec fn explicit_backfill(entries: Seq<ManifestEntryModel>, alias: Seq<char>) -> Option<Seq<char>>
    decreases entries.len(),
{
    if entries.len() == 0 {
        None
    } else {
        match explicit_backfill(entries.drop_last(), alias) {
            Some(text) => Some(text),
            None => if entries.last().alias == alias {
                backfill_text(entries.last().type_string)
            } else {
                None
            },
        }
    }
}

/// The first text for an alias, among the inferences, that can replace an
/// anchor.
pub open spec fn inferred_backfill(inferred: Seq<InferredTypeModel>, alias: Seq<char>) -> Option<Seq<char>>
    decreases inferred.len(),
{
    if inferred.len() == 0 {
        None
    } else {
        match inferred_backfill(inferred.drop_last(), alias) {
            Some(text) => Some(text),
            None => if inferred.last().alias == alias {
                backfill_text(inferred.last().type_string)
            } else {
                None
            },
        }
    }
}

/// The text that can replace the anchor of an alias: the explicit expansion
/// where it is usable, and else the inference.
pub open spec fn backfill_for(
    entries: Seq<ManifestEntryModel>,
    inferred: Seq<InferredTypeModel>,
    alias: Seq<char>,
) -> Option<Seq<char>> {
    match explicit_backfill(entries, alias) {
        Some(text) => Some(text),
        None => inferred_backfill(inferred, alias),
    }
}

/// The map holds exactly the texts that a partial function gives.
pub open spec fn holds_texts(map: Map<Seq<char>, Seq<char>>, text: spec_fn(Seq<char>) -> Option<Seq<char>>) -> bool {
    forall|alias: Seq<char>|
        #[trigger] map.contains_key(alias) == (text(alias) is Some) && (text(alias) is Some ==> map[alias] == text(alias)->0)
}

/// Keeps a text for an alias unless it already has one.
fn keep_first(texts: &mut TextMap<String>, alias: &String, text: Option<String>)
    ensures
        final(texts).deep_view() == if old(texts).deep_view().contains_key(alias@) || text is None {
            old(texts).deep_view()
        } else {
            old(texts).deep_view().insert(alias@, text.deep_view()->0)
        },
{
    let ghost before = texts.deep_view();
    match text {
        None => {},
        Some(t) => {
            if !texts.contains_key(alias.as_str()) {
                texts.insert(alias.clone(), t);
                assert(texts.deep_view() =~= before.insert(alias@, t@));
            }
        },
    }
}

/// The literal text that can stand in for each alias: the explicit bundle's
/// expansion wins over the inference, and the first usable text wins within
/// each.
pub fn derive_backfill_texts(explicit_manifest: &Vec<ManifestEntry>, inferred: &Vec<InferredType>) -> (texts: TextMap<String>)
    ensures
        holds_texts(
            texts.deep_view(),
            |alias: Seq<char>| backfill_for(explicit_manifest.deep_view(), inferred.deep_view(), alias),
        ),
{
    let ghost entries = explicit_manifest.deep_view();
    let ghost seen = inferred.deep_view();
    let mut texts: TextMap<String> = TextMap::new();
    let mut i: usize = 0;
    while i < explicit_manifest.len()
        invariant
            i <= explicit_manifest.len(),
            entries == explicit_manifest.deep_view(),
            holds_texts(texts.deep_view(), |alias: Seq<char>| explicit_backfill(entries.take(i as int), alias)),
        decreases explicit_manifest.len() - i,
    {
        assert(entries.take(i + 1).drop_last() == entries.take(i as int));
        assert(entries.take(i + 1).last() == explicit_manifest@[i as int].deep_view());
        let text = usable_backfill_text(explicit_manifest[i].type_string.as_str());
        keep_first(&mut texts, &explicit_manifest[i].alias, text);
        i += 1;
    }
    assert(entries.take(entries.len() as int) == entries);
    let mut j: usize = 0;
    while j < inferred.len()
        invariant
            j <= inferred.len(),
            seen == inferred.deep_view(),
            holds_texts(texts.deep_view(), |alias: Seq<char>| backfill_for(entries, seen.take(j as int), alias)),
        decreases inferred.len() - j,
    {
        assert(seen.take(j + 1).drop_last() == seen.take(j as int));
        assert(seen.take(j + 1).last() == inferred@[j as int].deep_view());
        let ghost before = texts.deep_view();
        let text = usable_backfill_text(inferred[j].type_string.as_str());
        keep_first(&mut texts, &inferred[j].alias, text);
        proof {
            let then = |alias: Seq<char>| backfill_for(entries, seen.take(j as int), alias);
            let now = |alias: Seq<char>| backfill_for(entries, seen.take(j + 1), alias);
            assert(holds_texts(before, then));
            assert forall|alias: Seq<char>| #[trigger] texts.deep_view().contains_key(alias) == (now(alias) is Some) && (now(
                alias,
            ) is Some ==> texts.deep_view()[alias] == now(alias)->0) by {
                assert(before.contains_key(alias) == (then(alias) is Some));
            }
        }
        j += 1;
    }
    assert(seen.take(seen.len() as int) == seen);
    texts
}

/// A record of a demoted alias that is not at the literal tier already and has
/// a text.
pub open spec fn can_backfill(record: CaptureAliasRecordModel, texts: Map<Seq<char>, Seq<char>>) -> bool {
    record.capture_failure_reason is Some && record.anchor_kind != "literal"@ && texts.contains_key(record.alias)
}

pub open spec fn is_backfilled(
    records: Seq<CaptureAliasRecordModel>,
    texts: Map<Seq<char>, Seq<char>>,
    alias: Seq<char>,
) -> bool {
    exists|i: int| 0 <= i < records.len() && (#[trigger] records[i]).alias == alias && can_backfill(records[i], texts)
}

/// An anchor as it enters the second capture.
pub open spec fn rerun_anchor(
    anchor: CaptureAnchorModel,
    records: Seq<CaptureAliasRecordModel>,
    texts: Map<Seq<char>, Seq<char>>,
) -> CaptureAnchorModel {
    let alias = anchor_alias(anchor);
    if is_backfilled(records, texts, alias) {
        CaptureAnchorModel::Literal {
            alias,
            type_text: texts[alias],
            anchor_origin: AnchorOrigin::AnchorBackfill,
            source_file: anchor_file(anchor),
        }
    } else {
        anchor
    }
}

fn backfilled_aliases(records: &Vec<CaptureAliasRecord>, texts: &TextMap<String>) -> (r: TextSet)
    ensures
        forall|alias: Seq<char>|
            #[trigger] r@.contains(alias) <==> is_backfilled(records.deep_view(), texts.deep_view(), alias),
{
    let ghost all = records.deep_view();
    let ghost held = texts.deep_view();
    let mut r = TextSet::new();
    let mut i: usize = 0;
    while i < records.len()
        invariant
            i <= records.len(),
            all == records.deep_view(),
            held == texts.deep_view(),
            forall|alias: Seq<char>| #[trigger] r@.contains(alias) <==> is_backfilled(all.take(i as int), held, alias),
        decreases records.len() - i,
    {
        let ghost before = r@;
        let ghost here = all[i as int];
        assert(here == records@[i as int].deep_view());
        let can = records[i].capture_failure_reason.is_some() && !same(records[i].anchor_kind.as_str(), "literal")
            && texts.contains_key(records[i].alias.as_str());
        if can {
            let _ = r.insert(records[i].alias.clone());
        }
        assert forall|alias: Seq<char>| #[trigger] r@.contains(alias) <==> is_backfilled(all.take(i + 1), held, alias) by {
            let now = all.take(i + 1);
            let then = all.take(i as int);
            assert(before.contains(alias) <==> is_backfilled(then, held, alias));
            assert(now[i as int] == here);
            if is_backfilled(then, held, alias) {
                let k = choose|k: int| 0 <= k < then.len() && (#[trigger] then[k]).alias == alias && can_backfill(then[k], held);
                assert(now[k] == then[k]);
            }
            if is_backfilled(now, held, alias) {
                let k = choose|k: int| 0 <= k < now.len() && (#[trigger] now[k]).alias == alias && can_backfill(now[k], held);
                if k < i {
                    assert(then[k] == now[k]);
                }
            }
        }
        i += 1;
    }
    assert(all.take(all.len() as int) == all);
    r
}

/// Decides the anchors of a second capture: every alias that the first capture
/// demoted and for which a text exists is anchored at that text instead.
/// Nothing comes back when there is no such alias.
pub fn backfill_anchors(
    anchors: &Vec<CaptureAnchor>,
    records: &Vec<CaptureAliasRecord>,
    texts: &TextMap<String>,
) -> (r: Option<(Vec<CaptureAnchor>, TextSet)>)
    ensures
        match r {
            None => forall|alias: Seq<char>| !is_backfilled(records.deep_view(), texts.deep_view(), alias),
            Some((rerun, backfilled)) => {
                &&& exists|alias: Seq<char>| is_backfilled(records.deep_view(), texts.deep_view(), alias)
                &&& forall|alias: Seq<char>|
                    #[trigger] backfilled@.contains(alias) <==> is_backfilled(records.deep_view(), texts.deep_view(), alias)
                &&& rerun.deep_view() == anchors.deep_view().map_values(
                    |anchor: CaptureAnchorModel| rerun_anchor(anchor, records.deep_view(), texts.deep_view()),
                )
            },
        },
{
    let backfilled = backfilled_aliases(records, texts);
    let ghost set = backfilled@;
    if backfilled.is_empty() {
        assert forall|alias: Seq<char>| !is_backfilled(records.deep_view(), texts.deep_view(), alias) by {
            assert(!backfilled@.contains(alias));
        }
        return None;
    }
    proof {
        if forall|alias: Seq<char>| !is_backfilled(records.deep_view(), texts.deep_view(), alias) {
            assert(set =~= Set::<Seq<char>>::empty());
        }
    }
    let ghost all = anchors.deep_view();
    let ghost again = all.map_values(
        |anchor: CaptureAnchorModel| rerun_anchor(anchor, records.deep_view(), texts.deep_view()),
    );
    let mut rerun: Vec<CaptureAnchor> = Vec::new();
    let mut i: usize = 0;
    assert(rerun.deep_view() == again.take(0));
    while i < anchors.len()
        invariant
            i <= anchors.len(),
            all == anchors.deep_view(),
            again == all.map_values(
                |anchor: CaptureAnchorModel| rerun_anchor(anchor, records.deep_view(), texts.deep_view()),
            ),
            forall|alias: Seq<char>|
                #[trigger] backfilled@.contains(alias) <==> is_backfilled(records.deep_view(), texts.deep_view(), alias),
            rerun.deep_view() == again.take(i as int),
        decreases anchors.len() - i,
    {
        let ghost before = rerun.deep_view();
        let anchor = &anchors[i];
        let alias = anchor.alias();
        let next = if backfilled.contains(alias.as_str()) {
            match texts.get(alias.as_str()) {
                Some(text) => CaptureAnchor::Literal {
                    alias: alias.clone(),
                    type_text: text.clone(),
                    anchor_origin: AnchorOrigin::AnchorBackfill,
                    source_file: anchor.source_file(),
                },
                None => anchor.duplicate(),
            }
        } else {
            anchor.duplicate()
        };
        assert(next.deep_view() == rerun_anchor(anchor.deep_view(), records.deep_view(), texts.deep_view()));
        rerun.push(next);
        assert(rerun.deep_view() =~= before.push(next.deep_view()));
        assert(again.take(i + 1) == again.take(i as int).push(again[i as int]));
        i += 1;
    }
    assert(again.take(again.len() as int) == again);
    Some((rerun, backfilled))
}

/// The last record that a capture gives for an alias.
pub open spec fn record_for(records: Seq<CaptureAliasRecordModel>, alias: Seq<char>) -> Option<CaptureAliasRecordModel>
    decreases records.len(),
{
    if records.len() == 0 {
        None
    } else if records.last().alias == alias {
        Some(records.last())
    } else {
        record_for(records.drop_last(), alias)
    }
}

pub open spec fn is_usable(record: CaptureAliasRecordModel) -> bool {
    record.self_check == "ok"@ || record.self_check == "allowlisted_external"@
}

/// The alias was captured without any doubt left on it.
pub open spec fn is_clean(record: CaptureAliasRecordModel) -> bool {
    &&& record.capture_failure_reason is None
    &&& record.self_check == "ok"@
    &&& !record.top_type_at_self_check
    &&& record.any_provenance.len() == 0
}

/// The second record says worse of the alias than the first.
pub open spec fn is_degraded(first: CaptureAliasRecordModel, rerun: CaptureAliasRecordModel) -> bool {
    ||| is_usable(first) && !is_usable(rerun)
    ||| first.capture_failure_reason is None && rerun.capture_failure_reason is Some
    ||| first.any_provenance.len() == 0 && rerun.any_provenance.len() > 0
    ||| !first.top_type_at_self_check && rerun.top_type_at_self_check
}

/// A second capture may be adopted: every backfilled alias is clean in it, and
/// no other alias of the first capture is missing or degraded.
pub open spec fn may_adopt(
    backfilled: Set<Seq<char>>,
    first: Seq<CaptureAliasRecordModel>,
    rerun: Seq<CaptureAliasRecordModel>,
) -> bool {
    &&& forall|alias: Seq<char>|
        #[trigger] backfilled.contains(alias) ==> (record_for(rerun, alias) matches Some(record) && is_clean(record))
    &&& forall|i: int|
        0 <= i < first.len() && !backfilled.contains((#[trigger] first[i]).alias) ==> (record_for(rerun, first[i].alias) matches Some(record)
            && !is_degraded(first[i], record))
}

fn find_record<'a>(records: &'a Vec<CaptureAliasRecord>, alias: &str) -> (r: Option<&'a CaptureAliasRecord>)
    ensures
        match r {
            Some(record) => record_for(records.deep_view(), alias@) == Some(record.deep_view()),
            None => record_for(records.deep_view(), alias@) is None,
        },
{
    let ghost all = records.deep_view();
    let mut i: usize = records.len();
    assert(all.take(all.len() as int) == all);
    while i > 0
        invariant
            i <= records.len(),
            all == records.deep_view(),
            record_for(all, alias@) == record_for(all.take(i as int), alias@),
        decreases i,
    {
        assert(all.take(i as int).drop_last() == all.take(i - 1));
        assert(all.take(i as int).last() == records@[i - 1].deep_view());
        i -= 1;
        if same(records[i].alias.as_str(), alias) {
            return Some(&records[i]);
        }
    }
    None
}

fn record_is_clean(record: &CaptureAliasRecord) -> (r: bool)
    ensures
        r == is_clean(record.deep_view()),
{
    record.capture_failure_reason.is_none() && same(record.self_check.as_str(), "ok") && !record.top_type_at_self_check
        && record.any_provenance.len() == 0
}

fn record_is_usable(record: &CaptureAliasRecord) -> (r: bool)
    ensures
        r == is_usable(record.deep_view()),
{
    same(record.self_check.as_str(), "ok") || same(record.self_check.as_str(), "allowlisted_external")
}

fn record_is_degraded(first: &CaptureAliasRecord, rerun: &CaptureAliasRecord) -> (r: bool)
    ensures
        r == is_degraded(first.deep_view(), rerun.deep_view()),
{
    (record_is_usable(first) && !record_is_usable(rerun)) || (first.capture_failure_reason.is_none()
        && rerun.capture_failure_reason.is_some()) || (first.any_provenance.len() == 0 && rerun.any_provenance.len() > 0)
        || (!first.top_type_at_self_check && rerun.top_type_at_self_check)
}

/// Fail-closed acceptance of a second capture: a backfill that did not verify
/// clean, or that made a sibling worse, keeps the first capture.
pub fn backfill_accepted(backfilled: &TextSet, first: &Vec<CaptureAliasRecord>, rerun: &Vec<CaptureAliasRecord>) -> (r: bool)
    ensures
        r == may_adopt(backfilled@, first.deep_view(), rerun.deep_view()),
{
    let ghost again = rerun.deep_view();
    let ghost before = first.deep_view();
    let count = backfilled.len();
    let mut i: usize = 0;
    while i < count
        invariant
            i <= count,
            count == backfilled.count(),
            again == rerun.deep_view(),
            forall|k: int|
                0 <= k < i ==> (record_for(again, #[trigger] backfilled.at(k)) matches Some(record) && is_clean(record)),
        decreases count - i,
    {
        let alias = backfilled.item(i);
        match find_record(rerun, alias.as_str()) {
            None => {
                return false;
            },
            Some(record) => {
                if !record_is_clean(record) {
                    return false;
                }
            },
        }
        i += 1;
    }
    let mut j: usize = 0;
    while j < first.len()
        invariant
            j <= first.len(),
            again == rerun.deep_view(),
            before == first.deep_view(),
            forall|k: int|
                0 <= k < j && !backfilled@.contains((#[trigger] before[k]).alias) ==> (record_for(again, before[k].alias) matches Some(record)
                    && !is_degraded(before[k], record)),
        decreases first.len() - j,
    {
        assert(before[j as int] == first@[j as int].deep_view());
        if !backfilled.contains(first[j].alias.as_str()) {
            match find_record(rerun, first[j].alias.as_str()) {
                None => {
                    return false;
                },
                Some(record) => {
                    if record_is_degraded(&first[j], record) {
                        return false;
                    }
                },
            }
        }
        j += 1;
    }
    assert forall|alias: Seq<char>| #[trigger] backfilled@.contains(alias) implies (record_for(again, alias) matches Some(record)
        && is_clean(record)) by {
        let k = choose|k: int| 0 <= k < count && #[trigger] backfilled.at(k) == alias;
        assert(record_for(again, backfilled.at(k)) is Some);
    }
    true
}


// ---------------------------------------------------------------------------
// The course of a capture
// ---------------------------------------------------------------------------

/// What a capture of a service does next.
pub enum CaptureStep {
    /// The service ships without a surface.
    GiveUp,
    /// The sidecar captures the anchors as derived.
    CaptureFirst,
    /// The sidecar captures once more, with the demoted aliases at a text.
    CaptureAgain { anchors: Vec<CaptureAnchor>, backfilled: TextSet },
    /// The artifact of the first capture ships; a second one is removed.
    KeepFirst,
    /// The artifact of the second capture ships; the first one is removed.
    AdoptSecond,
}

/// How a capture starts: with no anchors there is nothing to capture.
pub fn first_capture_step(anchors: &Vec<CaptureAnchor>) -> (step: CaptureStep)
    ensures
        anchors@.len() == 0 ==> step is GiveUp,
        anchors@.len() > 0 ==> step is CaptureFirst,
{
    if anchors.len() == 0 {
        CaptureStep::GiveUp
    } else {
        CaptureStep::CaptureFirst
    }
}

/// What follows the first capture, which gave its records or failed.
pub fn step_after_first(
    anchors: &Vec<CaptureAnchor>,
    records: Option<&Vec<CaptureAliasRecord>>,
    texts: &TextMap<String>,
) -> (step: CaptureStep)
    ensures
        match records {
            None => step is GiveUp,
            Some(records) => match step {
                CaptureStep::KeepFirst => forall|alias: Seq<char>|
                    !is_backfilled(records.deep_view(), texts.deep_view(), alias),
                CaptureStep::CaptureAgain { anchors: rerun, backfilled } => {
                    &&& exists|alias: Seq<char>| is_backfilled(records.deep_view(), texts.deep_view(), alias)
                    &&& forall|alias: Seq<char>|
                        #[trigger] backfilled@.contains(alias) <==> is_backfilled(
                            records.deep_view(),
                            texts.deep_view(),
                            alias,
                        )
                    &&& rerun.deep_view() == anchors.deep_view().map_values(
                        |anchor: CaptureAnchorModel| rerun_anchor(anchor, records.deep_view(), texts.deep_view()),
                    )
                },
                _ => false,
            },
        },
{
    match records {
        None => CaptureStep::GiveUp,
        Some(records) => match backfill_anchors(anchors, records, texts) {
            None => CaptureStep::KeepFirst,
            Some((rerun, backfilled)) => CaptureStep::CaptureAgain { anchors: rerun, backfilled },
        },
    }
}

/// What follows the second capture: it is adopted only when it verified clean.
pub fn step_after_second(
    backfilled: &TextSet,
    first: &Vec<CaptureAliasRecord>,
    second: Option<&Vec<CaptureAliasRecord>>,
) -> (step: CaptureStep)
    ensures
        match second {
            Some(rerun) if may_adopt(backfilled@, first.deep_view(), rerun.deep_view()) => step is AdoptSecond,
            _ => step is KeepFirst,
        },
{
    match second {
        Some(rerun) => if backfill_accepted(backfilled, first, rerun) {
            CaptureStep::AdoptSecond
        } else {
            CaptureStep::KeepFirst
        },
        None => CaptureStep::KeepFirst,
    }
}

} // verus!
