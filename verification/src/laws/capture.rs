//! What the anchors of a capture are for.

use crate::engine::capture::{
    backfill_for, can_backfill, explicit_backfill, inferred_backfill, is_backfilled, is_clean, is_degraded, may_adopt,
    record_for, rerun_anchor, alias_is_blind, alias_is_decided, anchor_alias, capture_anchors, first_usable, has_alias,
    infer_stage, inline_stage, symbol_stage, unrequested, unrequested_are_exactly_the_missing,
};
use crate::engine::path_under;
use crate::engine::type_texts::{backfill_text, is_declaration, is_bare_top_type, is_blind, is_decided, decides_abstain, usable_text};
use crate::laws::texts::{a_prefix_is_taken_off, prefix_and_rest};
use crate::sidecar::{
    AnchorOrigin, CaptureAliasRecordModel, CaptureAnchorModel, InferKind, InferRequestItemModel, InferredTypeModel, ManifestEntryModel, SymbolRequestModel,
};
use crate::text::{has_prefix, text_less, trimmed};
use vstd::prelude::*;

verus! {

/// The alias that an anchor stands for.
pub open spec fn stands_for(anchor: CaptureAnchorModel) -> Seq<char> {
    match anchor {
        CaptureAnchorModel::Symbol { alias, symbol_name, source_file, anchor_origin, array_depth } => alias,
        CaptureAnchorModel::Infer {
            alias,
            source_file,
            anchor_origin,
            span_start,
            span_end,
            line_number,
            expression_text,
            param_name,
        } => alias,
        CaptureAnchorModel::Literal { alias, type_text, anchor_origin, source_file } => alias,
    }
}

/// An inference ran for the alias, and all that ran for it saw neither a symbol
/// nor a depth, only a top type.
pub open spec fn nothing_was_seen(inferred: Seq<InferredTypeModel>, alias: Seq<char>) -> bool {
    &&& exists|i: int| 0 <= i < inferred.len() && (#[trigger] inferred[i]).alias == alias
    &&& forall|i: int|
        0 <= i < inferred.len() && (#[trigger] inferred[i]).alias == alias ==> inferred[i].primary_type_symbol is None
            && inferred[i].array_depth is None && is_bare_top_type(inferred[i].type_string)
}

/// A symbol request that counts: it names an alias, and its array depth is known
/// or need not be guessed.
pub open spec fn counts(request: SymbolRequestModel, inferred: Seq<InferredTypeModel>) -> bool {
    request.alias is Some && (request.array_depth is Some || !nothing_was_seen(inferred, request.alias->0))
}

/// The first symbol request for its alias that counts.
pub open spec fn counts_first(explicit: Seq<SymbolRequestModel>, inferred: Seq<InferredTypeModel>, i: int) -> bool {
    &&& 0 <= i < explicit.len()
    &&& counts(explicit[i], inferred)
    &&& forall|j: int| 0 <= j < i && counts(#[trigger] explicit[j], inferred) ==> explicit[j].alias != explicit[i].alias
}

pub open spec fn has_symbol(explicit: Seq<SymbolRequestModel>, inferred: Seq<InferredTypeModel>, alias: Seq<char>) -> bool {
    exists|i: int| 0 <= i < explicit.len() && counts(#[trigger] explicit[i], inferred) && explicit[i].alias == Some(alias)
}

/// The first inference request for its alias.
pub open spec fn asks_first(infer: Seq<InferRequestItemModel>, i: int) -> bool {
    &&& 0 <= i < infer.len()
    &&& infer[i].alias is Some
    &&& forall|j: int| 0 <= j < i ==> (#[trigger] infer[j]).alias != infer[i].alias
}

pub open spec fn has_inference(infer: Seq<InferRequestItemModel>, alias: Seq<char>) -> bool {
    exists|i: int| 0 <= i < infer.len() && (#[trigger] infer[i]).alias == Some(alias)
}

pub open spec fn says_something(inline: (Seq<char>, Seq<char>)) -> bool {
    trimmed(inline.1).len() > 0
}

/// The first text for its alias that says something.
pub open spec fn says_first(inline: Seq<(Seq<char>, Seq<char>)>, i: int) -> bool {
    &&& 0 <= i < inline.len()
    &&& says_something(inline[i])
    &&& forall|j: int| 0 <= j < i && says_something(#[trigger] inline[j]) ==> inline[j].0 != inline[i].0
}

pub open spec fn has_text_for(inline: Seq<(Seq<char>, Seq<char>)>, alias: Seq<char>) -> bool {
    exists|i: int| 0 <= i < inline.len() && says_something(#[trigger] inline[i]) && inline[i].0 == alias
}

/// The anchor names what the request names.
pub open spec fn names_the_symbol(anchor: CaptureAnchorModel, request: SymbolRequestModel, root: Seq<char>) -> bool {
    anchor matches CaptureAnchorModel::Symbol { alias, symbol_name, source_file, anchor_origin, array_depth } && {
        &&& request.alias == Some(alias)
        &&& symbol_name == request.symbol_name
        &&& source_file == path_under(request.source_file, root)
        &&& anchor_origin == AnchorOrigin::LlmSymbol
        &&& array_depth == (if request.array_depth == Some(0u32) {
            None
        } else {
            request.array_depth
        })
    }
}

/// The first usable text among the inferences for an alias.
pub open spec fn is_first_usable(inferred: Seq<InferredTypeModel>, alias: Seq<char>, j: int) -> bool {
    &&& 0 <= j < inferred.len()
    &&& inferred[j].alias == alias
    &&& usable_text(inferred[j].type_string) is Some
    &&& forall|m: int| 0 <= m < j && (#[trigger] inferred[m]).alias == alias ==> usable_text(inferred[m].type_string) is None
}

pub open spec fn some_usable(inferred: Seq<InferredTypeModel>, alias: Seq<char>) -> bool {
    exists|j: int| 0 <= j < inferred.len() && (#[trigger] inferred[j]).alias == alias && usable_text(inferred[j].type_string) is Some
}

/// The inference gave up on a shape because it decided that there is no payload:
/// it saw a top type, and a finding at the root of the type says so.
pub open spec fn decided_at_the_root(inf: InferredTypeModel) -> bool {
    is_bare_top_type(inf.type_string) && exists|k: int|
        0 <= k < inf.any_provenance.len() && (#[trigger] inf.any_provenance[k]).path.len() == 0 && (inf.any_provenance[k].reason
            == "no_success_payload"@ || inf.any_provenance[k].reason == "no_request_body"@ || inf.any_provenance[k].reason
            == "projected_value_only"@)
}

pub open spec fn some_decided(inferred: Seq<InferredTypeModel>, alias: Seq<char>) -> bool {
    exists|j: int| 0 <= j < inferred.len() && (#[trigger] inferred[j]).alias == alias && decided_at_the_root(inferred[j])
}

/// The anchor stands where the request points: at the text that was inferred
/// there; at `unknown` where the inference decided that there is no contract; or
/// at the place itself.
pub open spec fn stands_where_asked(
    anchor: CaptureAnchorModel,
    request: InferRequestItemModel,
    inferred: Seq<InferredTypeModel>,
    root: Seq<char>,
) -> bool {
    let wanted = request.alias->0;
    if some_usable(inferred, wanted) {
        anchor matches CaptureAnchorModel::Literal { alias, type_text, anchor_origin, source_file } && alias == wanted
            && anchor_origin == AnchorOrigin::DeterministicInfer && source_file == Some(path_under(request.file_path, root))
            && exists|j: int| #[trigger]
            is_first_usable(inferred, wanted, j) && usable_text(inferred[j].type_string) == Some(type_text)
    } else if some_decided(inferred, wanted) {
        anchor matches CaptureAnchorModel::Literal { alias, type_text, anchor_origin, source_file } && alias == wanted
            && anchor_origin == AnchorOrigin::DeterministicInfer && type_text == "unknown"@ && source_file is None
    } else {
        anchor matches CaptureAnchorModel::Infer {
            alias,
            source_file,
            anchor_origin,
            span_start,
            span_end,
            line_number,
            expression_text,
            param_name,
        } && {
            &&& alias == wanted
            &&& source_file == path_under(request.file_path, root)
            &&& anchor_origin == AnchorOrigin::DeterministicInfer
            &&& span_start == request.span_start
            &&& span_end == request.span_end
            &&& expression_text == request.expression_text
            &&& (request.expression_line is Some && request.expression_line->0 > 0) ==> line_number == request.expression_line
            &&& !(request.expression_line is Some && request.expression_line->0 > 0) && request.line_number > 0
                ==> line_number == Some(request.line_number)
            &&& !(request.expression_line is Some && request.expression_line->0 > 0) && request.line_number == 0
                ==> line_number is None
            &&& request.infer_kind == InferKind::FunctionParam ==> param_name == request.param_name
            &&& request.infer_kind != InferKind::FunctionParam ==> param_name is None
        }
    }
}

proof fn blind_is_nothing_seen(inferred: Seq<InferredTypeModel>, alias: Seq<char>)
    ensures
        alias_is_blind(inferred, alias) <==> nothing_was_seen(inferred, alias),
{
    if alias_is_blind(inferred, alias) {
        assert forall|i: int| 0 <= i < inferred.len() && (#[trigger] inferred[i]).alias == alias implies inferred[i].primary_type_symbol is None
            && inferred[i].array_depth is None && is_bare_top_type(inferred[i].type_string) by {
            assert(is_blind(inferred[i]));
        }
    }
    if nothing_was_seen(inferred, alias) {
        assert forall|i: int| 0 <= i < inferred.len() && (#[trigger] inferred[i]).alias == alias implies is_blind(
            inferred[i],
        ) by {}
    }
}

proof fn symbols_hold_what_counts(requests: Seq<SymbolRequestModel>, inferred: Seq<InferredTypeModel>, root: Seq<char>, alias: Seq<char>)
    ensures
        has_alias(symbol_stage(requests, inferred, root), alias) <==> has_symbol(requests, inferred, alias),
    decreases requests.len(),
{
    let all = symbol_stage(requests, inferred, root);
    if requests.len() > 0 {
        let init = requests.drop_last();
        let last = requests[requests.len() - 1];
        let before = symbol_stage(init, inferred, root);
        symbols_hold_what_counts(init, inferred, root, alias);
        if last.alias is Some {
            blind_is_nothing_seen(inferred, last.alias->0);
        }
        if has_alias(before, alias) {
            let k = choose|k: int| 0 <= k < before.len() && anchor_alias(#[trigger] before[k]) == alias;
            assert(anchor_alias(all[k]) == alias);
            let i = choose|i: int| 0 <= i < init.len() && counts(#[trigger] init[i], inferred) && init[i].alias == Some(alias);
            assert(counts(requests[i], inferred) && requests[i].alias == Some(alias));
        }
        if has_alias(all, alias) && !has_alias(before, alias) {
            let k = choose|k: int| 0 <= k < all.len() && anchor_alias(#[trigger] all[k]) == alias;
            if k < before.len() {
                assert(anchor_alias(before[k]) == alias);
            }
            assert(counts(requests[requests.len() - 1], inferred));
        }
        if has_symbol(requests, inferred, alias) && !has_symbol(init, inferred, alias) {
            let i = choose|i: int|
                0 <= i < requests.len() && counts(#[trigger] requests[i], inferred) && requests[i].alias == Some(alias);
            if i < init.len() {
                assert(counts(init[i], inferred) && init[i].alias == Some(alias));
            }
            assert(anchor_alias(all[all.len() - 1]) == alias);
        }
    }
}

proof fn a_symbol_comes_from_a_request(
    requests: Seq<SymbolRequestModel>,
    inferred: Seq<InferredTypeModel>,
    root: Seq<char>,
    k: int,
) -> (i: int)
    requires
        0 <= k < symbol_stage(requests, inferred, root).len(),
    ensures
        counts_first(requests, inferred, i),
        names_the_symbol(symbol_stage(requests, inferred, root)[k], requests[i], root),
    decreases requests.len(),
{
    let init = requests.drop_last();
    let last = requests[requests.len() - 1];
    let before = symbol_stage(init, inferred, root);
    if k < before.len() {
        let i = a_symbol_comes_from_a_request(init, inferred, root, k);
        assert(requests[i] == init[i]);
        assert forall|j: int| 0 <= j < i && counts(#[trigger] requests[j], inferred) implies requests[j].alias
            != requests[i].alias by {
            assert(init[j] == requests[j]);
        }
        i
    } else {
        let i = requests.len() - 1;
        blind_is_nothing_seen(inferred, last.alias->0);
        symbols_hold_what_counts(init, inferred, root, last.alias->0);
        assert forall|j: int| 0 <= j < i && counts(#[trigger] requests[j], inferred) implies requests[j].alias
            != requests[i].alias by {
            assert(init[j] == requests[j]);
        }
        i
    }
}

proof fn inferences_hold_what_is_asked(
    start: Seq<CaptureAnchorModel>,
    requests: Seq<InferRequestItemModel>,
    inferred: Seq<InferredTypeModel>,
    root: Seq<char>,
    alias: Seq<char>,
)
    ensures
        infer_stage(start, requests, inferred, root).len() >= start.len(),
        infer_stage(start, requests, inferred, root).take(start.len() as int) == start,
        has_alias(infer_stage(start, requests, inferred, root), alias) <==> has_alias(start, alias) || has_inference(
            requests,
            alias,
        ),
    decreases requests.len(),
{
    let all = infer_stage(start, requests, inferred, root);
    if requests.len() > 0 {
        let init = requests.drop_last();
        let last = requests[requests.len() - 1];
        let before = infer_stage(start, init, inferred, root);
        inferences_hold_what_is_asked(start, init, inferred, root, alias);
        assert(all.take(start.len() as int) =~= start) by {
            assert(before.take(start.len() as int) =~= start);
            assert forall|k: int| 0 <= k < start.len() implies all[k] == start[k] by {
                assert(before.take(start.len() as int)[k] == before[k]);
            }
        }
        if has_alias(before, alias) {
            let k = choose|k: int| 0 <= k < before.len() && anchor_alias(#[trigger] before[k]) == alias;
            assert(anchor_alias(all[k]) == alias);
        }
        if has_inference(init, alias) {
            let i = choose|i: int| 0 <= i < init.len() && (#[trigger] init[i]).alias == Some(alias);
            assert(requests[i].alias == Some(alias));
        }
        if has_alias(all, alias) && !has_alias(before, alias) {
            let k = choose|k: int| 0 <= k < all.len() && anchor_alias(#[trigger] all[k]) == alias;
            if k < before.len() {
                assert(anchor_alias(before[k]) == alias);
            }
            assert(requests[requests.len() - 1].alias == Some(alias));
        }
        if has_inference(requests, alias) && !has_inference(init, alias) {
            let i = choose|i: int| 0 <= i < requests.len() && (#[trigger] requests[i]).alias == Some(alias);
            if i < init.len() {
                assert(init[i].alias == Some(alias));
            }
            if !has_alias(before, alias) {
                assert(anchor_alias(all[all.len() - 1]) == alias);
            }
        }
    } else {
        assert(all.take(start.len() as int) =~= start);
    }
}

proof fn decisions_are_at_the_root(inferred: Seq<InferredTypeModel>, alias: Seq<char>)
    ensures
        alias_is_decided(inferred, alias) <==> some_decided(inferred, alias),
{
    assert forall|j: int| 0 <= j < inferred.len() implies (is_decided(#[trigger] inferred[j]) <==> decided_at_the_root(
        inferred[j],
    )) by {
        let inf = inferred[j];
        if is_decided(inf) {
            let k = choose|k: int| 0 <= k < inf.any_provenance.len() && decides_abstain(#[trigger] inf.any_provenance[k]);
            assert(inf.any_provenance[k].path.len() == 0);
        }
        if decided_at_the_root(inf) {
            let k = choose|k: int|
                0 <= k < inf.any_provenance.len() && (#[trigger] inf.any_provenance[k]).path.len() == 0 && (
                inf.any_provenance[k].reason == "no_success_payload"@ || inf.any_provenance[k].reason == "no_request_body"@
                    || inf.any_provenance[k].reason == "projected_value_only"@);
            assert(decides_abstain(inf.any_provenance[k]));
        }
    }
    if alias_is_decided(inferred, alias) {
        let j = choose|j: int| 0 <= j < inferred.len() && (#[trigger] inferred[j]).alias == alias && is_decided(inferred[j]);
        assert(decided_at_the_root(inferred[j]));
    }
    if some_decided(inferred, alias) {
        let j = choose|j: int|
            0 <= j < inferred.len() && (#[trigger] inferred[j]).alias == alias && decided_at_the_root(inferred[j]);
        assert(is_decided(inferred[j]));
    }
}

proof fn first_usable_is_first(inferred: Seq<InferredTypeModel>, alias: Seq<char>)
    ensures
        first_usable(inferred, alias) is Some <==> some_usable(inferred, alias),
        first_usable(inferred, alias) is Some ==> exists|j: int| #[trigger]
            is_first_usable(inferred, alias, j) && usable_text(inferred[j].type_string) == first_usable(inferred, alias),
    decreases inferred.len(),
{
    if inferred.len() > 0 {
        let init = inferred.drop_last();
        let last = inferred[inferred.len() - 1];
        first_usable_is_first(init, alias);
        if first_usable(init, alias) is Some {
            let j = choose|j: int| #[trigger]
                is_first_usable(init, alias, j) && usable_text(init[j].type_string) == first_usable(init, alias);
            assert(inferred[j] == init[j]);
            assert forall|m: int| 0 <= m < j && (#[trigger] inferred[m]).alias == alias implies usable_text(
                inferred[m].type_string,
            ) is None by {
                assert(init[m] == inferred[m]);
            }
            assert(is_first_usable(inferred, alias, j));
        } else {
            assert forall|m: int| 0 <= m < inferred.len() - 1 && (#[trigger] inferred[m]).alias == alias implies usable_text(
                inferred[m].type_string,
            ) is None by {
                assert(init[m] == inferred[m]);
            }
            if first_usable(inferred, alias) is Some {
                assert(is_first_usable(inferred, alias, inferred.len() - 1));
                assert(inferred[inferred.len() - 1].alias == alias);
            }
            if some_usable(inferred, alias) {
                let j = choose|j: int|
                    0 <= j < inferred.len() && (#[trigger] inferred[j]).alias == alias && usable_text(inferred[j].type_string) is Some;
                assert(j == inferred.len() - 1);
            }
        }
    }
}

proof fn an_inference_comes_from_a_request(
    start: Seq<CaptureAnchorModel>,
    requests: Seq<InferRequestItemModel>,
    inferred: Seq<InferredTypeModel>,
    root: Seq<char>,
    k: int,
) -> (i: int)
    requires
        start.len() <= k < infer_stage(start, requests, inferred, root).len(),
    ensures
        asks_first(requests, i),
        stands_where_asked(infer_stage(start, requests, inferred, root)[k], requests[i], inferred, root),
        !has_alias(start, requests[i].alias->0),
        stands_for(infer_stage(start, requests, inferred, root)[k]) == requests[i].alias->0,
    decreases requests.len(),
{
    let init = requests.drop_last();
    let last = requests[requests.len() - 1];
    let before = infer_stage(start, init, inferred, root);
    if k < before.len() {
        let i = an_inference_comes_from_a_request(start, init, inferred, root, k);
        assert(requests[i] == init[i]);
        assert forall|j: int| 0 <= j < i implies (#[trigger] requests[j]).alias != requests[i].alias by {
            assert(init[j] == requests[j]);
        }
        i
    } else {
        let i = requests.len() - 1;
        let alias = last.alias->0;
        inferences_hold_what_is_asked(start, init, inferred, root, alias);
        assert forall|j: int| 0 <= j < i implies (#[trigger] requests[j]).alias != requests[i].alias by {
            assert(init[j] == requests[j]);
        }
        first_usable_is_first(inferred, alias);
        decisions_are_at_the_root(inferred, alias);
        i
    }
}

proof fn texts_hold_what_is_said(start: Seq<CaptureAnchorModel>, inline: Seq<(Seq<char>, Seq<char>)>, alias: Seq<char>)
    ensures
        inline_stage(start, inline).len() >= start.len(),
        inline_stage(start, inline).take(start.len() as int) == start,
        has_alias(inline_stage(start, inline), alias) <==> has_alias(start, alias) || has_text_for(inline, alias),
    decreases inline.len(),
{
    let all = inline_stage(start, inline);
    if inline.len() > 0 {
        let init = inline.drop_last();
        let last = inline[inline.len() - 1];
        let before = inline_stage(start, init);
        texts_hold_what_is_said(start, init, alias);
        assert(all.take(start.len() as int) =~= start) by {
            assert forall|k: int| 0 <= k < start.len() implies all[k] == start[k] by {
                assert(before.take(start.len() as int)[k] == before[k]);
            }
        }
        if has_alias(before, alias) {
            let k = choose|k: int| 0 <= k < before.len() && anchor_alias(#[trigger] before[k]) == alias;
            assert(anchor_alias(all[k]) == alias);
        }
        if has_text_for(init, alias) {
            let i = choose|i: int| 0 <= i < init.len() && says_something(#[trigger] init[i]) && init[i].0 == alias;
            assert(says_something(inline[i]) && inline[i].0 == alias);
        }
        if has_alias(all, alias) && !has_alias(before, alias) {
            let k = choose|k: int| 0 <= k < all.len() && anchor_alias(#[trigger] all[k]) == alias;
            if k < before.len() {
                assert(anchor_alias(before[k]) == alias);
            }
            assert(says_something(inline[inline.len() - 1]));
        }
        if has_text_for(inline, alias) && !has_text_for(init, alias) {
            let i = choose|i: int| 0 <= i < inline.len() && says_something(#[trigger] inline[i]) && inline[i].0 == alias;
            if i < init.len() {
                assert(says_something(init[i]) && init[i].0 == alias);
            }
            if !has_alias(before, alias) {
                assert(anchor_alias(all[all.len() - 1]) == alias);
            }
        }
    } else {
        assert(all.take(start.len() as int) =~= start);
    }
}

proof fn a_text_comes_from_an_alias(start: Seq<CaptureAnchorModel>, inline: Seq<(Seq<char>, Seq<char>)>, k: int) -> (i: int)
    requires
        start.len() <= k < inline_stage(start, inline).len(),
    ensures
        says_first(inline, i),
        inline_stage(start, inline)[k] == (CaptureAnchorModel::Literal {
            alias: inline[i].0,
            type_text: inline[i].1,
            anchor_origin: AnchorOrigin::LlmSymbol,
            source_file: None,
        }),
        !has_alias(start, inline[i].0),
    decreases inline.len(),
{
    let init = inline.drop_last();
    let last = inline[inline.len() - 1];
    let before = inline_stage(start, init);
    if k < before.len() {
        let i = a_text_comes_from_an_alias(start, init, k);
        assert(inline[i] == init[i]);
        assert forall|j: int| 0 <= j < i && says_something(#[trigger] inline[j]) implies inline[j].0 != inline[i].0 by {
            assert(init[j] == inline[j]);
        }
        i
    } else {
        let i = inline.len() - 1;
        texts_hold_what_is_said(start, init, last.0);
        assert forall|j: int| 0 <= j < i && says_something(#[trigger] inline[j]) implies inline[j].0 != inline[i].0 by {
            assert(init[j] == inline[j]);
        }
        i
    }
}

/// Every anchor of a capture is what was asked for its alias. A symbol request
/// comes first, and its anchor names the very symbol, file and depth of the
/// first that counts; then an inference request, and its anchor stands where the
/// first of them points; then a text; and what only the manifest names is a
/// placeholder.
pub proof fn an_anchor_is_what_was_asked(
    explicit: Seq<SymbolRequestModel>,
    infer: Seq<InferRequestItemModel>,
    inline: Seq<(Seq<char>, Seq<char>)>,
    inferred: Seq<InferredTypeModel>,
    manifest: Seq<Seq<char>>,
    root: Seq<char>,
    k: int,
)
    requires
        0 <= k < capture_anchors(explicit, infer, inline, inferred, manifest, root).len(),
    ensures
        ({
            let anchor = capture_anchors(explicit, infer, inline, inferred, manifest, root)[k];
            let alias = stands_for(anchor);
            if has_symbol(explicit, inferred, alias) {
                exists|i: int| #[trigger]
                    counts_first(explicit, inferred, i) && names_the_symbol(anchor, explicit[i], root)
            } else if has_inference(infer, alias) {
                exists|i: int| #[trigger]
                    asks_first(infer, i) && infer[i].alias == Some(alias) && stands_where_asked(anchor, infer[i], inferred, root)
            } else if has_text_for(inline, alias) {
                exists|i: int| #[trigger]
                    says_first(inline, i) && anchor == (CaptureAnchorModel::Literal {
                        alias: inline[i].0,
                        type_text: inline[i].1,
                        anchor_origin: AnchorOrigin::LlmSymbol,
                        source_file: None,
                    })
            } else {
                manifest.contains(alias) && anchor == (CaptureAnchorModel::Literal {
                    alias,
                    type_text: "unknown"@,
                    anchor_origin: AnchorOrigin::ManifestPlaceholder,
                    source_file: None,
                })
            }
        }),
{
    let first = symbol_stage(explicit, inferred, root);
    let second = infer_stage(first, infer, inferred, root);
    let third = inline_stage(second, inline);
    let all = capture_anchors(explicit, infer, inline, inferred, manifest, root);
    let anchor = all[k];
    let alias = stands_for(anchor);
    assert(alias == anchor_alias(anchor));
    symbols_hold_what_counts(explicit, inferred, root, alias);
    inferences_hold_what_is_asked(first, infer, inferred, root, alias);
    texts_hold_what_is_said(second, inline, alias);
    unrequested_are_exactly_the_missing(third, manifest);
    if k < first.len() {
        assert(second.take(first.len() as int)[k] == second[k]);
        assert(third.take(second.len() as int)[k] == third[k]);
        assert(anchor == first[k]);
        let i = a_symbol_comes_from_a_request(explicit, inferred, root, k);
        assert(anchor_alias(first[k]) == alias);
        assert(has_symbol(explicit, inferred, alias));
        assert(counts_first(explicit, inferred, i));
    } else if k < second.len() {
        assert(third.take(second.len() as int)[k] == third[k]);
        assert(anchor == second[k]);
        let i = an_inference_comes_from_a_request(first, infer, inferred, root, k);
        assert(infer[i].alias == Some(alias));
        assert(asks_first(infer, i));
    } else if k < third.len() {
        assert(anchor == third[k]);
        let i = a_text_comes_from_an_alias(second, inline, k);
        assert(says_something(inline[i]));
        assert(says_first(inline, i));
    } else {
        let rest = unrequested(third, manifest);
        assert(rest.contains(rest[k - third.len()]));
        assert(alias == rest[k - third.len()]);
    }
}

/// Every alias that is asked for has an anchor.
pub proof fn what_is_asked_has_an_anchor(
    explicit: Seq<SymbolRequestModel>,
    infer: Seq<InferRequestItemModel>,
    inline: Seq<(Seq<char>, Seq<char>)>,
    inferred: Seq<InferredTypeModel>,
    manifest: Seq<Seq<char>>,
    root: Seq<char>,
    alias: Seq<char>,
)
    ensures
        (exists|k: int|
            0 <= k < capture_anchors(explicit, infer, inline, inferred, manifest, root).len() && stands_for(
                #[trigger] capture_anchors(explicit, infer, inline, inferred, manifest, root)[k],
            ) == alias) <==> has_symbol(explicit, inferred, alias) || has_inference(infer, alias) || has_text_for(inline, alias)
            || manifest.contains(alias),
{
    let first = symbol_stage(explicit, inferred, root);
    let second = infer_stage(first, infer, inferred, root);
    let third = inline_stage(second, inline);
    let all = capture_anchors(explicit, infer, inline, inferred, manifest, root);
    symbols_hold_what_counts(explicit, inferred, root, alias);
    inferences_hold_what_is_asked(first, infer, inferred, root, alias);
    texts_hold_what_is_said(second, inline, alias);
    unrequested_are_exactly_the_missing(third, manifest);
    let rest = unrequested(third, manifest);
    if has_alias(third, alias) {
        let k = choose|k: int| 0 <= k < third.len() && anchor_alias(#[trigger] third[k]) == alias;
        assert(stands_for(all[k]) == alias);
    } else if manifest.contains(alias) {
        assert(rest.contains(alias));
        let k = choose|k: int| 0 <= k < rest.len() && rest[k] == alias;
        assert(stands_for(all[third.len() + k]) == alias);
    }
    if exists|k: int| 0 <= k < all.len() && stands_for(#[trigger] all[k]) == alias {
        let k = choose|k: int| 0 <= k < all.len() && stands_for(#[trigger] all[k]) == alias;
        if k < third.len() {
            assert(anchor_alias(third[k]) == alias);
        } else {
            assert(rest.contains(rest[k - third.len()]));
        }
    }
}

// ---------------------------------------------------------------------------
// Backfill
// ---------------------------------------------------------------------------

/// The text is a type with a shape, and not a whole declaration.
pub open spec fn can_stand_in(text: Seq<char>) -> bool {
    usable_text(text) is Some && forall|i: int|
        0 <= i < declaring_words().len() ==> !has_prefix(usable_text(text)->0, #[trigger] declaring_words()[i])
}

/// The words that begin a declaration.
pub open spec fn declaring_words() -> Seq<Seq<char>> {
    seq![
        "interface "@,
        "type "@,
        "class "@,
        "enum "@,
        "namespace "@,
        "declare "@,
        "export "@,
        "abstract "@,
        "function "@,
    ]
}

/// The first explicit type of an alias that can stand in for it.
pub open spec fn stands_in_first(entries: Seq<ManifestEntryModel>, alias: Seq<char>, i: int) -> bool {
    &&& 0 <= i < entries.len()
    &&& entries[i].alias == alias
    &&& can_stand_in(entries[i].type_string)
    &&& forall|j: int| 0 <= j < i && (#[trigger] entries[j]).alias == alias ==> !can_stand_in(entries[j].type_string)
}

pub open spec fn some_stands_in(entries: Seq<ManifestEntryModel>, alias: Seq<char>) -> bool {
    exists|i: int| 0 <= i < entries.len() && (#[trigger] entries[i]).alias == alias && can_stand_in(entries[i].type_string)
}

/// The first inferred type of an alias that can stand in for it.
pub open spec fn inferred_stands_in_first(inferred: Seq<InferredTypeModel>, alias: Seq<char>, i: int) -> bool {
    &&& 0 <= i < inferred.len()
    &&& inferred[i].alias == alias
    &&& can_stand_in(inferred[i].type_string)
    &&& forall|j: int| 0 <= j < i && (#[trigger] inferred[j]).alias == alias ==> !can_stand_in(inferred[j].type_string)
}

pub open spec fn some_inferred_stands_in(inferred: Seq<InferredTypeModel>, alias: Seq<char>) -> bool {
    exists|i: int| 0 <= i < inferred.len() && (#[trigger] inferred[i]).alias == alias && can_stand_in(inferred[i].type_string)
}

proof fn backfill_texts_stand_in(text: Seq<char>)
    ensures
        backfill_text(text) is Some <==> can_stand_in(text),
        backfill_text(text) is Some ==> backfill_text(text) == usable_text(text),
{
    if usable_text(text) is Some {
        let bare = usable_text(text)->0;
        let words = declaring_words();
        if is_declaration(bare) {
            assert(has_prefix(bare, words[0]) || has_prefix(bare, words[1]) || has_prefix(bare, words[2]) || has_prefix(
                bare,
                words[3],
            ) || has_prefix(bare, words[4]) || has_prefix(bare, words[5]) || has_prefix(bare, words[6]) || has_prefix(
                bare,
                words[7],
            ) || has_prefix(bare, words[8]));
        } else {
            assert forall|i: int| 0 <= i < words.len() implies !has_prefix(bare, #[trigger] words[i]) by {}
        }
    }
}

proof fn explicit_texts_stand_in(entries: Seq<ManifestEntryModel>, alias: Seq<char>)
    ensures
        explicit_backfill(entries, alias) is Some <==> some_stands_in(entries, alias),
        explicit_backfill(entries, alias) is Some ==> exists|i: int| #[trigger]
            stands_in_first(entries, alias, i) && explicit_backfill(entries, alias) == usable_text(entries[i].type_string),
    decreases entries.len(),
{
    if entries.len() > 0 {
        let n = entries.len() - 1;
        let init = entries.drop_last();
        explicit_texts_stand_in(init, alias);
        backfill_texts_stand_in(entries[n].type_string);
        assert(entries.last() == entries[n]);
        if explicit_backfill(init, alias) is Some {
            let i = choose|i: int| #[trigger]
                stands_in_first(init, alias, i) && explicit_backfill(init, alias) == usable_text(init[i].type_string);
            assert(entries[i] == init[i]);
            assert forall|j: int| 0 <= j < i && (#[trigger] entries[j]).alias == alias implies !can_stand_in(
                entries[j].type_string,
            ) by {
                assert(init[j] == entries[j]);
            }
            assert(stands_in_first(entries, alias, i));
        } else {
            assert forall|j: int| 0 <= j < n && (#[trigger] entries[j]).alias == alias implies !can_stand_in(
                entries[j].type_string,
            ) by {
                assert(init[j] == entries[j]);
            }
            if explicit_backfill(entries, alias) is Some {
                assert(stands_in_first(entries, alias, n));
            }
        }
    }
}

proof fn inferred_texts_stand_in(inferred: Seq<InferredTypeModel>, alias: Seq<char>)
    ensures
        inferred_backfill(inferred, alias) is Some <==> some_inferred_stands_in(inferred, alias),
        inferred_backfill(inferred, alias) is Some ==> exists|i: int| #[trigger]
            inferred_stands_in_first(inferred, alias, i) && inferred_backfill(inferred, alias) == usable_text(
                inferred[i].type_string,
            ),
    decreases inferred.len(),
{
    if inferred.len() > 0 {
        let n = inferred.len() - 1;
        let init = inferred.drop_last();
        inferred_texts_stand_in(init, alias);
        backfill_texts_stand_in(inferred[n].type_string);
        assert(inferred.last() == inferred[n]);
        if inferred_backfill(init, alias) is Some {
            let i = choose|i: int| #[trigger]
                inferred_stands_in_first(init, alias, i) && inferred_backfill(init, alias) == usable_text(init[i].type_string);
            assert(inferred[i] == init[i]);
            assert forall|j: int| 0 <= j < i && (#[trigger] inferred[j]).alias == alias implies !can_stand_in(
                inferred[j].type_string,
            ) by {
                assert(init[j] == inferred[j]);
            }
            assert(inferred_stands_in_first(inferred, alias, i));
        } else {
            assert forall|j: int| 0 <= j < n && (#[trigger] inferred[j]).alias == alias implies !can_stand_in(
                inferred[j].type_string,
            ) by {
                assert(init[j] == inferred[j]);
            }
            if inferred_backfill(inferred, alias) is Some {
                assert(inferred_stands_in_first(inferred, alias, n));
            }
        }
    }
}

/// What stands in for an alias is its first explicit type that can, and only
/// where there is none, its first inferred type that can.
pub proof fn what_stands_in_for_an_alias(
    entries: Seq<ManifestEntryModel>,
    inferred: Seq<InferredTypeModel>,
    alias: Seq<char>,
)
    ensures
        if some_stands_in(entries, alias) {
            exists|i: int| #[trigger]
                stands_in_first(entries, alias, i) && backfill_for(entries, inferred, alias) == usable_text(
                    entries[i].type_string,
                )
        } else if some_inferred_stands_in(inferred, alias) {
            exists|i: int| #[trigger]
                inferred_stands_in_first(inferred, alias, i) && backfill_for(entries, inferred, alias) == usable_text(
                    inferred[i].type_string,
                )
        } else {
            backfill_for(entries, inferred, alias) is None
        },
{
    explicit_texts_stand_in(entries, alias);
    inferred_texts_stand_in(inferred, alias);
}

/// The first capture failed for an alias, at an anchor that is no text, and a
/// text can stand in.
pub open spec fn wants_text(records: Seq<CaptureAliasRecordModel>, texts: Map<Seq<char>, Seq<char>>, alias: Seq<char>) -> bool {
    texts.contains_key(alias) && exists|i: int|
        0 <= i < records.len() && (#[trigger] records[i]).alias == alias && records[i].capture_failure_reason is Some
            && records[i].anchor_kind != "literal"@
}

/// In a second capture an alias that wants a text is anchored at its text, and
/// keeps its file; every other anchor is as it was.
pub proof fn a_second_capture_takes_the_texts(
    anchor: CaptureAnchorModel,
    records: Seq<CaptureAliasRecordModel>,
    texts: Map<Seq<char>, Seq<char>>,
)
    ensures
        is_backfilled(records, texts, stands_for(anchor)) <==> wants_text(records, texts, stands_for(anchor)),
        !wants_text(records, texts, stands_for(anchor)) ==> rerun_anchor(anchor, records, texts) == anchor,
        wants_text(records, texts, stands_for(anchor)) ==> (rerun_anchor(anchor, records, texts) matches CaptureAnchorModel::Literal {
            alias,
            type_text,
            anchor_origin,
            source_file,
        } && alias == stands_for(anchor) && type_text == texts[alias] && anchor_origin == AnchorOrigin::AnchorBackfill
            && match anchor {
            CaptureAnchorModel::Symbol { source_file: file, .. } => source_file == Some(file),
            CaptureAnchorModel::Infer { source_file: file, .. } => source_file == Some(file),
            CaptureAnchorModel::Literal { source_file: file, .. } => source_file == file,
        }),
{
    let alias = stands_for(anchor);
    assert(alias == anchor_alias(anchor));
    if is_backfilled(records, texts, alias) {
        let i = choose|i: int| 0 <= i < records.len() && (#[trigger] records[i]).alias == alias && can_backfill(records[i], texts);
        assert(records[i].alias == alias);
    }
    if wants_text(records, texts, alias) {
        let i = choose|i: int|
            0 <= i < records.len() && (#[trigger] records[i]).alias == alias && records[i].capture_failure_reason is Some
                && records[i].anchor_kind != "literal"@;
        assert(can_backfill(records[i], texts));
    }
}

/// The last record of an alias.
pub open spec fn is_last_record(records: Seq<CaptureAliasRecordModel>, alias: Seq<char>, i: int) -> bool {
    &&& 0 <= i < records.len()
    &&& records[i].alias == alias
    &&& forall|j: int| i < j < records.len() ==> (#[trigger] records[j]).alias != alias
}

proof fn a_record_is_the_last(records: Seq<CaptureAliasRecordModel>, alias: Seq<char>)
    ensures
        record_for(records, alias) matches Some(record) ==> exists|i: int| #[trigger]
            is_last_record(records, alias, i) && records[i] == record,
    decreases records.len(),
{
    if records.len() > 0 {
        let n = records.len() - 1;
        let init = records.drop_last();
        a_record_is_the_last(init, alias);
        if records[n].alias == alias {
            assert(is_last_record(records, alias, n));
        } else if record_for(init, alias) is Some {
            let i = choose|i: int| #[trigger] is_last_record(init, alias, i) && init[i] == record_for(init, alias)->0;
            assert(records[i] == init[i]);
            assert forall|j: int| i < j < records.len() implies (#[trigger] records[j]).alias != alias by {
                if j < n {
                    assert(init[j] == records[j]);
                }
            }
            assert(is_last_record(records, alias, i));
        }
    }
}

/// A second capture that is adopted captured every alias that took a text
/// without a doubt, and lost and worsened none of the others.
pub proof fn an_adopted_capture_is_no_worse(
    backfilled: Set<Seq<char>>,
    first: Seq<CaptureAliasRecordModel>,
    rerun: Seq<CaptureAliasRecordModel>,
    i: int,
) -> (k: int)
    requires
        may_adopt(backfilled, first, rerun),
        0 <= i < first.len(),
    ensures
        is_last_record(rerun, first[i].alias, k),
        backfilled.contains(first[i].alias) ==> rerun[k].capture_failure_reason is None && rerun[k].self_check == "ok"@
            && !rerun[k].top_type_at_self_check && rerun[k].any_provenance.len() == 0,
        !backfilled.contains(first[i].alias) && (first[i].self_check == "ok"@ || first[i].self_check == "allowlisted_external"@)
            ==> rerun[k].self_check == "ok"@ || rerun[k].self_check == "allowlisted_external"@,
        !backfilled.contains(first[i].alias) && first[i].capture_failure_reason is None ==> rerun[k].capture_failure_reason is None,
        !backfilled.contains(first[i].alias) && first[i].any_provenance.len() == 0 ==> rerun[k].any_provenance.len() == 0,
        !backfilled.contains(first[i].alias) && !first[i].top_type_at_self_check ==> !rerun[k].top_type_at_self_check,
{
    let alias = first[i].alias;
    assert(backfilled.contains(alias) || !backfilled.contains(first[i].alias));
    a_record_is_the_last(rerun, alias);
    let record = record_for(rerun, alias)->0;
    choose|k: int| #[trigger] is_last_record(rerun, alias, k) && rerun[k] == record
}

/// A second capture without a doubt on any alias, and that has every alias of
/// the first, is adopted.
pub proof fn a_clean_capture_is_adopted(
    backfilled: Set<Seq<char>>,
    first: Seq<CaptureAliasRecordModel>,
    rerun: Seq<CaptureAliasRecordModel>,
)
    requires
        forall|i: int|
            0 <= i < rerun.len() ==> (#[trigger] rerun[i]).capture_failure_reason is None && rerun[i].self_check == "ok"@
                && !rerun[i].top_type_at_self_check && rerun[i].any_provenance.len() == 0,
        forall|i: int| 0 <= i < first.len() ==> has_record(rerun, (#[trigger] first[i]).alias),
        forall|alias: Seq<char>| #[trigger] backfilled.contains(alias) ==> has_record(rerun, alias),
    ensures
        may_adopt(backfilled, first, rerun),
{
    assert forall|alias: Seq<char>| #[trigger] has_record(rerun, alias) implies (record_for(rerun, alias) matches Some(record)
        && is_clean(record)) by {
        a_record_is_found(rerun, alias);
        a_record_is_the_last(rerun, alias);
        let k = choose|k: int| #[trigger] is_last_record(rerun, alias, k) && rerun[k] == record_for(rerun, alias)->0;
        assert(is_clean(rerun[k]));
    }
    assert forall|i: int| 0 <= i < first.len() && !backfilled.contains((#[trigger] first[i]).alias) implies (record_for(
        rerun,
        first[i].alias,
    ) matches Some(record) && !is_degraded(first[i], record)) by {
        assert(has_record(rerun, first[i].alias));
    }
}

pub open spec fn has_record(records: Seq<CaptureAliasRecordModel>, alias: Seq<char>) -> bool {
    exists|i: int| 0 <= i < records.len() && (#[trigger] records[i]).alias == alias
}

proof fn a_record_is_found(records: Seq<CaptureAliasRecordModel>, alias: Seq<char>)
    requires
        has_record(records, alias),
    ensures
        record_for(records, alias) is Some,
    decreases records.len(),
{
    let i = choose|i: int| 0 <= i < records.len() && (#[trigger] records[i]).alias == alias;
    let n = records.len() - 1;
    if records[n].alias != alias {
        assert(records.drop_last()[i] == records[i]);
        a_record_is_found(records.drop_last(), alias);
    }
}

/// A file under a root reads from the root, and any other as it is.
pub proof fn a_file_reads_from_the_root(root: Seq<char>, rest: Seq<char>, path: Seq<char>)
    requires
        root.len() > 0 ==> root.last() != '/',
    ensures
        path == root + seq!['/'] + rest ==> path_under(path, root) == rest,
        path_under(path, root) == rest ==> path == rest || path == root + seq!['/'] + rest,
{
    reveal_strlit("/");
    assert("/"@ =~= seq!['/']);
    let base = root + "/"@;
    prefix_and_rest(path, base);
    a_prefix_is_taken_off(base, rest);
}

// ---------------------------------------------------------------------------
// Order
// ---------------------------------------------------------------------------

proof fn symbols_come_in_order(requests: Seq<SymbolRequestModel>, inferred: Seq<InferredTypeModel>, root: Seq<char>, k: int, m: int) -> (r: (int, int))
    requires
        0 <= k < m < symbol_stage(requests, inferred, root).len(),
    ensures
        r.0 < r.1,
        counts_first(requests, inferred, r.0),
        counts_first(requests, inferred, r.1),
        names_the_symbol(symbol_stage(requests, inferred, root)[k], requests[r.0], root),
        names_the_symbol(symbol_stage(requests, inferred, root)[m], requests[r.1], root),
    decreases requests.len(),
{
    let init = requests.drop_last();
    let before = symbol_stage(init, inferred, root);
    if m < before.len() {
        let (i, j) = symbols_come_in_order(init, inferred, root, k, m);
        assert(requests[i] == init[i]);
        assert(requests[j] == init[j]);
        assert forall|q: int| 0 <= q < j && counts(#[trigger] requests[q], inferred) implies requests[q].alias
            != requests[j].alias by {
            assert(init[q] == requests[q]);
        }
        assert forall|q: int| 0 <= q < i && counts(#[trigger] requests[q], inferred) implies requests[q].alias
            != requests[i].alias by {
            assert(init[q] == requests[q]);
        }
        (i, j)
    } else {
        let i = a_symbol_comes_from_a_request(init, inferred, root, k);
        assert(requests[i] == init[i]);
        assert forall|q: int| 0 <= q < i && counts(#[trigger] requests[q], inferred) implies requests[q].alias
            != requests[i].alias by {
            assert(init[q] == requests[q]);
        }
        let j = a_symbol_comes_from_a_request(requests, inferred, root, m);
        if j < init.len() {
            assert(init[j] == requests[j]);
            symbols_hold_what_counts(init, inferred, root, requests[j].alias->0);
        }
        (i, j)
    }
}

/// Symbol anchors come in the order of the requests that they come from, and
/// before all others; placeholders come last, in the order of their aliases.
pub proof fn anchors_come_in_order(
    explicit: Seq<SymbolRequestModel>,
    infer: Seq<InferRequestItemModel>,
    inline: Seq<(Seq<char>, Seq<char>)>,
    inferred: Seq<InferredTypeModel>,
    manifest: Seq<Seq<char>>,
    root: Seq<char>,
    k: int,
    m: int,
)
    requires
        0 <= k < m < capture_anchors(explicit, infer, inline, inferred, manifest, root).len(),
    ensures
        ({
            let all = capture_anchors(explicit, infer, inline, inferred, manifest, root);
            let a = all[k];
            let b = all[m];
            &&& b is Symbol ==> a is Symbol && exists|i: int, j: int|
                #![trigger explicit[i], explicit[j]]
                i < j && counts_first(explicit, inferred, i) && counts_first(explicit, inferred, j) && names_the_symbol(
                    a,
                    explicit[i],
                    root,
                ) && names_the_symbol(b, explicit[j], root)
            &&& is_placeholder(a) ==> is_placeholder(b) && text_less(stands_for(a), stands_for(b))
        }),
{
    let first = symbol_stage(explicit, inferred, root);
    let second = infer_stage(first, infer, inferred, root);
    let third = inline_stage(second, inline);
    let all = capture_anchors(explicit, infer, inline, inferred, manifest, root);
    let rest = unrequested(third, manifest);
    let (a, b) = (all[k], all[m]);
    inferences_hold_what_is_asked(first, infer, inferred, root, stands_for(a));
    texts_hold_what_is_said(second, inline, stands_for(a));
    unrequested_are_exactly_the_missing(third, manifest);
    assert forall|x: int| first.len() <= x < all.len() implies !(#[trigger] all[x] is Symbol) by {
        if x < second.len() {
            assert(third.take(second.len() as int)[x] == third[x]);
            let i = an_inference_comes_from_a_request(first, infer, inferred, root, x);
        } else if x < third.len() {
            let i = a_text_comes_from_an_alias(second, inline, x);
        }
    }
    assert forall|x: int| 0 <= x < first.len() implies #[trigger] all[x] == first[x] by {
        assert(second.take(first.len() as int)[x] == second[x]);
        assert(third.take(second.len() as int)[x] == third[x]);
    }
    if b is Symbol {
        assert(m < first.len());
        assert(b == first[m]);
        assert(a == first[k]);
        let i = a_symbol_comes_from_a_request(explicit, inferred, root, k);
        let (i, j) = symbols_come_in_order(explicit, inferred, root, k, m);
        assert(explicit[i].alias is Some && explicit[j].alias is Some);
    }
    if is_placeholder(a) {
        if k < first.len() {
            let i = a_symbol_comes_from_a_request(explicit, inferred, root, k);
            assert(a == first[k]);
        } else if k < second.len() {
            assert(third.take(second.len() as int)[k] == third[k]);
            let i = an_inference_comes_from_a_request(first, infer, inferred, root, k);
        } else if k < third.len() {
            let i = a_text_comes_from_an_alias(second, inline, k);
        }
        assert(k >= third.len());
        assert(stands_for(a) == rest[k - third.len()]);
        assert(stands_for(b) == rest[m - third.len()]);
    }
}

/// The anchor only holds a place for an alias of the manifest.
pub open spec fn is_placeholder(anchor: CaptureAnchorModel) -> bool {
    anchor matches CaptureAnchorModel::Literal { anchor_origin, .. } && anchor_origin == AnchorOrigin::ManifestPlaceholder
}

} // verus!
