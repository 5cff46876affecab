//! Retyping the calls of consumers that left a pair open, and the whole of a check.

use crate::cloud_storage::{CloudRepoData, CloudRepoDataModel, ManifestTypeKind};
use crate::duplicate::Duplicate;
use crate::engine::outcomes::{
    consumer_blamed, is_blamed, not_compared, outcome_of, outcomes_of_check, pair_blames_consumer, probed, probed_outcomes,
    unprobed_outcomes, CallLocatorModel, CheckReply, CheckReplyModel, LocalConsumerModel, LocalConsumers, PairCheckOutcome,
    PairCheckOutcomeModel,
};
use crate::engine::pairs::{
    build_check_pairs, check_pairs, has_surface, only_a_missing_surface_is_judged_before, pair_keys_ascend, service_id,
    service_id_of, surface_is_current, BuiltPair, BuiltPairModel,
};
use crate::engine::type_texts::{contains_disqualifying_top_type, has_top_type};
use crate::ordered::{TextMap, TextSet};
use crate::sidecar::{
    ProbeProtocol, RetypeDiagnostic, RetypeDiagnosticModel, RetypeItem, RetypeItemModel, RetypeOutcome, RetypeOutcomeModel,
    RetypeVerdict, VerdictBucket,
};
use crate::sorting::{by_rank, by_rank_sorts, place, placed, Ranked, Sortable};
use crate::text::{
    concat, concat3, copy_option, decimal, decimal_is_read_back, insert_sorted, is_ascii_digit, join, joined, less, print_number, replace_char, same,
    sorted_distinct, text_less, text_less_asymmetric, text_less_irreflexive, text_less_total, text_less_transitive,
    texts_ascend, trim, trimmed, with_char_replaced,
};
use vstd::prelude::*;

verus! {

// ---------------------------------------------------------------------------
// Items to retype
// ---------------------------------------------------------------------------

/// The item that retypes the consumer's call of a pair. Only an HTTP response
/// pair that its consumer left open qualifies, only where the consumer was
/// scanned in this run, and only against a producer type without a top type.
pub open spec fn retype_item(
    pair: BuiltPairModel,
    blamed: Set<Seq<char>>,
    local: Map<Seq<char>, LocalConsumerModel>,
) -> Option<RetypeItemModel> {
    if !blamed.contains(pair.spec.pair_key) || pair.spec.protocol != ProbeProtocol::Http || pair.type_kind
        != ManifestTypeKind::Response || !local.contains_key(pair.consumer_service)
        || !local[pair.consumer_service].calls.contains_key(pair.consumer_alias) {
        None
    } else {
        match pair.producer_expanded {
            Some(text) => if has_top_type(text) || trimmed(text).len() == 0 {
                None
            } else {
                Some(item_at(pair, local[pair.consumer_service].calls[pair.consumer_alias], text))
            },
            None => None,
        }
    }
}

pub open spec fn item_at(pair: BuiltPairModel, call: CallLocatorModel, producer_type: Seq<char>) -> RetypeItemModel {
    RetypeItemModel {
        item_id: pair.spec.pair_key,
        file_path: call.file_path,
        line_number: call.line_number,
        span_start: call.span_start,
        span_end: call.span_end,
        expression_text: call.expression_text,
        expression_line: call.expression_line,
        producer_type,
        wire: true,
    }
}

/// The items of one consumer service, in the order of the pairs.
pub open spec fn items_of(
    pairs: Seq<BuiltPairModel>,
    blamed: Set<Seq<char>>,
    local: Map<Seq<char>, LocalConsumerModel>,
    service: Seq<char>,
) -> Seq<RetypeItemModel>
    decreases pairs.len(),
{
    if pairs.len() == 0 {
        Seq::empty()
    } else {
        let before = items_of(pairs.drop_last(), blamed, local, service);
        match retype_item(pairs.last(), blamed, local) {
            Some(item) => if pairs.last().consumer_service == service {
                before.push(item)
            } else {
                before
            },
            None => before,
        }
    }
}

/// The services that have items, in the order of the pairs, as often as they
/// have items.
pub open spec fn item_services(
    pairs: Seq<BuiltPairModel>,
    blamed: Set<Seq<char>>,
    local: Map<Seq<char>, LocalConsumerModel>,
) -> Seq<Seq<char>>
    decreases pairs.len(),
{
    if pairs.len() == 0 {
        Seq::empty()
    } else {
        let before = item_services(pairs.drop_last(), blamed, local);
        if retype_item(pairs.last(), blamed, local) is Some {
            before.push(pairs.last().consumer_service)
        } else {
            before
        }
    }
}

/// The items of every service that has some, service by service in order.
pub open spec fn items_by_service(
    pairs: Seq<BuiltPairModel>,
    blamed: Set<Seq<char>>,
    local: Map<Seq<char>, LocalConsumerModel>,
) -> Seq<(Seq<char>, Seq<RetypeItemModel>)> {
    sorted_distinct(item_services(pairs, blamed, local)).map_values(
        |service: Seq<char>| (service, items_of(pairs, blamed, local, service)),
    )
}

fn item_for(pair: &BuiltPair, blamed: &TextSet, local: &LocalConsumers) -> (r: Option<RetypeItem>)
    ensures
        r.deep_view() == retype_item(pair.deep_view(), blamed@, local.deep_view()),
{
    if !blamed.contains(pair.spec.pair_key.as_str()) {
        return None;
    }
    match (pair.spec.protocol, pair.type_kind) {
        (ProbeProtocol::Http, ManifestTypeKind::Response) => {},
        _ => {
            return None;
        },
    }
    let consumer = match local.by_service.get(pair.consumer_service.as_str()) {
        Some(consumer) => consumer,
        None => {
            return None;
        },
    };
    assert(local.deep_view()[pair.consumer_service@] == consumer.deep_view());
    let call = match consumer.calls.get(pair.consumer_alias.as_str()) {
        Some(call) => call,
        None => {
            return None;
        },
    };
    assert(consumer.calls.deep_view()[pair.consumer_alias@] == call.deep_view());
    match &pair.producer_expanded {
        Some(text) => {
            if contains_disqualifying_top_type(text.as_str()) || trim(text.as_str()).as_str().is_empty() {
                return None;
            }
            Some(
                RetypeItem {
                    item_id: pair.spec.pair_key.clone(),
                    file_path: call.file_path.clone(),
                    line_number: call.line_number,
                    span_start: call.span_start,
                    span_end: call.span_end,
                    expression_text: copy_option(&call.expression_text),
                    expression_line: call.expression_line,
                    producer_type: text.clone(),
                    wire: true,
                },
            )
        },
        None => None,
    }
}

fn services_with_items(pairs: &Vec<BuiltPair>, blamed: &TextSet, local: &LocalConsumers) -> (r: Vec<String>)
    ensures
        r.deep_view() == sorted_distinct(item_services(pairs.deep_view(), blamed@, local.deep_view())),
{
    let ghost all = pairs.deep_view();
    let ghost held = local.deep_view();
    let mut r: Vec<String> = Vec::new();
    let mut i: usize = 0;
    assert(r.deep_view() =~= sorted_distinct(item_services(all.take(0), blamed@, held)));
    while i < pairs.len()
        invariant
            i <= pairs.len(),
            all == pairs.deep_view(),
            held == local.deep_view(),
            texts_ascend(r.deep_view()),
            r.deep_view() == sorted_distinct(item_services(all.take(i as int), blamed@, held)),
        decreases pairs.len() - i,
    {
        assert(all.take(i + 1).drop_last() == all.take(i as int));
        assert(all.take(i + 1).last() == pairs@[i as int].deep_view());
        if item_for(&pairs[i], blamed, local).is_some() {
            insert_sorted(&mut r, pairs[i].consumer_service.clone());
            proof {
                let list = item_services(all.take(i + 1), blamed@, held);
                assert(list.drop_last() =~= item_services(all.take(i as int), blamed@, held));
            }
        }
        i += 1;
    }
    assert(all.take(all.len() as int) == all);
    r
}

fn items_for_service(pairs: &Vec<BuiltPair>, blamed: &TextSet, local: &LocalConsumers, service: &str) -> (r: Vec<RetypeItem>)
    ensures
        r.deep_view() == items_of(pairs.deep_view(), blamed@, local.deep_view(), service@),
{
    let ghost all = pairs.deep_view();
    let ghost held = local.deep_view();
    let mut r: Vec<RetypeItem> = Vec::new();
    let mut i: usize = 0;
    assert(r.deep_view() =~= items_of(all.take(0), blamed@, held, service@));
    while i < pairs.len()
        invariant
            i <= pairs.len(),
            all == pairs.deep_view(),
            held == local.deep_view(),
            r.deep_view() == items_of(all.take(i as int), blamed@, held, service@),
        decreases pairs.len() - i,
    {
        let ghost before = r.deep_view();
        assert(all.take(i + 1).drop_last() == all.take(i as int));
        assert(all.take(i + 1).last() == pairs@[i as int].deep_view());
        match item_for(&pairs[i], blamed, local) {
            Some(item) => {
                if same(pairs[i].consumer_service.as_str(), service) {
                    r.push(item);
                    assert(r.deep_view() =~= before.push(item.deep_view()));
                }
            },
            None => {},
        }
        i += 1;
    }
    assert(all.take(all.len() as int) == all);
    r
}

/// The retype items to send, grouped by consumer service so that each
/// service's program is built once.
pub fn retype_items(pairs: &Vec<BuiltPair>, blamed: &TextSet, local: &LocalConsumers) -> (r: Vec<(String, Vec<RetypeItem>)>)
    ensures
        r.deep_view() == items_by_service(pairs.deep_view(), blamed@, local.deep_view()),
{
    let services = services_with_items(pairs, blamed, local);
    let ghost names = services.deep_view();
    let ghost grouped = items_by_service(pairs.deep_view(), blamed@, local.deep_view());
    let mut r: Vec<(String, Vec<RetypeItem>)> = Vec::new();
    let mut i: usize = 0;
    assert(r.deep_view() =~= grouped.take(0));
    while i < services.len()
        invariant
            i <= services.len(),
            names == services.deep_view(),
            grouped == names.map_values(
                |service: Seq<char>| (service, items_of(pairs.deep_view(), blamed@, local.deep_view(), service)),
            ),
            r.deep_view() == grouped.take(i as int),
        decreases services.len() - i,
    {
        let ghost before = r.deep_view();
        let items = items_for_service(pairs, blamed, local, services[i].as_str());
        assert(names[i as int] == services@[i as int]@);
        r.push((services[i].clone(), items));
        assert(r.deep_view() =~= before.push((names[i as int], items.deep_view())));
        assert(grouped.take(i + 1) == grouped.take(i as int).push(grouped[i as int]));
        i += 1;
    }
    assert(grouped.take(grouped.len() as int) == grouped);
    r
}

// ---------------------------------------------------------------------------
// Answers
// ---------------------------------------------------------------------------

/// Said on every pair that retyping decided.
pub const RETYPE_NOTE: &'static str = "judged by retyping the consumer's call with the producer's response type and type-checking the consumer's own code";

/// The places at which the consumer uses what the producer does not return.
pub open spec fn mismatch_places(file: Seq<char>, diagnostics: Seq<RetypeDiagnosticModel>) -> Seq<Seq<char>> {
    diagnostics.map_values(
        |d: RetypeDiagnosticModel| file + ":"@ + decimal(d.line as nat) + ": "@ + d.message,
    )
}

/// An outcome with a retype answer on it. A proven mismatch stays whatever the
/// answer; a mismatch or an agreement makes the pair a fact; an abstention adds
/// its reason.
pub open spec fn retyped(outcome: PairCheckOutcomeModel, answer: RetypeOutcomeModel) -> PairCheckOutcomeModel {
    if outcome.bucket == VerdictBucket::Incompatible {
        outcome
    } else {
        match answer.outcome {
            RetypeVerdict::Mismatch => PairCheckOutcomeModel {
                bucket: VerdictBucket::Incompatible,
                gate: Some("retype:consumer"@),
                diagnostic: Some(
                    "the consumer uses what the producer's response does not provide: "@ + joined(
                        mismatch_places(outcome.consumer_file, answer.diagnostics),
                        "; "@,
                    ),
                ),
                resolved: true,
                unresolved_reason: None,
                notes: outcome.notes.push(RETYPE_NOTE@),
                ..outcome
            },
            RetypeVerdict::Agrees => PairCheckOutcomeModel {
                bucket: VerdictBucket::Compatible,
                gate: None,
                diagnostic: None,
                resolved: true,
                unresolved_reason: None,
                notes: outcome.notes.push(RETYPE_NOTE@),
                ..outcome
            },
            RetypeVerdict::Abstain => {
                let why = match answer.reason {
                    Some(reason) => reason,
                    None => "no reason given"@,
                };
                PairCheckOutcomeModel {
                    unresolved_reason: Some(
                        match outcome.unresolved_reason {
                            Some(reason) => reason + "; retyping the consumer's call did not decide it: "@ + why,
                            None => "retyping the consumer's call did not decide it: "@ + why,
                        },
                    ),
                    ..outcome
                }
            },
        }
    }
}

fn places_of(file: &str, diagnostics: &Vec<RetypeDiagnostic>) -> (r: Vec<String>)
    ensures
        r.deep_view() == mismatch_places(file@, diagnostics.deep_view()),
{
    let ghost all = mismatch_places(file@, diagnostics.deep_view());
    let mut r: Vec<String> = Vec::new();
    let mut i: usize = 0;
    assert(r.deep_view() =~= all.take(0));
    while i < diagnostics.len()
        invariant
            i <= diagnostics.len(),
            all == mismatch_places(file@, diagnostics.deep_view()),
            r.deep_view() == all.take(i as int),
        decreases diagnostics.len() - i,
    {
        let ghost before = r.deep_view();
        let mut place = concat3(file, ":", print_number(diagnostics[i].line as u64).as_str());
        place.append(": ");
        place.append(diagnostics[i].message.as_str());
        assert(diagnostics.deep_view()[i as int] == diagnostics@[i as int].deep_view());
        assert(place@ == all[i as int]);
        r.push(place);
        assert(r.deep_view() =~= before.push(place@));
        assert(all.take(i + 1) == all.take(i as int).push(all[i as int]));
        i += 1;
    }
    assert(all.take(all.len() as int) == all);
    r
}

/// Writes one retype answer onto its pair's outcome.
pub fn apply_retype(outcome: &mut PairCheckOutcome, answer: &RetypeOutcome)
    ensures
        final(outcome).deep_view() == retyped(old(outcome).deep_view(), answer.deep_view()),
{
    match outcome.bucket {
        VerdictBucket::Incompatible => {
            return;
        },
        _ => {},
    }
    let ghost notes = outcome.notes.deep_view();
    match answer.outcome {
        RetypeVerdict::Mismatch => {
            let places = places_of(outcome.consumer_file.as_str(), &answer.diagnostics);
            outcome.bucket = VerdictBucket::Incompatible;
            outcome.gate = Some("retype:consumer".to_owned());
            outcome.diagnostic = Some(
                concat(
                    "the consumer uses what the producer's response does not provide: ",
                    join(&places, "; ").as_str(),
                ),
            );
            outcome.resolved = true;
            outcome.unresolved_reason = None;
            outcome.notes.push(RETYPE_NOTE.to_owned());
            assert(outcome.notes.deep_view() =~= notes.push(RETYPE_NOTE@));
        },
        RetypeVerdict::Agrees => {
            outcome.bucket = VerdictBucket::Compatible;
            outcome.gate = None;
            outcome.diagnostic = None;
            outcome.resolved = true;
            outcome.unresolved_reason = None;
            outcome.notes.push(RETYPE_NOTE.to_owned());
            assert(outcome.notes.deep_view() =~= notes.push(RETYPE_NOTE@));
        },
        RetypeVerdict::Abstain => {
            let why = match &answer.reason {
                Some(reason) => reason.as_str(),
                None => "no reason given",
            };
            let said = match &outcome.unresolved_reason {
                Some(reason) => concat3(reason.as_str(), "; retyping the consumer's call did not decide it: ", why),
                None => concat("retyping the consumer's call did not decide it: ", why),
            };
            outcome.unresolved_reason = Some(said);
        },
    }
}

/// What the sidecar answered for one service: its answers, or why it could not.
pub enum RetypeReply {
    Answers { answers: Vec<RetypeOutcome> },
    Failed { reason: String },
}

/// What a [`RetypeReply`] holds.
pub enum RetypeReplyModel {
    Answers { answers: Seq<RetypeOutcomeModel> },
    Failed { reason: Seq<char> },
}

impl DeepView for RetypeReply {
    type V = RetypeReplyModel;

    open spec fn deep_view(&self) -> RetypeReplyModel {
        match self {
            RetypeReply::Answers { answers } => RetypeReplyModel::Answers { answers: answers.deep_view() },
            RetypeReply::Failed { reason } => RetypeReplyModel::Failed { reason: reason@ },
        }
    }
}

/// The last answer for an item.
pub open spec fn answer_in(answers: Seq<RetypeOutcomeModel>, item_id: Seq<char>) -> Option<RetypeOutcomeModel>
    decreases answers.len(),
{
    if answers.len() == 0 {
        None
    } else if answers.last().item_id == item_id {
        Some(answers.last())
    } else {
        answer_in(answers.drop_last(), item_id)
    }
}

pub open spec fn has_item(items: Seq<RetypeItemModel>, item_id: Seq<char>) -> bool {
    exists|i: int| 0 <= i < items.len() && (#[trigger] items[i]).item_id == item_id
}

/// The answer to an item of a service. What was not asked has none. When the
/// sidecar could not answer, every item of the service is an abstention.
pub open spec fn answer_to(items: Seq<RetypeItemModel>, reply: RetypeReplyModel, item_id: Seq<char>) -> Option<RetypeOutcomeModel> {
    match reply {
        _ if !has_item(items, item_id) => None,
        RetypeReplyModel::Answers { answers } => answer_in(answers, item_id),
        RetypeReplyModel::Failed { reason } => Some(
            RetypeOutcomeModel {
                item_id,
                outcome: RetypeVerdict::Abstain,
                diagnostics: Seq::empty(),
                reason: Some("the retype check did not run: "@ + reason),
            },
        ),
    }
}

fn was_asked(items: &Vec<RetypeItem>, item_id: &String) -> (r: bool)
    ensures
        r == has_item(items.deep_view(), item_id@),
{
    let ghost all = items.deep_view();
    let mut i: usize = 0;
    while i < items.len()
        invariant
            i <= items.len(),
            all == items.deep_view(),
            forall|j: int| 0 <= j < i ==> (#[trigger] all[j]).item_id != item_id@,
        decreases items.len() - i,
    {
        assert(all[i as int] == items@[i as int].deep_view());
        if same(items[i].item_id.as_str(), item_id.as_str()) {
            return true;
        }
        i += 1;
    }
    false
}

pub open spec fn after_reply(
    outcome: PairCheckOutcomeModel,
    items: Seq<RetypeItemModel>,
    reply: RetypeReplyModel,
) -> PairCheckOutcomeModel {
    match answer_to(items, reply, outcome.pair_key) {
        Some(answer) => retyped(outcome, answer),
        None => outcome,
    }
}

fn find_answer(items: &Vec<RetypeItem>, reply: &RetypeReply, item_id: &String) -> (r: Option<RetypeOutcome>)
    ensures
        r.deep_view() == answer_to(items.deep_view(), reply.deep_view(), item_id@),
{
    if !was_asked(items, item_id) {
        return None;
    }
    match reply {
        RetypeReply::Answers { answers } => {
            let ghost all = answers.deep_view();
            let mut i: usize = answers.len();
            assert(all.take(all.len() as int) == all);
            while i > 0
                invariant
                    i <= answers.len(),
                    all == answers.deep_view(),
                    answer_in(all, item_id@) == answer_in(all.take(i as int), item_id@),
                    has_item(items.deep_view(), item_id@),
                    reply.deep_view() == (RetypeReplyModel::Answers { answers: all }),
                decreases i,
            {
                assert(all.take(i as int).drop_last() == all.take(i - 1));
                assert(all.take(i as int).last() == answers@[i - 1].deep_view());
                i -= 1;
                if same(answers[i].item_id.as_str(), item_id.as_str()) {
                    return Some(answers[i].duplicate());
                }
            }
            None
        },
        RetypeReply::Failed { reason } => {
            let diagnostics: Vec<RetypeDiagnostic> = Vec::new();
            assert(diagnostics.deep_view() =~= Seq::<RetypeDiagnosticModel>::empty());
            Some(
                RetypeOutcome {
                    item_id: item_id.clone(),
                    outcome: RetypeVerdict::Abstain,
                    diagnostics,
                    reason: Some(concat("the retype check did not run: ", reason.as_str())),
                },
            )
        },
    }
}

/// Writes a service's answers onto the outcomes.
pub fn apply_reply(outcomes: &mut Vec<PairCheckOutcome>, items: &Vec<RetypeItem>, reply: &RetypeReply)
    ensures
        final(outcomes).deep_view() == old(outcomes).deep_view().map_values(
            |outcome: PairCheckOutcomeModel| after_reply(outcome, items.deep_view(), reply.deep_view()),
        ),
{
    let ghost before = outcomes.deep_view();
    let ghost asked = items.deep_view();
    let ghost said = reply.deep_view();
    let mut i: usize = 0;
    while i < outcomes.len()
        invariant
            i <= outcomes.len(),
            asked == items.deep_view(),
            said == reply.deep_view(),
            outcomes.deep_view().len() == before.len(),
            forall|j: int| 0 <= j < i ==> #[trigger] outcomes.deep_view()[j] == after_reply(before[j], asked, said),
            forall|j: int| i <= j < before.len() ==> #[trigger] outcomes.deep_view()[j] == before[j],
        decreases outcomes.len() - i,
    {
        let ghost now = outcomes.deep_view();
        assert(now[i as int] == outcomes@[i as int].deep_view());
        assert(now[i as int] == before[i as int]);
        match find_answer(items, reply, &outcomes[i].pair_key) {
            Some(answer) => {
                let mut outcome = outcomes[i].duplicate();
                apply_retype(&mut outcome, &answer);
                outcomes.set(i, outcome);
                assert(outcomes.deep_view() =~= now.update(i as int, after_reply(before[i as int], asked, said)));
            },
            None => {
                assert(after_reply(before[i as int], asked, said) == before[i as int]);
            },
        }
        i += 1;
    }
    assert(outcomes.deep_view() =~= before.map_values(
        |outcome: PairCheckOutcomeModel| after_reply(outcome, asked, said),
    ));
}

// ---------------------------------------------------------------------------
// A whole check
// ---------------------------------------------------------------------------

/// Outcomes rank by the keys of their pairs.
impl Ranked for PairCheckOutcomeModel {
    open spec fn precedes(self, other: Self) -> bool {
        text_less(self.pair_key, other.pair_key)
    }

    proof fn precedes_irreflexive(a: Self) {
        text_less_irreflexive(a.pair_key);
    }

    proof fn precedes_transitive(a: Self, b: Self, c: Self) {
        text_less_transitive(a.pair_key, b.pair_key, c.pair_key);
    }

    proof fn precedes_weakly(a: Self, b: Self, c: Self) {
        let (x, y, z) = (a.pair_key, b.pair_key, c.pair_key);
        text_less_total(x, y);
        text_less_total(y, z);
        text_less_asymmetric(x, z);
        if text_less(z, y) && text_less(y, x) {
            text_less_transitive(z, y, x);
        }
    }
}

impl Sortable for PairCheckOutcome {
    fn before(&self, other: &Self) -> (r: bool) {
        less(self.pair_key.as_str(), other.pair_key.as_str())
    }
}

/// The outcomes after the answers of every service that was asked. A service
/// without a reply changes nothing.
pub open spec fn after_replies(
    outcomes: Seq<PairCheckOutcomeModel>,
    asked: Seq<(Seq<char>, Seq<RetypeItemModel>)>,
    replies: Map<Seq<char>, RetypeReplyModel>,
) -> Seq<PairCheckOutcomeModel>
    decreases asked.len(),
{
    if asked.len() == 0 {
        outcomes
    } else {
        let before = after_replies(outcomes, asked.drop_last(), replies);
        let (service, items) = asked.last();
        if replies.contains_key(service) {
            before.map_values(|outcome: PairCheckOutcomeModel| after_reply(outcome, items, replies[service]))
        } else {
            before
        }
    }
}

/// The outcomes of a check, by pair key.
pub open spec fn checked(
    repos: Seq<CloudRepoDataModel>,
    local: Map<Seq<char>, LocalConsumerModel>,
    reply: CheckReplyModel,
    replies: Map<Seq<char>, RetypeReplyModel>,
) -> Seq<PairCheckOutcomeModel> {
    let pairs = check_pairs(repos);
    let blamed = Set::new(|pair_key: Seq<char>| is_blamed(pairs, reply, pair_key));
    by_rank(
        after_replies(
            unprobed_outcomes(pairs) + probed_outcomes(pairs, reply),
            items_by_service(pairs, blamed, local),
            replies,
        ),
    )
}

fn sort_outcomes(outcomes: &Vec<PairCheckOutcome>) -> (r: Vec<PairCheckOutcome>)
    ensures
        r.deep_view() == by_rank(outcomes.deep_view()),
{
    let ghost all = outcomes.deep_view();
    let mut r: Vec<PairCheckOutcome> = Vec::new();
    let mut i: usize = 0;
    assert(r.deep_view() =~= by_rank(all.take(0)));
    while i < outcomes.len()
        invariant
            i <= outcomes.len(),
            all == outcomes.deep_view(),
            r.deep_view() == by_rank(all.take(i as int)),
        decreases outcomes.len() - i,
    {
        assert(all.take(i + 1).drop_last() == all.take(i as int));
        assert(all.take(i + 1).last() == outcomes@[i as int].deep_view());
        place(&mut r, outcomes[i].duplicate());
        i += 1;
    }
    assert(all.take(all.len() as int) == all);
    r
}

/// The outcome of every pair, from what the sidecar's check and the retyped
/// calls came to. A pair without a surface is never probed; when the check
/// itself failed, every probed pair is unverifiable with the failure as the
/// reason. The outcomes come in the order of the pair keys.
pub fn run_check(
    all_repo_data: &Vec<CloudRepoData>,
    local_consumers: &LocalConsumers,
    reply: &CheckReply,
    replies: &TextMap<RetypeReply>,
) -> (r: Vec<PairCheckOutcome>)
    ensures
        r.deep_view() == checked(
            all_repo_data.deep_view(),
            local_consumers.deep_view(),
            reply.deep_view(),
            replies.deep_view(),
        ),
{
    let pairs = build_check_pairs(all_repo_data);
    let blamed = consumer_blamed(&pairs, reply);
    let ghost said = Set::new(|pair_key: Seq<char>| is_blamed(pairs.deep_view(), reply.deep_view(), pair_key));
    assert(blamed@ =~= said);
    let mut outcomes = outcomes_of_check(&pairs, reply);
    let ghost start = outcomes.deep_view();
    let asked = retype_items(&pairs, &blamed, local_consumers);
    let ghost all = asked.deep_view();
    let mut i: usize = 0;
    assert(start == after_replies(start, all.take(0), replies.deep_view()));
    while i < asked.len()
        invariant
            i <= asked.len(),
            all == asked.deep_view(),
            outcomes.deep_view() == after_replies(start, all.take(i as int), replies.deep_view()),
        decreases asked.len() - i,
    {
        assert(all.take(i + 1).drop_last() == all.take(i as int));
        assert(all.take(i + 1).last() == asked@[i as int].deep_view());
        match replies.get(asked[i].0.as_str()) {
            Some(reply) => {
                assert(replies.deep_view()[asked@[i as int].0@] == reply.deep_view());
                apply_reply(&mut outcomes, &asked[i].1, reply);
            },
            None => {},
        }
        i += 1;
    }
    assert(all.take(all.len() as int) == all);
    sort_outcomes(&outcomes)
}

// ---------------------------------------------------------------------------
// The log
// ---------------------------------------------------------------------------

/// The pair is this run's to report: it involves a service scanned in it, and
/// it is not the request half of an operation for which neither side states a
/// body.
pub open spec fn is_worth_logging(pair: BuiltPairModel, local: Map<Seq<char>, LocalConsumerModel>) -> bool {
    &&& local.contains_key(pair.producer_service) || local.contains_key(pair.consumer_service)
    &&& !(pair.type_kind == ManifestTypeKind::Request && pair.producer_expanded is None && pair.consumer_expanded is None)
}

pub fn worth_logging(pair: &BuiltPair, local: &LocalConsumers) -> (r: bool)
    ensures
        r == is_worth_logging(pair.deep_view(), local.deep_view()),
{
    let scanned = local.by_service.contains_key(pair.producer_service.as_str()) || local.by_service.contains_key(
        pair.consumer_service.as_str(),
    );
    let request = match pair.type_kind {
        ManifestTypeKind::Request => true,
        ManifestTypeKind::Response => false,
    };
    scanned && !(request && pair.producer_expanded.is_none() && pair.consumer_expanded.is_none())
}

pub open spec fn kind_word(kind: ManifestTypeKind) -> Seq<char> {
    match kind {
        ManifestTypeKind::Request => "request"@,
        ManifestTypeKind::Response => "response"@,
    }
}

/// The line that says why a pair is not a fact.
pub open spec fn unresolved_line(outcome: PairCheckOutcomeModel) -> Option<Seq<char>> {
    if outcome.resolved {
        None
    } else {
        let why = match (outcome.unresolved_reason, outcome.diagnostic) {
            (Some(reason), _) => reason,
            (None, Some(diagnostic)) => diagnostic,
            (None, None) => "no reason recorded"@,
        };
        Some(
            "Types not verified: "@ + outcome.pseudo_method + " "@ + outcome.identity + " "@ + kind_word(outcome.type_kind)
                + " ("@ + outcome.consumer_file + ":"@ + decimal(outcome.consumer_line as nat) + " in "@
                + outcome.consumer_service + " against "@ + outcome.producer_service + "): "@ + why,
        )
    }
}

/// The log line for one pair, or nothing when its verdict is a fact.
pub fn unresolved_pair_line(outcome: &PairCheckOutcome) -> (r: Option<String>)
    ensures
        r.deep_view() == unresolved_line(outcome.deep_view()),
{
    if outcome.resolved {
        return None;
    }
    let kind = match outcome.type_kind {
        ManifestTypeKind::Request => "request",
        ManifestTypeKind::Response => "response",
    };
    let why = match (&outcome.unresolved_reason, &outcome.diagnostic) {
        (Some(reason), _) => reason.as_str(),
        (None, Some(diagnostic)) => diagnostic.as_str(),
        (None, None) => "no reason recorded",
    };
    let mut line = concat("Types not verified: ", outcome.pseudo_method.as_str());
    line.append(" ");
    line.append(outcome.identity.as_str());
    line.append(" ");
    line.append(kind);
    line.append(" (");
    line.append(outcome.consumer_file.as_str());
    line.append(":");
    line.append(print_number(outcome.consumer_line as u64).as_str());
    line.append(" in ");
    line.append(outcome.consumer_service.as_str());
    line.append(" against ");
    line.append(outcome.producer_service.as_str());
    line.append("): ");
    line.append(why);
    Some(line)
}

/// Some pair of this key is this run's to report.
pub open spec fn key_worth_logging(
    pairs: Seq<BuiltPairModel>,
    local: Map<Seq<char>, LocalConsumerModel>,
    pair_key: Seq<char>,
) -> bool {
    exists|i: int|
        0 <= i < pairs.len() && (#[trigger] pairs[i]).spec.pair_key == pair_key && is_worth_logging(pairs[i], local)
}

pub open spec fn unresolved_lines(
    outcomes: Seq<PairCheckOutcomeModel>,
    pairs: Seq<BuiltPairModel>,
    local: Map<Seq<char>, LocalConsumerModel>,
) -> Seq<Seq<char>>
    decreases outcomes.len(),
{
    if outcomes.len() == 0 {
        Seq::empty()
    } else {
        let before = unresolved_lines(outcomes.drop_last(), pairs, local);
        match unresolved_line(outcomes.last()) {
            Some(line) => if key_worth_logging(pairs, local, outcomes.last().pair_key) {
                before.push(line)
            } else {
                before
            },
            None => before,
        }
    }
}

fn worth_key(pairs: &Vec<BuiltPair>, local: &LocalConsumers, pair_key: &str) -> (r: bool)
    ensures
        r == key_worth_logging(pairs.deep_view(), local.deep_view(), pair_key@),
{
    let ghost all = pairs.deep_view();
    let ghost held = local.deep_view();
    let mut i: usize = 0;
    while i < pairs.len()
        invariant
            i <= pairs.len(),
            all == pairs.deep_view(),
            held == local.deep_view(),
            forall|j: int| 0 <= j < i && (#[trigger] all[j]).spec.pair_key == pair_key@ ==> !is_worth_logging(all[j], held),
        decreases pairs.len() - i,
    {
        assert(all[i as int] == pairs@[i as int].deep_view());
        if same(pairs[i].spec.pair_key.as_str(), pair_key) && worth_logging(&pairs[i], local) {
            return true;
        }
        i += 1;
    }
    false
}

/// One line per pair that the check could not establish as a fact, with the
/// reason, for the pairs that this run answers for.
pub fn log_unresolved_pairs(outcomes: &Vec<PairCheckOutcome>, pairs: &Vec<BuiltPair>, local: &LocalConsumers) -> (r: Vec<String>)
    ensures
        r.deep_view() == unresolved_lines(outcomes.deep_view(), pairs.deep_view(), local.deep_view()),
{
    let ghost all = outcomes.deep_view();
    let ghost known = pairs.deep_view();
    let ghost held = local.deep_view();
    let mut r: Vec<String> = Vec::new();
    let mut i: usize = 0;
    assert(r.deep_view() =~= unresolved_lines(all.take(0), known, held));
    while i < outcomes.len()
        invariant
            i <= outcomes.len(),
            all == outcomes.deep_view(),
            known == pairs.deep_view(),
            held == local.deep_view(),
            r.deep_view() == unresolved_lines(all.take(i as int), known, held),
        decreases outcomes.len() - i,
    {
        let ghost before = r.deep_view();
        assert(all.take(i + 1).drop_last() == all.take(i as int));
        assert(all.take(i + 1).last() == outcomes@[i as int].deep_view());
        match unresolved_pair_line(&outcomes[i]) {
            Some(line) => {
                if worth_key(pairs, local, outcomes[i].pair_key.as_str()) {
                    r.push(line);
                    assert(r.deep_view() =~= before.push(line@));
                }
            },
            None => {},
        }
        i += 1;
    }
    assert(all.take(all.len() as int) == all);
    r
}

// ---------------------------------------------------------------------------
// Stub directories
// ---------------------------------------------------------------------------

/// A service id as a directory name: path separators become underscores.
pub open spec fn dir_base(service: Seq<char>) -> Seq<char> {
    with_char_replaced(with_char_replaced(service, '/', "_"@), '\\', "_"@)
}

/// The services that carry a current surface.
pub open spec fn surface_services(repos: Seq<CloudRepoDataModel>) -> Seq<Seq<char>>
    decreases repos.len(),
{
    if repos.len() == 0 {
        Seq::empty()
    } else if has_surface(repos.last()) {
        surface_services(repos.drop_last()).push(service_id_of(repos.last()))
    } else {
        surface_services(repos.drop_last())
    }
}

/// A directory of a base: the base itself, then numbered ones.
pub open spec fn numbered_dir(base: Seq<char>, n: nat) -> Seq<char> {
    if n == 0 {
        base
    } else {
        base + "_"@ + decimal(n)
    }
}

/// The least number from a given one on whose directory is not taken.
pub open spec fn free_number(taken: Seq<Seq<char>>, base: Seq<char>, n: nat) -> nat
    decreases taken.len(),
{
    if taken.contains(numbered_dir(base, n)) {
        free_number(taken.remove(taken.index_of(numbered_dir(base, n))), base, n + 1)
    } else {
        n
    }
}

/// The directories of a list of services with their directories.
pub open spec fn dirs_of(stubs: Seq<(Seq<char>, Seq<char>)>) -> Seq<Seq<char>> {
    stubs.map_values(|stub: (Seq<char>, Seq<char>)| stub.1)
}

/// The directory of each service: its base, or else the first numbered directory
/// of that base that no service before it has.
pub open spec fn stub_dirs(services: Seq<Seq<char>>) -> Seq<(Seq<char>, Seq<char>)>
    decreases services.len(),
{
    if services.len() == 0 {
        Seq::empty()
    } else {
        let before = stub_dirs(services.drop_last());
        let base = dir_base(services.last());
        before.push((services.last(), numbered_dir(base, free_number(dirs_of(before), base, 0))))
    }
}

proof fn numbered_dirs_differ(base: Seq<char>, m: nat, n: nat)
    requires
        m != n,
    ensures
        numbered_dir(base, m) != numbered_dir(base, n),
{
    reveal_strlit("_");
    if m > 0 && n > 0 && numbered_dir(base, m) == numbered_dir(base, n) {
        numbers_are_told_apart(base, m, base, n);
    } else if m == 0 {
        assert(numbered_dir(base, n).len() > base.len());
    } else if n == 0 {
        assert(numbered_dir(base, m).len() > base.len());
    }
}

/// The free number's directory is free indeed.
proof fn a_free_directory_is_not_taken(taken: Seq<Seq<char>>, base: Seq<char>, n: nat)
    ensures
        free_number(taken, base, n) >= n,
        !taken.contains(numbered_dir(base, free_number(taken, base, n))),
    decreases taken.len(),
{
    let d = numbered_dir(base, n);
    if taken.contains(d) {
        let at = taken.index_of(d);
        let rest = taken.remove(at);
        let m = free_number(rest, base, n + 1);
        a_free_directory_is_not_taken(rest, base, n + 1);
        numbered_dirs_differ(base, m, n);
        let e = numbered_dir(base, m);
        if taken.contains(e) {
            let k = choose|k: int| 0 <= k < taken.len() && taken[k] == e;
            if k < at {
                assert(rest[k] == e);
            } else {
                assert(k != at);
                assert(rest[k - 1] == e);
            }
        }
    }
}

fn is_taken(stubs: &Vec<(String, String)>, dir: &str) -> (r: bool)
    ensures
        r == dirs_of(stubs.deep_view()).contains(dir@),
{
    let ghost dirs = dirs_of(stubs.deep_view());
    let mut i: usize = 0;
    while i < stubs.len()
        invariant
            i <= stubs.len(),
            dirs == dirs_of(stubs.deep_view()),
            forall|j: int| 0 <= j < i ==> #[trigger] dirs[j] != dir@,
        decreases stubs.len() - i,
    {
        assert(dirs[i as int] == stubs@[i as int].1@);
        if same(stubs[i].1.as_str(), dir) {
            return true;
        }
        i += 1;
    }
    assert(dirs.len() == stubs@.len());
    false
}

fn dir_numbered(base: &str, n: u64) -> (r: String)
    ensures
        r@ == numbered_dir(base@, n as nat),
{
    if n == 0 {
        base.to_owned()
    } else {
        concat3(base, "_", print_number(n).as_str())
    }
}

fn free_dir(stubs: &Vec<(String, String)>, base: &str) -> (r: String)
    ensures
        r@ == numbered_dir(base@, free_number(dirs_of(stubs.deep_view()), base@, 0)),
{
    let ghost taken = dirs_of(stubs.deep_view());
    let ghost mut left = taken;
    let mut n: u64 = 0;
    assert(taken.len() == stubs@.len());
    loop
        invariant
            taken == dirs_of(stubs.deep_view()),
            taken.len() == stubs.len(),
            left.len() + n == taken.len(),
            free_number(left, base@, n as nat) == free_number(taken, base@, 0),
            forall|m: nat| m >= n ==> left.contains(#[trigger] numbered_dir(base@, m)) == taken.contains(
                numbered_dir(base@, m),
            ),
        decreases left.len(),
    {
        let dir = dir_numbered(base, n);
        if !is_taken(stubs, dir.as_str()) {
            return dir;
        }
        proof {
            let before = left;
            let at = before.index_of(dir@);
            assert(before.contains(dir@));
            left = before.remove(at);
            assert forall|m: nat| m >= n + 1 implies left.contains(#[trigger] numbered_dir(base@, m)) == taken.contains(
                numbered_dir(base@, m),
            ) by {
                let e = numbered_dir(base@, m);
                numbered_dirs_differ(base@, m, n as nat);
                if before.contains(e) {
                    let k = choose|k: int| 0 <= k < before.len() && before[k] == e;
                    if k < at {
                        assert(left[k] == e);
                    } else {
                        assert(left[k - 1] == e);
                    }
                }
                if left.contains(e) {
                    let k = choose|k: int| 0 <= k < left.len() && left[k] == e;
                    if k < at {
                        assert(before[k] == e);
                    } else {
                        assert(before[k + 1] == e);
                    }
                }
            }
        }
        n += 1;
    }
}

fn base_of(service: &str) -> (r: String)
    ensures
        r@ == dir_base(service@),
{
    replace_char(replace_char(service, '/', "_").as_str(), '\\', "_")
}

/// The services whose stubs take part in a check, each with the name of the
/// directory that its stub is written to.
pub fn materialize_stubs(all_repo_data: &Vec<CloudRepoData>) -> (r: Vec<(String, String)>)
    ensures
        r.deep_view() == stub_dirs(surface_services(all_repo_data.deep_view())),
{
    let ghost all = all_repo_data.deep_view();
    let mut services: Vec<String> = Vec::new();
    let mut r: Vec<(String, String)> = Vec::new();
    let mut i: usize = 0;
    assert(services.deep_view() =~= surface_services(all.take(0)));
    assert(r.deep_view() =~= stub_dirs(services.deep_view()));
    while i < all_repo_data.len()
        invariant
            i <= all_repo_data.len(),
            all == all_repo_data.deep_view(),
            services.deep_view() == surface_services(all.take(i as int)),
            r.deep_view() == stub_dirs(services.deep_view()),
        decreases all_repo_data.len() - i,
    {
        assert(all.take(i + 1).drop_last() == all.take(i as int));
        assert(all.take(i + 1).last() == all_repo_data@[i as int].deep_view());
        if surface_is_current(&all_repo_data[i]) {
            let ghost known = services.deep_view();
            let ghost before = r.deep_view();
            let service = service_id(&all_repo_data[i]).clone();
            let dir = free_dir(&r, base_of(service.as_str()).as_str());
            r.push((service.clone(), dir));
            assert(r.deep_view() =~= before.push((service@, dir@)));
            services.push(service);
            assert(services.deep_view() =~= known.push(service@));
            assert(services.deep_view().drop_last() =~= known);
        }
        i += 1;
    }
    assert(all.take(all.len() as int) == all);
    r
}

proof fn numbers_are_told_apart(a: Seq<char>, m: nat, b: Seq<char>, n: nat)
    requires
        a + "_"@ + decimal(m) == b + "_"@ + decimal(n),
    ensures
        a == b,
        m == n,
{
    reveal_strlit("_");
    decimal_is_read_back(m);
    decimal_is_read_back(n);
    let p = decimal(m);
    let q = decimal(n);
    let x = a + "_"@ + p;
    let y = b + "_"@ + q;
    assert(x == y);
    assert(x.len() == a.len() + 1 + p.len());
    assert(y.len() == b.len() + 1 + q.len());
    assert(x[a.len() as int] == '_');
    assert(y[b.len() as int] == '_');
    if a.len() < b.len() {
        assert(x[b.len() as int] == p[b.len() - a.len() - 1]);
        assert(is_ascii_digit(p[b.len() - a.len() - 1]));
    } else if b.len() < a.len() {
        assert(y[a.len() as int] == q[a.len() - b.len() - 1]);
        assert(is_ascii_digit(q[a.len() - b.len() - 1]));
    }
    assert(a =~= x.take(a.len() as int));
    assert(b =~= y.take(b.len() as int));
    assert(p =~= x.skip((a.len() + 1) as int));
    assert(q =~= y.skip((b.len() + 1) as int));
}

/// No two services write their stubs to one directory.
pub proof fn stubs_do_not_share_a_directory(services: Seq<Seq<char>>)
    ensures
        stub_dirs(services).len() == services.len(),
        forall|i: int| 0 <= i < services.len() ==> (#[trigger] stub_dirs(services)[i]).0 == services[i],
        forall|i: int, j: int|
            0 <= i < j < services.len() ==> (#[trigger] stub_dirs(services)[i]).1 != (#[trigger] stub_dirs(
                services,
            )[j]).1,
    decreases services.len(),
{
    if services.len() > 0 {
        let init = services.drop_last();
        let before = stub_dirs(init);
        let dirs = dirs_of(before);
        let base = dir_base(services.last());
        stubs_do_not_share_a_directory(init);
        a_free_directory_is_not_taken(dirs, base, 0);
        let all = stub_dirs(services);
        assert forall|i: int, j: int| 0 <= i < j < services.len() implies (#[trigger] all[i]).1 != (#[trigger] all[j]).1 by {
            assert(all[i] == before[i]);
            if j < init.len() {
                assert(all[j] == before[j]);
            } else {
                assert(dirs[i] == before[i].1);
                assert(dirs.contains(before[i].1));
            }
        }
        assert forall|i: int| 0 <= i < services.len() implies (#[trigger] all[i]).0 == services[i] by {
            if i < init.len() {
                assert(all[i] == before[i]);
                assert(init[i] == services[i]);
            }
        }
    }
}

// ---------------------------------------------------------------------------
// Laws of a check
// ---------------------------------------------------------------------------

/// Retyping only lifts what compared nothing: a mismatch that the check proved
/// stays as it is, whatever the answers.
pub proof fn retyping_keeps_mismatches(
    outcomes: Seq<PairCheckOutcomeModel>,
    asked: Seq<(Seq<char>, Seq<RetypeItemModel>)>,
    replies: Map<Seq<char>, RetypeReplyModel>,
    i: int,
)
    requires
        0 <= i < outcomes.len(),
        outcomes[i].bucket == VerdictBucket::Incompatible,
    ensures
        after_replies(outcomes, asked, replies).len() == outcomes.len(),
        after_replies(outcomes, asked, replies)[i] == outcomes[i],
    decreases asked.len(),
{
    if asked.len() > 0 {
        retyping_keeps_mismatches(outcomes, asked.drop_last(), replies, i);
    }
}

/// A check that did not run leaves every pair unverifiable and unresolved; no
/// pair reads compatible.
pub proof fn failed_check_proves_nothing(pairs: Seq<BuiltPairModel>, reason: Seq<char>, i: int)
    requires
        0 <= i < probed_outcomes(pairs, CheckReplyModel::Failed { reason }).len(),
    ensures
        probed_outcomes(pairs, CheckReplyModel::Failed { reason })[i].bucket == VerdictBucket::Unverifiable,
        !probed_outcomes(pairs, CheckReplyModel::Failed { reason })[i].resolved,
    decreases pairs.len(),
{
    let reply = CheckReplyModel::Failed { reason };
    if pairs.len() > 0 {
        let before = probed_outcomes(pairs.drop_last(), reply);
        if i < before.len() {
            failed_check_proves_nothing(pairs.drop_last(), reason, i);
        }
    }
}

pub open spec fn outcome_keys(outcomes: Seq<PairCheckOutcomeModel>) -> Seq<Seq<char>> {
    outcomes.map_values(|outcome: PairCheckOutcomeModel| outcome.pair_key)
}

pub open spec fn pair_keys(pairs: Seq<BuiltPairModel>) -> Seq<Seq<char>> {
    pairs.map_values(|pair: BuiltPairModel| pair.spec.pair_key)
}

pub proof fn replies_keep_keys(
    outcomes: Seq<PairCheckOutcomeModel>,
    asked: Seq<(Seq<char>, Seq<RetypeItemModel>)>,
    replies: Map<Seq<char>, RetypeReplyModel>,
)
    ensures
        outcome_keys(after_replies(outcomes, asked, replies)) == outcome_keys(outcomes),
    decreases asked.len(),
{
    if asked.len() > 0 {
        replies_keep_keys(outcomes, asked.drop_last(), replies);
        let before = after_replies(outcomes, asked.drop_last(), replies);
        let (service, items) = asked.last();
        if replies.contains_key(service) {
            let after = before.map_values(
                |outcome: PairCheckOutcomeModel| after_reply(outcome, items, replies[service]),
            );
            assert(outcome_keys(after) =~= outcome_keys(before));
        }
    }
}

proof fn outcomes_have_pair_keys(pairs: Seq<BuiltPairModel>, reply: CheckReplyModel)
    ensures
        outcome_keys(unprobed_outcomes(pairs) + probed_outcomes(pairs, reply)).to_multiset() == pair_keys(pairs).to_multiset(),
    decreases pairs.len(),
{
    broadcast use vstd::seq_lib::group_to_multiset_ensures;
    let un = unprobed_outcomes(pairs);
    let pr = probed_outcomes(pairs, reply);
    assert(outcome_keys(un + pr) =~= outcome_keys(un) + outcome_keys(pr));
    vstd::seq_lib::lemma_multiset_commutative(outcome_keys(un), outcome_keys(pr));
    if pairs.len() == 0 {
        assert(outcome_keys(un + pr) =~= pair_keys(pairs));
    } else {
        let init = pairs.drop_last();
        let un0 = unprobed_outcomes(init);
        let pr0 = probed_outcomes(init, reply);
        outcomes_have_pair_keys(init, reply);
        assert(outcome_keys(un0 + pr0) =~= outcome_keys(un0) + outcome_keys(pr0));
        vstd::seq_lib::lemma_multiset_commutative(outcome_keys(un0), outcome_keys(pr0));
        let key = pairs.last().spec.pair_key;
        assert(pair_keys(pairs) =~= pair_keys(init).push(key));
        if pairs.last().pre_verdict is Some {
            assert(outcome_keys(un) =~= outcome_keys(un0).push(key));
            assert(pr == pr0);
        } else {
            assert(outcome_keys(pr) =~= outcome_keys(pr0).push(key));
            assert(un == un0);
        }
        assert(outcome_keys(un + pr).to_multiset() =~= pair_keys(pairs).to_multiset());
    }
}

proof fn placed_adds_key(sorted: Seq<PairCheckOutcomeModel>, x: PairCheckOutcomeModel)
    ensures
        outcome_keys(placed(sorted, x)).to_multiset() == outcome_keys(sorted).to_multiset().insert(x.pair_key),
    decreases sorted.len(),
{
    broadcast use vstd::seq_lib::group_to_multiset_ensures;
    if sorted.len() == 0 || !x.precedes(sorted.last()) {
        assert(outcome_keys(sorted.push(x)) =~= outcome_keys(sorted).push(x.pair_key));
    } else {
        let init = sorted.drop_last();
        placed_adds_key(init, x);
        let last = sorted.last().pair_key;
        assert(outcome_keys(placed(sorted, x)) =~= outcome_keys(placed(init, x)).push(last));
        assert(outcome_keys(sorted) =~= outcome_keys(init).push(last));
        assert(outcome_keys(placed(sorted, x)).to_multiset() =~= outcome_keys(sorted).to_multiset().insert(x.pair_key));
    }
}

proof fn by_rank_keeps_keys(list: Seq<PairCheckOutcomeModel>)
    ensures
        outcome_keys(by_rank(list)).to_multiset() == outcome_keys(list).to_multiset(),
    decreases list.len(),
{
    broadcast use vstd::seq_lib::group_to_multiset_ensures;
    if list.len() == 0 {
        assert(by_rank(list) =~= list);
    } else {
        let init = list.drop_last();
        by_rank_keeps_keys(init);
        placed_adds_key(by_rank(init), list.last());
        assert(outcome_keys(list) =~= outcome_keys(init).push(list.last().pair_key));
    }
}

proof fn text_order_is_total()
    ensures
        vstd::relations::total_ordering(|a: Seq<char>, b: Seq<char>| a == b || text_less(a, b)),
{
    let leq = |a: Seq<char>, b: Seq<char>| a == b || text_less(a, b);
    assert forall|a: Seq<char>, b: Seq<char>| #[trigger] leq(a, b) && #[trigger] leq(b, a) implies a == b by {
        text_less_asymmetric(a, b);
    }
    assert forall|a: Seq<char>, b: Seq<char>, c: Seq<char>| #[trigger] leq(a, b) && #[trigger] leq(b, c) implies leq(a, c) by {
        if a != b && b != c {
            text_less_transitive(a, b, c);
        }
    }
    assert forall|a: Seq<char>, b: Seq<char>| #[trigger] leq(a, b) || #[trigger] leq(b, a) by {
        text_less_total(a, b);
    }
}

/// Every pair comes to one outcome, in the order of the pairs, whatever the
/// sidecar answers.
pub proof fn one_outcome_per_pair(
    repos: Seq<CloudRepoDataModel>,
    local: Map<Seq<char>, LocalConsumerModel>,
    reply: CheckReplyModel,
    replies: Map<Seq<char>, RetypeReplyModel>,
)
    ensures
        outcome_keys(checked(repos, local, reply, replies)) == pair_keys(check_pairs(repos)),
{
    let pairs = check_pairs(repos);
    let blamed = Set::new(|pair_key: Seq<char>| is_blamed(pairs, reply, pair_key));
    let start = unprobed_outcomes(pairs) + probed_outcomes(pairs, reply);
    let asked = items_by_service(pairs, blamed, local);
    let after = after_replies(start, asked, replies);
    outcomes_have_pair_keys(pairs, reply);
    replies_keep_keys(start, asked, replies);
    by_rank_keeps_keys(after);
    by_rank_sorts(after);
    pair_keys_ascend(repos);
    text_order_is_total();
    let leq = |a: Seq<char>, b: Seq<char>| a == b || text_less(a, b);
    let done = by_rank(after);
    let x = outcome_keys(done);
    let y = pair_keys(pairs);
    assert forall|i: int, j: int| 0 <= i < j < x.len() implies #[trigger] leq(x[i], x[j]) by {
        assert(!done[j].precedes(done[i]));
        text_less_total(x[i], x[j]);
    }
    assert forall|i: int, j: int| 0 <= i < j < y.len() implies #[trigger] leq(y[i], y[j]) by {
        assert(pairs[i].precedes(pairs[j]));
    }
    vstd::seq_lib::lemma_sorted_unique(x, y, leq);
}

/// What a check comes to for a pair, before any call is retyped.
pub open spec fn first_outcome(pair: BuiltPairModel, reply: CheckReplyModel) -> PairCheckOutcomeModel {
    match pair.pre_verdict {
        Some((bucket, reason)) => outcome_of(pair, not_compared(bucket, reason)),
        None => outcome_of(pair, probed(reply, pair.spec.pair_key)),
    }
}

/// Every outcome of a check, before any call is retyped, is that of a pair.
pub proof fn outcomes_are_of_pairs(pairs: Seq<BuiltPairModel>, reply: CheckReplyModel, outcome: PairCheckOutcomeModel)
    requires
        (unprobed_outcomes(pairs) + probed_outcomes(pairs, reply)).contains(outcome),
    ensures
        exists|q: int| 0 <= q < pairs.len() && first_outcome(#[trigger] pairs[q], reply) == outcome,
    decreases pairs.len(),
{
    let un = unprobed_outcomes(pairs);
    let pr = probed_outcomes(pairs, reply);
    let j = choose|j: int| 0 <= j < (un + pr).len() && (un + pr)[j] == outcome;
    if pairs.len() > 0 {
        let init = pairs.drop_last();
        let un0 = unprobed_outcomes(init);
        let pr0 = probed_outcomes(init, reply);
        let last = pairs[pairs.len() - 1];
        if first_outcome(last, reply) != outcome {
            if j < un.len() {
                assert(un0[j] == outcome);
                assert((un0 + pr0)[j] == outcome);
            } else {
                let k = j - un.len();
                assert(pr0[k] == outcome);
                assert((un0 + pr0)[un0.len() + k] == outcome);
            }
            outcomes_are_of_pairs(init, reply, outcome);
            let q = choose|q: int| 0 <= q < init.len() && first_outcome(#[trigger] init[q], reply) == outcome;
            assert(pairs[q] == init[q]);
        }
    }
}

/// Only what is blamed is asked about.
proof fn items_are_blamed(
    pairs: Seq<BuiltPairModel>,
    blamed: Set<Seq<char>>,
    local: Map<Seq<char>, LocalConsumerModel>,
    service: Seq<char>,
    item_id: Seq<char>,
)
    requires
        has_item(items_of(pairs, blamed, local, service), item_id),
    ensures
        blamed.contains(item_id),
    decreases pairs.len(),
{
    let items = items_of(pairs, blamed, local, service);
    let i = choose|i: int| 0 <= i < items.len() && (#[trigger] items[i]).item_id == item_id;
    if pairs.len() > 0 {
        let before = items_of(pairs.drop_last(), blamed, local, service);
        if i < before.len() {
            assert(before[i] == items[i]);
            items_are_blamed(pairs.drop_last(), blamed, local, service, item_id);
        }
    }
}

/// An outcome about which nobody is asked stays as it is.
pub proof fn unasked_outcomes_stay(
    outcomes: Seq<PairCheckOutcomeModel>,
    asked: Seq<(Seq<char>, Seq<RetypeItemModel>)>,
    replies: Map<Seq<char>, RetypeReplyModel>,
    j: int,
)
    requires
        0 <= j < outcomes.len(),
        forall|k: int| 0 <= k < asked.len() ==> !has_item((#[trigger] asked[k]).1, outcomes[j].pair_key),
    ensures
        after_replies(outcomes, asked, replies).len() == outcomes.len(),
        after_replies(outcomes, asked, replies)[j] == outcomes[j],
    decreases asked.len(),
{
    if asked.len() > 0 {
        let init = asked.drop_last();
        assert forall|k: int| 0 <= k < init.len() implies !has_item((#[trigger] init[k]).1, outcomes[j].pair_key) by {
            assert(init[k] == asked[k]);
        }
        unasked_outcomes_stay(outcomes, init, replies, j);
        assert(!has_item(asked[asked.len() - 1].1, outcomes[j].pair_key));
    }
}

/// When the check did not run, every pair that it was to probe is unverifiable
/// and unresolved in the end, for the reason that it did not run; no answer
/// about a retyped call changes that.
pub proof fn failed_check_leaves_probed_pairs_open(
    repos: Seq<CloudRepoDataModel>,
    local: Map<Seq<char>, LocalConsumerModel>,
    reason: Seq<char>,
    replies: Map<Seq<char>, RetypeReplyModel>,
    i: int,
)
    requires
        0 <= i < check_pairs(repos).len(),
        check_pairs(repos)[i].pre_verdict is None,
    ensures
        checked(repos, local, CheckReplyModel::Failed { reason }, replies).len() == check_pairs(repos).len(),
        checked(repos, local, CheckReplyModel::Failed { reason }, replies)[i] == outcome_of(
            check_pairs(repos)[i],
            not_compared(VerdictBucket::Unverifiable, "type check did not run: "@ + reason),
        ),
        checked(repos, local, CheckReplyModel::Failed { reason }, replies)[i].bucket == VerdictBucket::Unverifiable,
        !checked(repos, local, CheckReplyModel::Failed { reason }, replies)[i].resolved,
{
    broadcast use vstd::seq_lib::group_to_multiset_ensures;
    let reply = CheckReplyModel::Failed { reason };
    let pairs = check_pairs(repos);
    let blamed = Set::new(|pair_key: Seq<char>| is_blamed(pairs, reply, pair_key));
    let start = unprobed_outcomes(pairs) + probed_outcomes(pairs, reply);
    let asked = items_by_service(pairs, blamed, local);
    let after = after_replies(start, asked, replies);
    let done = by_rank(after);
    let key = pairs[i].spec.pair_key;
    one_outcome_per_pair(repos, local, reply, replies);
    assert(outcome_keys(done).len() == pair_keys(pairs).len());
    assert(outcome_keys(done)[i] == pair_keys(pairs)[i]);
    assert(done[i].pair_key == key);
    by_rank_sorts(after);
    assert(done.contains(done[i]));
    assert(done.to_multiset().contains(done[i]));
    assert(after.contains(done[i]));
    let j = choose|j: int| 0 <= j < after.len() && after[j] == done[i];
    replies_keep_keys(start, asked, replies);
    assert(outcome_keys(after).len() == outcome_keys(start).len());
    assert(outcome_keys(after)[j] == outcome_keys(start)[j]);
    assert(start[j].pair_key == key);
    assert(start.contains(start[j]));
    outcomes_are_of_pairs(pairs, reply, start[j]);
    let q = choose|q: int| 0 <= q < pairs.len() && first_outcome(#[trigger] pairs[q], reply) == start[j];
    same_key_same_pair(repos, q, i);
    assert(!blamed.contains(key)) by {
        if is_blamed(pairs, reply, key) {
            let p = choose|p: int|
                0 <= p < pairs.len() && (#[trigger] pairs[p]).spec.pair_key == key && pair_blames_consumer(pairs[p], reply);
            same_key_same_pair(repos, p, i);
            only_a_missing_surface_is_judged_before(repos, i);
        }
    }
    assert forall|k: int| 0 <= k < asked.len() implies !has_item((#[trigger] asked[k]).1, start[j].pair_key) by {
        if has_item(asked[k].1, key) {
            items_are_blamed(pairs, blamed, local, asked[k].0, key);
        }
    }
    unasked_outcomes_stay(start, asked, replies, j);
}

pub proof fn same_key_same_pair(repos: Seq<CloudRepoDataModel>, a: int, b: int)
    requires
        0 <= a < check_pairs(repos).len(),
        0 <= b < check_pairs(repos).len(),
        check_pairs(repos)[a].spec.pair_key == check_pairs(repos)[b].spec.pair_key,
    ensures
        a == b,
{
    pair_keys_ascend(repos);
    let pairs = check_pairs(repos);
    text_less_irreflexive(pairs[a].spec.pair_key);
    if a < b {
        assert(pairs[a].precedes(pairs[b]));
    } else if b < a {
        assert(pairs[b].precedes(pairs[a]));
    }
}

} // verus!
