//! What the outcomes of a check are for.

use crate::cloud_storage::{CloudRepoDataModel, ManifestTypeKind};
use crate::engine::outcomes::{
    blames_consumer, call_locators, is_blamed, pair_blames_consumer, probed_outcomes, probes, unprobed_outcomes,
    verdict_for, CallLocatorModel, CheckReplyModel, LocalConsumerModel, PairCheckOutcomeModel,
};
use crate::engine::pairs::{check_pairs, BuiltPairModel};
use crate::engine::retype::{
    after_replies, after_reply, answer_in, answer_to, checked, first_outcome, has_item, is_worth_logging, item_services,
    items_by_service, items_of, key_worth_logging, kind_word, mismatch_places, one_outcome_per_pair, outcome_keys,
    outcomes_are_of_pairs, pair_keys, replies_keep_keys, retype_item, retyped, same_key_same_pair,
    unasked_outcomes_stay, unresolved_line, unresolved_lines, RetypeReplyModel,
};
use crate::engine::type_texts::has_top_type;
use crate::laws::texts::{a_part_is_held, joined_holds_each};
use crate::sidecar::{
    CheckPairSpecModel, CheckVerdictModel, InferKind, InferRequestItemModel, ProbeProtocol, RetypeDiagnosticModel,
    RetypeItemModel, RetypeOutcomeModel, RetypeVerdict, VerdictBucket, VerdictSide,
};
use crate::sorting::{by_rank, by_rank_sorts};
use crate::text::{decimal, has_prefix, has_suffix, has_text, joined, occurs_at, sorted_distinct, sorted_distinct_sorts, text_less, text_less_irreflexive, trimmed};
use vstd::prelude::*;

verus! {

/// The outcome says of which pair it is.
pub open spec fn is_of(outcome: PairCheckOutcomeModel, pair: BuiltPairModel) -> bool {
    &&& outcome.pair_key == pair.spec.pair_key
    &&& outcome.pseudo_method == pair.pseudo_method
    &&& outcome.identity == pair.identity
    &&& outcome.consumer_file == pair.consumer_file
    &&& outcome.consumer_line == pair.consumer_line
    &&& outcome.type_kind == pair.type_kind
    &&& outcome.producer_alias == pair.producer_alias
    &&& outcome.consumer_alias == pair.consumer_alias
    &&& outcome.producer_service == pair.producer_service
    &&& outcome.consumer_service == pair.consumer_service
}

/// The last verdict for a pair.
pub open spec fn is_last_verdict(verdicts: Seq<CheckVerdictModel>, pair_key: Seq<char>, i: int) -> bool {
    &&& 0 <= i < verdicts.len()
    &&& verdicts[i].pair_key == pair_key
    &&& forall|j: int| i < j < verdicts.len() ==> (#[trigger] verdicts[j]).pair_key != pair_key
}

pub open spec fn has_verdict(verdicts: Seq<CheckVerdictModel>, pair_key: Seq<char>) -> bool {
    exists|i: int| 0 <= i < verdicts.len() && (#[trigger] verdicts[i]).pair_key == pair_key
}

/// The outcome repeats a verdict.
pub open spec fn repeats(outcome: PairCheckOutcomeModel, verdict: CheckVerdictModel) -> bool {
    &&& outcome.bucket == verdict.bucket
    &&& outcome.gate == verdict.gate
    &&& outcome.diagnostic == verdict.diagnostic
    &&& outcome.resolved == verdict.resolved
    &&& outcome.unresolved_reason == verdict.unresolved_reason
    &&& outcome.notes == verdict.notes
}

/// Nothing was established of the pair, and the outcome says why.
pub open spec fn is_open(outcome: PairCheckOutcomeModel, bucket: VerdictBucket) -> bool {
    &&& outcome.bucket == bucket
    &&& !outcome.resolved
    &&& outcome.gate is None
    &&& outcome.diagnostic is Some
    &&& outcome.unresolved_reason == outcome.diagnostic
    &&& outcome.notes.len() == 0
}

/// What is said of a pair before any call is retyped: what was known before, or
/// the last verdict of the check, or that there is none.
pub open spec fn is_judged(outcome: PairCheckOutcomeModel, pair: BuiltPairModel, reply: CheckReplyModel) -> bool {
    match pair.pre_verdict {
        Some((bucket, reason)) => is_open(outcome, bucket) && outcome.diagnostic == Some(reason),
        None => match reply {
            CheckReplyModel::Verdicts { verdicts } => if has_verdict(verdicts, pair.spec.pair_key) {
                exists|i: int| #[trigger]
                    is_last_verdict(verdicts, pair.spec.pair_key, i) && repeats(outcome, verdicts[i])
            } else {
                is_open(outcome, VerdictBucket::Unverifiable)
            },
            CheckReplyModel::Failed { reason } => is_open(outcome, VerdictBucket::Unverifiable) && has_suffix(
                outcome.diagnostic->0,
                reason,
            ),
        },
    }
}

/// The consumer left the pair open: it has no types to check, or the last verdict
/// says that it is the consumer's type that is not known, and no mismatch was
/// found, and there is a body to compare.
pub open spec fn consumer_left_open(pair: BuiltPairModel, reply: CheckReplyModel) -> bool {
    ||| pair.pre_verdict_side == Some(VerdictSide::Consumer)
    ||| pair.pre_verdict is None && (reply matches CheckReplyModel::Verdicts { verdicts } && exists|i: int| #[trigger]
        is_last_verdict(verdicts, pair.spec.pair_key, i) && verdicts[i].unresolved_side == Some(VerdictSide::Consumer)
            && verdicts[i].bucket != VerdictBucket::Incompatible && (verdicts[i].gate matches Some(gate) ==> !has_suffix(
            gate,
            ":void"@,
        ) && !has_suffix(gate, ":form"@)))
}

/// The consumer's call is retyped: of an HTTP response that the consumer left
/// open, whose call is known in this run, against a producer's type that says
/// something.
pub open spec fn is_asked(pair: BuiltPairModel, reply: CheckReplyModel, local: Map<Seq<char>, LocalConsumerModel>) -> bool {
    &&& consumer_left_open(pair, reply)
    &&& pair.spec.protocol == ProbeProtocol::Http
    &&& pair.type_kind == ManifestTypeKind::Response
    &&& local.contains_key(pair.consumer_service)
    &&& local[pair.consumer_service].calls.contains_key(pair.consumer_alias)
    &&& pair.producer_expanded is Some
    &&& trimmed(pair.producer_expanded->0).len() > 0
    &&& !has_top_type(pair.producer_expanded->0)
}

/// The item asks to retype this call with the producer's type.
pub open spec fn asks_for(item: RetypeItemModel, pair: BuiltPairModel, call: CallLocatorModel) -> bool {
    &&& item.item_id == pair.spec.pair_key
    &&& item.file_path == call.file_path
    &&& item.line_number == call.line_number
    &&& item.span_start == call.span_start
    &&& item.span_end == call.span_end
    &&& item.expression_text == call.expression_text
    &&& item.expression_line == call.expression_line
    &&& Some(item.producer_type) == pair.producer_expanded
    &&& item.wire
}

pub open spec fn is_last_answer(answers: Seq<RetypeOutcomeModel>, item_id: Seq<char>, i: int) -> bool {
    &&& 0 <= i < answers.len()
    &&& answers[i].item_id == item_id
    &&& forall|j: int| i < j < answers.len() ==> (#[trigger] answers[j]).item_id != item_id
}

pub open spec fn has_answer(answers: Seq<RetypeOutcomeModel>, item_id: Seq<char>) -> bool {
    exists|i: int| 0 <= i < answers.len() && (#[trigger] answers[i]).item_id == item_id
}

/// A finding in the consumer's code: its file, its line and what it says.
pub open spec fn place_of(file: Seq<char>, found: RetypeDiagnosticModel) -> Seq<char> {
    file + ":"@ + decimal(found.line as nat) + ": "@ + found.message
}

/// What an answer makes of an outcome. A mismatch that the check found stands. A
/// mismatch in the consumer's code makes the pair incompatible and says what was
/// found; an agreement makes it compatible; an abstention adds its reason and
/// changes nothing else.
pub open spec fn settles(after: PairCheckOutcomeModel, before: PairCheckOutcomeModel, answer: RetypeOutcomeModel) -> bool {
    if before.bucket == VerdictBucket::Incompatible {
        after == before
    } else {
        match answer.outcome {
            RetypeVerdict::Mismatch => {
                &&& after.bucket == VerdictBucket::Incompatible
                &&& after.resolved
                &&& after.unresolved_reason is None
                &&& after.gate is Some
                &&& after.diagnostic is Some
                &&& forall|d: int|
                    0 <= d < answer.diagnostics.len() ==> has_text(
                        after.diagnostic->0,
                        place_of(before.consumer_file, #[trigger] answer.diagnostics[d]),
                    )
                &&& after.notes.len() == before.notes.len() + 1
                &&& after.notes.take(before.notes.len() as int) == before.notes
            },
            RetypeVerdict::Agrees => {
                &&& after.bucket == VerdictBucket::Compatible
                &&& after.resolved
                &&& after.unresolved_reason is None
                &&& after.gate is None
                &&& after.diagnostic is None
                &&& after.notes.len() == before.notes.len() + 1
                &&& after.notes.take(before.notes.len() as int) == before.notes
            },
            RetypeVerdict::Abstain => adds_reason(after, before, answer.reason),
        }
    }
}

/// The outcome is as it was but for a reason more.
pub open spec fn adds_reason(after: PairCheckOutcomeModel, before: PairCheckOutcomeModel, reason: Option<Seq<char>>) -> bool {
    &&& after == (PairCheckOutcomeModel { unresolved_reason: after.unresolved_reason, ..before })
    &&& after.unresolved_reason is Some
    &&& reason is Some ==> has_suffix(after.unresolved_reason->0, reason->0)
    &&& before.unresolved_reason is Some ==> has_prefix(after.unresolved_reason->0, before.unresolved_reason->0)
}

proof fn verdicts_are_the_last(verdicts: Seq<CheckVerdictModel>, pair_key: Seq<char>)
    ensures
        verdict_for(verdicts, pair_key) is Some <==> has_verdict(verdicts, pair_key),
        verdict_for(verdicts, pair_key) is Some ==> exists|i: int| #[trigger]
            is_last_verdict(verdicts, pair_key, i) && verdict_for(verdicts, pair_key) == Some(verdicts[i]),
        forall|i: int| #[trigger] is_last_verdict(verdicts, pair_key, i) ==> verdict_for(verdicts, pair_key) == Some(verdicts[i]),
    decreases verdicts.len(),
{
    if verdicts.len() > 0 {
        let n = verdicts.len() - 1;
        let init = verdicts.drop_last();
        verdicts_are_the_last(init, pair_key);
        if verdicts[n].pair_key == pair_key {
            assert(is_last_verdict(verdicts, pair_key, n));
            assert forall|i: int| #[trigger] is_last_verdict(verdicts, pair_key, i) implies verdict_for(verdicts, pair_key) == Some(
                verdicts[i],
            ) by {
                if i < n {
                    assert(verdicts[n].pair_key != pair_key);
                }
            }
        } else {
            if has_verdict(init, pair_key) {
                let i = choose|i: int| #[trigger]
                    is_last_verdict(init, pair_key, i) && verdict_for(init, pair_key) == Some(init[i]);
                assert(verdicts[i] == init[i]);
                assert forall|j: int| i < j < verdicts.len() implies (#[trigger] verdicts[j]).pair_key != pair_key by {
                    if j < n {
                        assert(init[j] == verdicts[j]);
                    }
                }
                assert(is_last_verdict(verdicts, pair_key, i));
            }
            if has_verdict(verdicts, pair_key) {
                let i = choose|i: int| 0 <= i < verdicts.len() && (#[trigger] verdicts[i]).pair_key == pair_key;
                assert(init[i] == verdicts[i]);
            }
            assert forall|i: int| #[trigger] is_last_verdict(verdicts, pair_key, i) implies verdict_for(verdicts, pair_key) == Some(
                verdicts[i],
            ) by {
                assert(init[i] == verdicts[i]);
                assert forall|j: int| i < j < init.len() implies (#[trigger] init[j]).pair_key != pair_key by {
                    assert(init[j] == verdicts[j]);
                }
                assert(is_last_verdict(init, pair_key, i));
            }
        }
    }
}

proof fn answers_are_the_last(answers: Seq<RetypeOutcomeModel>, item_id: Seq<char>)
    ensures
        answer_in(answers, item_id) is Some <==> has_answer(answers, item_id),
        answer_in(answers, item_id) is Some ==> exists|i: int| #[trigger]
            is_last_answer(answers, item_id, i) && answer_in(answers, item_id) == Some(answers[i]),
    decreases answers.len(),
{
    if answers.len() > 0 {
        let n = answers.len() - 1;
        let init = answers.drop_last();
        answers_are_the_last(init, item_id);
        if answers[n].item_id == item_id {
            assert(is_last_answer(answers, item_id, n));
        } else {
            if has_answer(init, item_id) {
                let i = choose|i: int| #[trigger] is_last_answer(init, item_id, i) && answer_in(init, item_id) == Some(init[i]);
                assert(answers[i] == init[i]);
                assert forall|j: int| i < j < answers.len() implies (#[trigger] answers[j]).item_id != item_id by {
                    if j < n {
                        assert(init[j] == answers[j]);
                    }
                }
                assert(is_last_answer(answers, item_id, i));
            }
            if has_answer(answers, item_id) {
                let i = choose|i: int| 0 <= i < answers.len() && (#[trigger] answers[i]).item_id == item_id;
                assert(init[i] == answers[i]);
            }
        }
    }
}

proof fn ends_with_the_end(a: Seq<char>, b: Seq<char>)
    ensures
        has_suffix(a + b, b),
        has_prefix(a + b, a),
{
    assert((a + b).subrange(a.len() as int, (a + b).len() as int) =~= b);
    assert((a + b).subrange(0, a.len() as int) =~= a);
}

/// The first outcome of a pair is what was established of it.
pub proof fn a_pair_is_judged_by_its_verdict(pair: BuiltPairModel, reply: CheckReplyModel)
    ensures
        is_of(first_outcome(pair, reply), pair),
        is_judged(first_outcome(pair, reply), pair, reply),
{
    match reply {
        CheckReplyModel::Verdicts { verdicts } => {
            verdicts_are_the_last(verdicts, pair.spec.pair_key);
        },
        CheckReplyModel::Failed { reason } => {
            ends_with_the_end("type check did not run: "@, reason);
        },
    }
}

/// An answer settles an outcome.
pub proof fn an_answer_settles_an_outcome(outcome: PairCheckOutcomeModel, answer: RetypeOutcomeModel)
    ensures
        settles(retyped(outcome, answer), outcome, answer),
        retyped(outcome, answer).pair_key == outcome.pair_key,
        forall|pair: BuiltPairModel| is_of(outcome, pair) ==> #[trigger] is_of(retyped(outcome, answer), pair),
{
    let after = retyped(outcome, answer);
    if outcome.bucket != VerdictBucket::Incompatible {
        match answer.outcome {
            RetypeVerdict::Abstain => {
                let why = match answer.reason {
                    Some(reason) => reason,
                    None => "no reason given"@,
                };
                let middle = "; retyping the consumer's call did not decide it: "@;
                let alone = "retyping the consumer's call did not decide it: "@;
                match outcome.unresolved_reason {
                    Some(reason) => {
                        ends_with_the_end(reason + middle, why);
                        assert(reason + middle + why =~= reason + (middle + why));
                        ends_with_the_end(reason, middle + why);
                    },
                    None => {
                        ends_with_the_end(alone, why);
                    },
                }
            },
            _ => {
                assert(after.notes.take(outcome.notes.len() as int) =~= outcome.notes);
                let places = mismatch_places(outcome.consumer_file, answer.diagnostics);
                let said = "the consumer uses what the producer's response does not provide: "@;
                assert forall|d: int| 0 <= d < answer.diagnostics.len() implies has_text(
                    said + joined(places, "; "@),
                    place_of(outcome.consumer_file, #[trigger] answer.diagnostics[d]),
                ) by {
                    joined_holds_each(places, "; "@, d);
                    a_part_is_held(said, joined(places, "; "@), Seq::empty(), places[d]);
                    assert(said + joined(places, "; "@) + Seq::<char>::empty() =~= said + joined(places, "; "@));
                }
            },
        }
    }
}

proof fn items_are_those_of_pairs(
    pairs: Seq<BuiltPairModel>,
    blamed: Set<Seq<char>>,
    local: Map<Seq<char>, LocalConsumerModel>,
    service: Seq<char>,
    item: RetypeItemModel,
)
    ensures
        items_of(pairs, blamed, local, service).contains(item) <==> exists|q: int|
            0 <= q < pairs.len() && (#[trigger] pairs[q]).consumer_service == service && retype_item(pairs[q], blamed, local) == Some(
                item,
            ),
    decreases pairs.len(),
{
    let all = items_of(pairs, blamed, local, service);
    if pairs.len() > 0 {
        let n = pairs.len() - 1;
        let init = pairs.drop_last();
        let before = items_of(init, blamed, local, service);
        items_are_those_of_pairs(init, blamed, local, service, item);
        if before.contains(item) {
            let k = choose|k: int| 0 <= k < before.len() && before[k] == item;
            assert(all[k] == item);
            let q = choose|q: int|
                0 <= q < init.len() && (#[trigger] init[q]).consumer_service == service && retype_item(init[q], blamed, local)
                    == Some(item);
            assert(pairs[q] == init[q]);
        }
        if all.contains(item) && !before.contains(item) {
            let k = choose|k: int| 0 <= k < all.len() && all[k] == item;
            if k < before.len() {
                assert(before[k] == item);
            }
            assert(pairs[n].consumer_service == service);
        }
        if exists|q: int|
            0 <= q < pairs.len() && (#[trigger] pairs[q]).consumer_service == service && retype_item(pairs[q], blamed, local)
                == Some(item) {
            let q = choose|q: int|
                0 <= q < pairs.len() && (#[trigger] pairs[q]).consumer_service == service && retype_item(pairs[q], blamed, local)
                    == Some(item);
            if q < n {
                assert(init[q] == pairs[q]);
            } else {
                assert(all[all.len() - 1] == item);
            }
        }
    }
}

proof fn services_are_those_of_items(
    pairs: Seq<BuiltPairModel>,
    blamed: Set<Seq<char>>,
    local: Map<Seq<char>, LocalConsumerModel>,
    q: int,
)
    requires
        0 <= q < pairs.len(),
        retype_item(pairs[q], blamed, local) is Some,
    ensures
        item_services(pairs, blamed, local).contains(pairs[q].consumer_service),
    decreases pairs.len(),
{
    let all = item_services(pairs, blamed, local);
    let init = pairs.drop_last();
    let before = item_services(init, blamed, local);
    if q == pairs.len() - 1 {
        assert(all[all.len() - 1] == pairs[q].consumer_service);
    } else {
        assert(init[q] == pairs[q]);
        services_are_those_of_items(init, blamed, local, q);
        let k = choose|k: int| 0 <= k < before.len() && before[k] == pairs[q].consumer_service;
        assert(all[k] == before[k]);
    }
}

/// One service answers for an outcome.
proof fn one_service_answers(
    outcomes: Seq<PairCheckOutcomeModel>,
    asked: Seq<(Seq<char>, Seq<RetypeItemModel>)>,
    replies: Map<Seq<char>, RetypeReplyModel>,
    j: int,
    k: int,
)
    requires
        0 <= j < outcomes.len(),
        0 <= k < asked.len(),
        forall|m: int| 0 <= m < asked.len() && m != k ==> !has_item((#[trigger] asked[m]).1, outcomes[j].pair_key),
    ensures
        after_replies(outcomes, asked, replies).len() == outcomes.len(),
        after_replies(outcomes, asked, replies)[j] == (if replies.contains_key(asked[k].0) {
            after_reply(outcomes[j], asked[k].1, replies[asked[k].0])
        } else {
            outcomes[j]
        }),
    decreases asked.len(),
{
    let n = asked.len() - 1;
    let init = asked.drop_last();
    let before = after_replies(outcomes, init, replies);
    if k == n {
        assert forall|m: int| 0 <= m < init.len() implies !has_item((#[trigger] init[m]).1, outcomes[j].pair_key) by {
            assert(init[m] == asked[m]);
        }
        unasked_outcomes_stay(outcomes, init, replies, j);
    } else {
        assert forall|m: int| 0 <= m < init.len() && m != k implies !has_item((#[trigger] init[m]).1, outcomes[j].pair_key) by {
            assert(init[m] == asked[m]);
        }
        assert(init[k] == asked[k]);
        one_service_answers(outcomes, init, replies, j, k);
        assert(before[j].pair_key == outcomes[j].pair_key) by {
            if replies.contains_key(asked[k].0) {
                match answer_to(asked[k].1, replies[asked[k].0], outcomes[j].pair_key) {
                    Some(answer) => {
                        an_answer_settles_an_outcome(outcomes[j], answer);
                    },
                    None => {},
                }
            }
        }
        assert(!has_item(asked[n].1, outcomes[j].pair_key));
    }
}

proof fn who_is_blamed_left_it_open(repos: Seq<CloudRepoDataModel>, reply: CheckReplyModel, i: int)
    requires
        0 <= i < check_pairs(repos).len(),
    ensures
        is_blamed(check_pairs(repos), reply, check_pairs(repos)[i].spec.pair_key) <==> consumer_left_open(
            check_pairs(repos)[i],
            reply,
        ),
{
    let pairs = check_pairs(repos);
    let key = pairs[i].spec.pair_key;
    if is_blamed(pairs, reply, key) {
        let p = choose|p: int|
            0 <= p < pairs.len() && (#[trigger] pairs[p]).spec.pair_key == key && pair_blames_consumer(pairs[p], reply);
        same_key_same_pair(repos, p, i);
    }
    match reply {
        CheckReplyModel::Verdicts { verdicts } => {
            verdicts_are_the_last(verdicts, key);
            if verdict_for(verdicts, key) is Some {
                let m = choose|m: int| #[trigger]
                    is_last_verdict(verdicts, key, m) && verdict_for(verdicts, key) == Some(verdicts[m]);
                assert(blames_consumer(verdicts[m]) == (verdicts[m].unresolved_side == Some(VerdictSide::Consumer)
                    && verdicts[m].bucket != VerdictBucket::Incompatible && (verdicts[m].gate matches Some(gate) ==> !has_suffix(
                    gate,
                    ":void"@,
                ) && !has_suffix(gate, ":form"@))));
            }
        },
        CheckReplyModel::Failed { reason } => {},
    }
    assert(pair_blames_consumer(pairs[i], reply) <==> consumer_left_open(pairs[i], reply));
    if pair_blames_consumer(pairs[i], reply) {
        assert(pairs[i].spec.pair_key == key);
    }
}

/// A pair's call is asked about exactly where its consumer left it open and both
/// the call and the producer's type are known, and the item names that call and
/// that type.
pub proof fn what_is_asked_is_the_call(
    repos: Seq<CloudRepoDataModel>,
    local: Map<Seq<char>, LocalConsumerModel>,
    reply: CheckReplyModel,
    i: int,
)
    requires
        0 <= i < check_pairs(repos).len(),
    ensures
        ({
            let pairs = check_pairs(repos);
            let blamed = Set::new(|pair_key: Seq<char>| is_blamed(pairs, reply, pair_key));
            let pair = pairs[i];
            &&& retype_item(pair, blamed, local) is Some <==> is_asked(pair, reply, local)
            &&& is_asked(pair, reply, local) ==> asks_for(
                retype_item(pair, blamed, local)->0,
                pair,
                local[pair.consumer_service].calls[pair.consumer_alias],
            )
        }),
{
    who_is_blamed_left_it_open(repos, reply, i);
}

/// Every outcome of a check is of its pair, in the order of the pairs. It is what
/// was established of the pair, and where the consumer's call was asked about,
/// what the last answer makes of that; nothing else changes it.
pub proof fn an_outcome_is_what_was_established(
    repos: Seq<CloudRepoDataModel>,
    local: Map<Seq<char>, LocalConsumerModel>,
    reply: CheckReplyModel,
    replies: Map<Seq<char>, RetypeReplyModel>,
    i: int,
) -> (first: PairCheckOutcomeModel)
    requires
        0 <= i < check_pairs(repos).len(),
    ensures
        checked(repos, local, reply, replies).len() == check_pairs(repos).len(),
        is_of(checked(repos, local, reply, replies)[i], check_pairs(repos)[i]),
        is_of(first, check_pairs(repos)[i]),
        is_judged(first, check_pairs(repos)[i], reply),
        ({
            let pair = check_pairs(repos)[i];
            let last = checked(repos, local, reply, replies)[i];
            if is_asked(pair, reply, local) && replies.contains_key(pair.consumer_service) {
                match replies[pair.consumer_service] {
                    RetypeReplyModel::Answers { answers } => if has_answer(answers, pair.spec.pair_key) {
                        exists|j: int| #[trigger] is_last_answer(answers, pair.spec.pair_key, j) && settles(last, first, answers[j])
                    } else {
                        last == first
                    },
                    RetypeReplyModel::Failed { reason } => first.bucket == VerdictBucket::Incompatible && last == first || adds_reason(
                        last,
                        first,
                        Some(reason),
                    ),
                }
            } else {
                last == first
            }
        }),
{
    broadcast use vstd::seq_lib::group_to_multiset_ensures;

    let pairs = check_pairs(repos);
    let pair = pairs[i];
    let key = pair.spec.pair_key;
    let blamed = Set::new(|pair_key: Seq<char>| is_blamed(pairs, reply, pair_key));
    let start = unprobed_outcomes(pairs) + probed_outcomes(pairs, reply);
    let asked = items_by_service(pairs, blamed, local);
    let after = after_replies(start, asked, replies);
    let done = by_rank(after);
    one_outcome_per_pair(repos, local, reply, replies);
    assert(outcome_keys(done).len() == pair_keys(pairs).len());
    assert(outcome_keys(done)[i] == pair_keys(pairs)[i]);
    assert(done[i].pair_key == key);
    by_rank_sorts(after);
    assert(done.contains(done[i]));
    assert(done.to_multiset().contains(done[i]));
    assert(after.contains(done[i]));
    let j = choose|j: int| 0 <= j < after.len() && after[j] == done[i];
    replies_keep_keys(start, asked, replies);
    assert(outcome_keys(after).len() == outcome_keys(start).len());
    assert(outcome_keys(after)[j] == outcome_keys(start)[j]);
    assert(start[j].pair_key == key);
    assert(start.contains(start[j]));
    outcomes_are_of_pairs(pairs, reply, start[j]);
    let q = choose|q: int| 0 <= q < pairs.len() && first_outcome(#[trigger] pairs[q], reply) == start[j];
    same_key_same_pair(repos, q, i);
    let first = start[j];
    a_pair_is_judged_by_its_verdict(pair, reply);
    what_is_asked_is_the_call(repos, local, reply, i);
    let services = sorted_distinct(item_services(pairs, blamed, local));
    sorted_distinct_sorts(item_services(pairs, blamed, local));
    assert forall|m: int| 0 <= m < asked.len() && has_item((#[trigger] asked[m]).1, key) implies asked[m].0
        == pair.consumer_service && is_asked(pair, reply, local) by {
        let items = items_of(pairs, blamed, local, services[m]);
        assert(asked[m] == (services[m], items));
        let t = choose|t: int| 0 <= t < items.len() && (#[trigger] items[t]).item_id == key;
        assert(items.contains(items[t]));
        items_are_those_of_pairs(pairs, blamed, local, services[m], items[t]);
        let p = choose|p: int|
            0 <= p < pairs.len() && (#[trigger] pairs[p]).consumer_service == services[m] && retype_item(pairs[p], blamed, local)
                == Some(items[t]);
        same_key_same_pair(repos, p, i);
    }
    if is_asked(pair, reply, local) {
        services_are_those_of_items(pairs, blamed, local, i);
        assert(services.contains(pair.consumer_service));
        let k = choose|k: int| 0 <= k < services.len() && services[k] == pair.consumer_service;
        let items = items_of(pairs, blamed, local, services[k]);
        assert(asked[k] == (services[k], items));
        let item = retype_item(pair, blamed, local)->0;
        assert(retype_item(pairs[i], blamed, local) == Some(item));
        items_are_those_of_pairs(pairs, blamed, local, services[k], item);
        let t = choose|t: int| 0 <= t < items.len() && items[t] == item;
        assert(items[t].item_id == key);
        assert(has_item(asked[k].1, key));
        assert forall|m: int| 0 <= m < asked.len() && m != k implies !has_item((#[trigger] asked[m]).1, start[j].pair_key) by {
            if has_item(asked[m].1, key) {
                assert(asked[m].0 == services[m]);
                text_less_irreflexive(services[k]);
                if m < k {
                    assert(text_less(services[m], services[k]));
                } else {
                    assert(text_less(services[k], services[m]));
                }
            }
        }
        one_service_answers(start, asked, replies, j, k);
        if replies.contains_key(pair.consumer_service) {
            match replies[pair.consumer_service] {
                RetypeReplyModel::Answers { answers } => {
                    answers_are_the_last(answers, key);
                    if answer_in(answers, key) is Some {
                        an_answer_settles_an_outcome(first, answer_in(answers, key)->0);
                    }
                },
                RetypeReplyModel::Failed { reason } => {
                    let answer = answer_to(items, replies[pair.consumer_service], key)->0;
                    an_answer_settles_an_outcome(first, answer);
                    ends_with_the_end("the retype check did not run: "@, reason);
                    if first.bucket != VerdictBucket::Incompatible {
                        endings_end(done[i].unresolved_reason->0, answer.reason->0, reason);
                    }
                },
            }
        }
    } else {
        unasked_outcomes_stay(start, asked, replies, j);
    }
    first
}

proof fn endings_end(s: Seq<char>, middle: Seq<char>, end: Seq<char>)
    requires
        has_suffix(s, middle),
        has_suffix(middle, end),
    ensures
        has_suffix(s, end),
{
    let a = s.len() - middle.len();
    let b = middle.len() - end.len();
    assert(s.subrange(s.len() - end.len(), s.len() as int) =~= s.subrange(a, s.len() as int).subrange(b, middle.len() as int));
}

/// The call of an alias is the first inferred call result that names it.
pub proof fn a_call_is_where_its_result_is_inferred(infer: Seq<InferRequestItemModel>, alias: Seq<char>)
    ensures
        call_locators(infer).contains_key(alias) <==> exists|i: int|
            0 <= i < infer.len() && (#[trigger] infer[i]).alias == Some(alias) && infer[i].infer_kind == InferKind::CallResult,
        call_locators(infer).contains_key(alias) ==> exists|i: int|
            0 <= i < infer.len() && (#[trigger] infer[i]).alias == Some(alias) && infer[i].infer_kind == InferKind::CallResult && (
            forall|j: int|
                0 <= j < i ==> !((#[trigger] infer[j]).alias == Some(alias) && infer[j].infer_kind == InferKind::CallResult)) && {
                let call = call_locators(infer)[alias];
                &&& call.file_path == infer[i].file_path
                &&& call.line_number == infer[i].line_number
                &&& call.span_start == infer[i].span_start
                &&& call.span_end == infer[i].span_end
                &&& call.expression_text == infer[i].expression_text
                &&& call.expression_line == infer[i].expression_line
            },
    decreases infer.len(),
{
    if infer.len() > 0 {
        let n = infer.len() - 1;
        let init = infer.drop_last();
        a_call_is_where_its_result_is_inferred(init, alias);
        assert forall|i: int| 0 <= i < n implies #[trigger] infer[i] == init[i] by {}
        assert(infer.last() == infer[n]);
        if call_locators(init).contains_key(alias) {
            let i = choose|i: int|
                0 <= i < init.len() && (#[trigger] init[i]).alias == Some(alias) && init[i].infer_kind == InferKind::CallResult && (
                forall|j: int|
                    0 <= j < i ==> !((#[trigger] init[j]).alias == Some(alias) && init[j].infer_kind == InferKind::CallResult))
                    && {
                    let call = call_locators(init)[alias];
                    &&& call.file_path == init[i].file_path
                    &&& call.line_number == init[i].line_number
                    &&& call.span_start == init[i].span_start
                    &&& call.span_end == init[i].span_end
                    &&& call.expression_text == init[i].expression_text
                    &&& call.expression_line == init[i].expression_line
                };
            assert(infer[i].alias == Some(alias));
        }
    }
}

/// The line about a pair that is no fact names the call, both services and the
/// reason that is known; a fact has no line.
pub proof fn a_line_says_what_is_open(outcome: PairCheckOutcomeModel)
    ensures
        unresolved_line(outcome) is None <==> outcome.resolved,
        unresolved_line(outcome) matches Some(line) ==> {
            &&& has_text(line, outcome.pseudo_method)
            &&& has_text(line, outcome.identity)
            &&& has_text(line, outcome.consumer_file + ":"@ + decimal(outcome.consumer_line as nat))
            &&& has_text(line, outcome.consumer_service)
            &&& has_text(line, outcome.producer_service)
            &&& outcome.unresolved_reason is Some ==> has_suffix(line, outcome.unresolved_reason->0)
            &&& outcome.unresolved_reason is None && outcome.diagnostic is Some ==> has_suffix(line, outcome.diagnostic->0)
        },
{
    if unresolved_line(outcome) is Some {
        let why = match (outcome.unresolved_reason, outcome.diagnostic) {
            (Some(reason), _) => reason,
            (None, Some(diagnostic)) => diagnostic,
            (None, None) => "no reason recorded"@,
        };
        let number = decimal(outcome.consumer_line as nat);
        let a = "Types not verified: "@ + outcome.pseudo_method;
        let b = a + " "@ + outcome.identity;
        let c = b + " "@ + kind_word(outcome.type_kind) + " ("@;
        let d = c + outcome.consumer_file + ":"@ + number;
        let e = d + " in "@ + outcome.consumer_service;
        let f = e + " against "@ + outcome.producer_service;
        let g = f + "): "@;
        let place = outcome.consumer_file + ":"@ + number;
        the_end_is_held("Types not verified: "@, outcome.pseudo_method);
        the_end_is_held(a + " "@, outcome.identity);
        assert(d =~= c + place);
        the_end_is_held(c, place);
        the_end_is_held(d + " in "@, outcome.consumer_service);
        the_end_is_held(e + " against "@, outcome.producer_service);
        ends_with_the_end(g, why);
        more_is_held(a, " "@, outcome.pseudo_method);
        more_is_held(a + " "@, outcome.identity, outcome.pseudo_method);
        assert forall|p: Seq<char>| #[trigger] has_text(b, p) implies has_text(d, p) by {
            more_is_held(b, " "@, p);
            more_is_held(b + " "@, kind_word(outcome.type_kind), p);
            more_is_held(b + " "@ + kind_word(outcome.type_kind), " ("@, p);
            more_is_held(c, place, p);
        }
        assert forall|p: Seq<char>| #[trigger] has_text(d, p) implies has_text(e, p) by {
            more_is_held(d, " in "@, p);
            more_is_held(d + " in "@, outcome.consumer_service, p);
        }
        assert forall|p: Seq<char>| #[trigger] has_text(e, p) implies has_text(f, p) by {
            more_is_held(e, " against "@, p);
            more_is_held(e + " against "@, outcome.producer_service, p);
        }
        assert forall|p: Seq<char>| #[trigger] has_text(f, p) implies has_text(g + why, p) by {
            more_is_held(f, "): "@, p);
            more_is_held(g, why, p);
        }
    }
}

proof fn the_end_is_held(a: Seq<char>, p: Seq<char>)
    ensures
        has_text(a + p, p),
{
    ends_with_the_end(a, p);
    assert(occurs_at(a + p, p, a.len() as int));
}

proof fn more_is_held(a: Seq<char>, b: Seq<char>, p: Seq<char>)
    ensures
        has_text(a, p) ==> has_text(a + b, p),
{
    if has_text(a, p) {
        let i = choose|i: int| occurs_at(a, p, i);
        assert((a + b).subrange(i, i + p.len()) =~= a.subrange(i, i + p.len()));
        assert(occurs_at(a + b, p, i));
    }
}

/// The pair concerns this run: a service of it was scanned, and something is
/// stated about what is exchanged.
pub open spec fn concerns_this_run(pair: BuiltPairModel, local: Map<Seq<char>, LocalConsumerModel>) -> bool {
    &&& local.contains_key(pair.producer_service) || local.contains_key(pair.consumer_service)
    &&& pair.type_kind == ManifestTypeKind::Response || pair.producer_expanded is Some || pair.consumer_expanded is Some
}

/// A line is logged exactly for an outcome that is no fact and whose pair
/// concerns this run.
pub proof fn what_is_open_is_logged(
    outcomes: Seq<PairCheckOutcomeModel>,
    pairs: Seq<BuiltPairModel>,
    local: Map<Seq<char>, LocalConsumerModel>,
    line: Seq<char>,
)
    ensures
        unresolved_lines(outcomes, pairs, local).contains(line) <==> exists|i: int, p: int|
            #![trigger outcomes[i], pairs[p]]
            0 <= i < outcomes.len() && 0 <= p < pairs.len() && unresolved_line(outcomes[i]) == Some(line)
                && pairs[p].spec.pair_key == outcomes[i].pair_key && concerns_this_run(pairs[p], local),
    decreases outcomes.len(),
{
    let all = unresolved_lines(outcomes, pairs, local);
    if outcomes.len() > 0 {
        let n = outcomes.len() - 1;
        let init = outcomes.drop_last();
        let before = unresolved_lines(init, pairs, local);
        what_is_open_is_logged(init, pairs, local, line);
        assert(outcomes.last() == outcomes[n]);
        if before.contains(line) {
            let k = choose|k: int| 0 <= k < before.len() && before[k] == line;
            assert(all[k] == line);
            let (i, p) = choose|i: int, p: int|
                #![trigger init[i], pairs[p]]
                0 <= i < init.len() && 0 <= p < pairs.len() && unresolved_line(init[i]) == Some(line) && pairs[p].spec.pair_key
                    == init[i].pair_key && concerns_this_run(pairs[p], local);
            assert(outcomes[i] == init[i]);
            assert(concerns_this_run(pairs[p], local));
        }
        if all.contains(line) && !before.contains(line) {
            let k = choose|k: int| 0 <= k < all.len() && all[k] == line;
            if k < before.len() {
                assert(before[k] == line);
            }
            let p = choose|p: int|
                0 <= p < pairs.len() && (#[trigger] pairs[p]).spec.pair_key == outcomes[n].pair_key && is_worth_logging(
                    pairs[p],
                    local,
                );
            assert(concerns_this_run(pairs[p], local));
            assert(outcomes[n] == outcomes[n]);
        }
        if exists|i: int, p: int|
            #![trigger outcomes[i], pairs[p]]
            0 <= i < outcomes.len() && 0 <= p < pairs.len() && unresolved_line(outcomes[i]) == Some(line)
                && pairs[p].spec.pair_key == outcomes[i].pair_key && concerns_this_run(pairs[p], local) {
            let (i, p) = choose|i: int, p: int|
                #![trigger outcomes[i], pairs[p]]
                0 <= i < outcomes.len() && 0 <= p < pairs.len() && unresolved_line(outcomes[i]) == Some(line)
                    && pairs[p].spec.pair_key == outcomes[i].pair_key && concerns_this_run(pairs[p], local);
            if i < n {
                assert(init[i] == outcomes[i]);
            } else {
                assert(is_worth_logging(pairs[p], local));
                assert(key_worth_logging(pairs, local, outcomes[n].pair_key));
                assert(all[all.len() - 1] == line);
            }
        }
    }
}

/// The pairs that are probed are those of which nothing is known before, each as
/// it is specified.
pub proof fn what_is_not_known_is_probed(pairs: Seq<BuiltPairModel>, spec: CheckPairSpecModel)
    ensures
        probes(pairs).contains(spec) <==> exists|i: int|
            0 <= i < pairs.len() && (#[trigger] pairs[i]).spec == spec && pairs[i].pre_verdict is None,
    decreases pairs.len(),
{
    let all = probes(pairs);
    if pairs.len() > 0 {
        let n = pairs.len() - 1;
        let init = pairs.drop_last();
        let before = probes(init);
        what_is_not_known_is_probed(init, spec);
        assert(pairs.last() == pairs[n]);
        if before.contains(spec) {
            let k = choose|k: int| 0 <= k < before.len() && before[k] == spec;
            assert(all[k] == spec);
            let i = choose|i: int| 0 <= i < init.len() && (#[trigger] init[i]).spec == spec && init[i].pre_verdict is None;
            assert(pairs[i] == init[i]);
        }
        if all.contains(spec) && !before.contains(spec) {
            let k = choose|k: int| 0 <= k < all.len() && all[k] == spec;
            if k < before.len() {
                assert(before[k] == spec);
            }
            assert(pairs[n].spec == spec);
        }
        if exists|i: int| 0 <= i < pairs.len() && (#[trigger] pairs[i]).spec == spec && pairs[i].pre_verdict is None {
            let i = choose|i: int| 0 <= i < pairs.len() && (#[trigger] pairs[i]).spec == spec && pairs[i].pre_verdict is None;
            if i < n {
                assert(init[i] == pairs[i]);
            } else {
                assert(all[all.len() - 1] == spec);
            }
        }
    }
}

} // verus!
