//! Judging pairs: verdicts, retyped consumer calls, and the outcome of every pair.

use crate::cloud_storage::ManifestTypeKind;
use crate::duplicate::Duplicate;
use crate::engine::pairs::{service_id, BuiltPair, BuiltPairModel};
use crate::ordered::{TextMap, TextSet};
use crate::sidecar::{
    CheckPairSpec, CheckPairSpecModel, CheckStubInput, CheckVerdict, CheckVerdictModel, InferKind, InferRequestItem,
    InferRequestItemModel, VerdictBucket, VerdictSide,
};
use crate::text::{concat, copy_list, copy_option, ends_with, has_suffix, same};
use vstd::prelude::*;

verus! {

/// What a check says of one pair.
#[derive(Debug, Clone, PartialEq, Eq)]
pub struct PairCheckOutcome {
    pub pair_key: String,
    pub pseudo_method: String,
    pub identity: String,
    pub consumer_file: String,
    pub consumer_line: u32,
    pub type_kind: ManifestTypeKind,
    pub bucket: VerdictBucket,
    pub gate: Option<String>,
    pub diagnostic: Option<String>,
    pub producer_alias: String,
    pub consumer_alias: String,
    pub producer_service: String,
    pub consumer_service: String,
    pub resolved: bool,
    pub unresolved_reason: Option<String>,
    pub notes: Vec<String>,
}

/// What a [`PairCheckOutcome`] holds.
pub struct PairCheckOutcomeModel {
    pub pair_key: Seq<char>,
    pub pseudo_method: Seq<char>,
    pub identity: Seq<char>,
    pub consumer_file: Seq<char>,
    pub consumer_line: u32,
    pub type_kind: ManifestTypeKind,
    pub bucket: VerdictBucket,
    pub gate: Option<Seq<char>>,
    pub diagnostic: Option<Seq<char>>,
    pub producer_alias: Seq<char>,
    pub consumer_alias: Seq<char>,
    pub producer_service: Seq<char>,
    pub consumer_service: Seq<char>,
    pub resolved: bool,
    pub unresolved_reason: Option<Seq<char>>,
    pub notes: Seq<Seq<char>>,
}

impl DeepView for PairCheckOutcome {
    type V = PairCheckOutcomeModel;

    open spec fn deep_view(&self) -> PairCheckOutcomeModel {
        PairCheckOutcomeModel {
            pair_key: self.pair_key@,
            pseudo_method: self.pseudo_method@,
            identity: self.identity@,
            consumer_file: self.consumer_file@,
            consumer_line: self.consumer_line,
            type_kind: self.type_kind,
            bucket: self.bucket,
            gate: self.gate.deep_view(),
            diagnostic: self.diagnostic.deep_view(),
            producer_alias: self.producer_alias@,
            consumer_alias: self.consumer_alias@,
            producer_service: self.producer_service@,
            consumer_service: self.consumer_service@,
            resolved: self.resolved,
            unresolved_reason: self.unresolved_reason.deep_view(),
            notes: self.notes.deep_view(),
        }
    }
}

impl Duplicate for PairCheckOutcome {
    fn duplicate(&self) -> (r: Self) {
        PairCheckOutcome {
            pair_key: self.pair_key.clone(),
            pseudo_method: self.pseudo_method.clone(),
            identity: self.identity.clone(),
            consumer_file: self.consumer_file.clone(),
            consumer_line: self.consumer_line,
            type_kind: self.type_kind,
            bucket: self.bucket,
            gate: copy_option(&self.gate),
            diagnostic: copy_option(&self.diagnostic),
            producer_alias: self.producer_alias.clone(),
            consumer_alias: self.consumer_alias.clone(),
            producer_service: self.producer_service.clone(),
            consumer_service: self.consumer_service.clone(),
            resolved: self.resolved,
            unresolved_reason: copy_option(&self.unresolved_reason),
            notes: copy_list(&self.notes),
        }
    }
}

/// The call that a consumer's response type was inferred from.
#[derive(Debug, Clone, PartialEq, Eq)]
pub struct CallLocator {
    pub file_path: String,
    pub line_number: u32,
    pub span_start: Option<u32>,
    pub span_end: Option<u32>,
    pub expression_text: Option<String>,
    pub expression_line: Option<u32>,
}

/// What a [`CallLocator`] holds.
pub struct CallLocatorModel {
    pub file_path: Seq<char>,
    pub line_number: u32,
    pub span_start: Option<u32>,
    pub span_end: Option<u32>,
    pub expression_text: Option<Seq<char>>,
    pub expression_line: Option<u32>,
}

impl DeepView for CallLocator {
    type V = CallLocatorModel;

    open spec fn deep_view(&self) -> CallLocatorModel {
        CallLocatorModel {
            file_path: self.file_path@,
            line_number: self.line_number,
            span_start: self.span_start,
            span_end: self.span_end,
            expression_text: self.expression_text.deep_view(),
            expression_line: self.expression_line,
        }
    }
}

impl Duplicate for CallLocator {
    fn duplicate(&self) -> (r: Self) {
        CallLocator {
            file_path: self.file_path.clone(),
            line_number: self.line_number,
            span_start: self.span_start,
            span_end: self.span_end,
            expression_text: copy_option(&self.expression_text),
            expression_line: self.expression_line,
        }
    }
}

/// A service scanned in this run, whose sources are on disk.
pub struct LocalConsumer {
    /// The root of the service's project.
    pub root: String,
    pub tsconfig: Option<String>,
    /// The call behind each response alias.
    pub calls: TextMap<CallLocator>,
}

/// What a [`LocalConsumer`] holds.
pub struct LocalConsumerModel {
    pub root: Seq<char>,
    pub tsconfig: Option<Seq<char>>,
    pub calls: Map<Seq<char>, CallLocatorModel>,
}

impl DeepView for LocalConsumer {
    type V = LocalConsumerModel;

    open spec fn deep_view(&self) -> LocalConsumerModel {
        LocalConsumerModel {
            root: self.root@,
            tsconfig: self.tsconfig.deep_view(),
            calls: self.calls.deep_view(),
        }
    }
}

// ---------------------------------------------------------------------------
// Local consumers
// ---------------------------------------------------------------------------

/// The local consumers of a run, recorded while each service is captured and
/// taken once, at the check.
pub struct LocalConsumers {
    pub by_service: TextMap<LocalConsumer>,
}

impl DeepView for LocalConsumers {
    type V = Map<Seq<char>, LocalConsumerModel>;

    open spec fn deep_view(&self) -> Map<Seq<char>, LocalConsumerModel> {
        self.by_service.deep_view()
    }
}

impl LocalConsumers {
    pub fn new() -> (r: Self)
        ensures
            r.deep_view() == Map::<Seq<char>, LocalConsumerModel>::empty(),
    {
        let r = LocalConsumers { by_service: TextMap::new() };
        assert(r.deep_view() =~= Map::<Seq<char>, LocalConsumerModel>::empty());
        r
    }

    /// Records a service's consumer calls; a later record replaces an earlier.
    pub fn record_local_consumer(&mut self, service_id: &str, consumer: LocalConsumer)
        ensures
            final(self).deep_view() == old(self).deep_view().insert(service_id@, consumer.deep_view()),
    {
        let ghost before = self.deep_view();
        self.by_service.insert(service_id.to_owned(), consumer);
        assert(self.deep_view() =~= before.insert(service_id@, consumer.deep_view()));
    }

    /// Takes every recorded consumer, leaving none.
    pub fn take_local_consumers(&mut self) -> (taken: LocalConsumers)
        ensures
            taken.deep_view() == old(self).deep_view(),
            final(self).deep_view() == Map::<Seq<char>, LocalConsumerModel>::empty(),
    {
        let mut taken = LocalConsumers::new();
        std::mem::swap(&mut taken, self);
        taken
    }
}

pub open spec fn locator_of(request: InferRequestItemModel) -> CallLocatorModel {
    CallLocatorModel {
        file_path: request.file_path,
        line_number: request.line_number,
        span_start: request.span_start,
        span_end: request.span_end,
        expression_text: request.expression_text,
        expression_line: request.expression_line,
    }
}

/// The locators after one more request: a call result keeps its locator unless
/// its alias has one.
pub open spec fn after_call(
    calls: Map<Seq<char>, CallLocatorModel>,
    request: InferRequestItemModel,
) -> Map<Seq<char>, CallLocatorModel> {
    match request.alias {
        Some(alias) => if request.infer_kind == InferKind::CallResult && !calls.contains_key(alias) {
            calls.insert(alias, locator_of(request))
        } else {
            calls
        },
        None => calls,
    }
}

pub open spec fn call_locators(infer: Seq<InferRequestItemModel>) -> Map<Seq<char>, CallLocatorModel>
    decreases infer.len(),
{
    if infer.len() == 0 {
        Map::empty()
    } else {
        after_call(call_locators(infer.drop_last()), infer.last())
    }
}

/// The consumer response locators among a service's inference requests; the
/// first locator of an alias wins.
pub fn consumer_call_locators(infer: &Vec<InferRequestItem>) -> (calls: TextMap<CallLocator>)
    ensures
        calls.deep_view() == call_locators(infer.deep_view()),
{
    let ghost all = infer.deep_view();
    let mut calls: TextMap<CallLocator> = TextMap::new();
    let mut i: usize = 0;
    assert(calls.deep_view() =~= call_locators(all.take(0)));
    while i < infer.len()
        invariant
            i <= infer.len(),
            all == infer.deep_view(),
            calls.deep_view() == call_locators(all.take(i as int)),
        decreases infer.len() - i,
    {
        let ghost before = calls.deep_view();
        let request = &infer[i];
        assert(all.take(i + 1).drop_last() == all.take(i as int));
        assert(all.take(i + 1).last() == request.deep_view());
        match &request.alias {
            Some(alias) => {
                if request.infer_kind == InferKind::CallResult && !calls.contains_key(alias.as_str()) {
                    let locator = CallLocator {
                        file_path: request.file_path.clone(),
                        line_number: request.line_number,
                        span_start: request.span_start,
                        span_end: request.span_end,
                        expression_text: copy_option(&request.expression_text),
                        expression_line: request.expression_line,
                    };
                    calls.insert(alias.clone(), locator);
                    assert(calls.deep_view() =~= before.insert(alias@, locator.deep_view()));
                }
            },
            None => {},
        }
        i += 1;
    }
    assert(all.take(all.len() as int) == all);
    calls
}

// ---------------------------------------------------------------------------
// Verdicts
// ---------------------------------------------------------------------------

/// What a check established about a pair.
pub struct Judgement {
    pub bucket: VerdictBucket,
    pub gate: Option<Seq<char>>,
    pub diagnostic: Option<Seq<char>>,
    pub resolved: bool,
    pub unresolved_reason: Option<Seq<char>>,
    pub notes: Seq<Seq<char>>,
}

pub open spec fn outcome_of(pair: BuiltPairModel, judged: Judgement) -> PairCheckOutcomeModel {
    PairCheckOutcomeModel {
        pair_key: pair.spec.pair_key,
        pseudo_method: pair.pseudo_method,
        identity: pair.identity,
        consumer_file: pair.consumer_file,
        consumer_line: pair.consumer_line,
        type_kind: pair.type_kind,
        bucket: judged.bucket,
        gate: judged.gate,
        diagnostic: judged.diagnostic,
        producer_alias: pair.producer_alias,
        consumer_alias: pair.consumer_alias,
        producer_service: pair.producer_service,
        consumer_service: pair.consumer_service,
        resolved: judged.resolved,
        unresolved_reason: judged.unresolved_reason,
        notes: judged.notes,
    }
}

/// Puts a judgement on a pair.
pub fn outcome_for(
    pair: &BuiltPair,
    bucket: VerdictBucket,
    gate: Option<String>,
    diagnostic: Option<String>,
    resolved: bool,
    unresolved_reason: Option<String>,
    notes: Vec<String>,
) -> (r: PairCheckOutcome)
    ensures
        r.deep_view() == outcome_of(
            pair.deep_view(),
            (Judgement {
                bucket,
                gate: gate.deep_view(),
                diagnostic: diagnostic.deep_view(),
                resolved,
                unresolved_reason: unresolved_reason.deep_view(),
                notes: notes.deep_view(),
            }),
        ),
{
    PairCheckOutcome {
        pair_key: pair.spec.pair_key.clone(),
        pseudo_method: pair.pseudo_method.clone(),
        identity: pair.identity.clone(),
        consumer_file: pair.consumer_file.clone(),
        consumer_line: pair.consumer_line,
        type_kind: pair.type_kind,
        bucket,
        gate,
        diagnostic,
        producer_alias: pair.producer_alias.clone(),
        consumer_alias: pair.consumer_alias.clone(),
        producer_service: pair.producer_service.clone(),
        consumer_service: pair.consumer_service.clone(),
        resolved,
        unresolved_reason,
        notes,
    }
}

/// A pair about which nothing was compared, with the reason.
pub open spec fn not_compared(bucket: VerdictBucket, reason: Seq<char>) -> Judgement {
    Judgement {
        bucket,
        gate: None,
        diagnostic: Some(reason),
        resolved: false,
        unresolved_reason: Some(reason),
        notes: Seq::empty(),
    }
}

pub open spec fn judged_as(verdict: CheckVerdictModel) -> Judgement {
    Judgement {
        bucket: verdict.bucket,
        gate: verdict.gate,
        diagnostic: verdict.diagnostic,
        resolved: verdict.resolved,
        unresolved_reason: verdict.unresolved_reason,
        notes: verdict.notes,
    }
}

/// The last verdict that a check gives for a pair.
pub open spec fn verdict_for(verdicts: Seq<CheckVerdictModel>, pair_key: Seq<char>) -> Option<CheckVerdictModel>
    decreases verdicts.len(),
{
    if verdicts.len() == 0 {
        None
    } else if verdicts.last().pair_key == pair_key {
        Some(verdicts.last())
    } else {
        verdict_for(verdicts.drop_last(), pair_key)
    }
}

/// What the sidecar's check came to: its verdicts, or why it did not run.
pub enum CheckReply {
    Verdicts { verdicts: Vec<CheckVerdict> },
    Failed { reason: String },
}

/// What a [`CheckReply`] holds.
pub enum CheckReplyModel {
    Verdicts { verdicts: Seq<CheckVerdictModel> },
    Failed { reason: Seq<char> },
}

impl DeepView for CheckReply {
    type V = CheckReplyModel;

    open spec fn deep_view(&self) -> CheckReplyModel {
        match self {
            CheckReply::Verdicts { verdicts } => CheckReplyModel::Verdicts { verdicts: verdicts.deep_view() },
            CheckReply::Failed { reason } => CheckReplyModel::Failed { reason: reason@ },
        }
    }
}

/// What a pair that was probed comes to. A pair without a verdict, and every
/// pair of a check that did not run, is unverifiable: never compatible.
pub open spec fn probed(reply: CheckReplyModel, pair_key: Seq<char>) -> Judgement {
    match reply {
        CheckReplyModel::Verdicts { verdicts } => match verdict_for(verdicts, pair_key) {
            Some(verdict) => judged_as(verdict),
            None => not_compared(VerdictBucket::Unverifiable, "the check returned no verdict for this pair"@),
        },
        CheckReplyModel::Failed { reason } => not_compared(
            VerdictBucket::Unverifiable,
            "type check did not run: "@ + reason,
        ),
    }
}

/// The outcomes of the pairs that no probe can judge.
pub open spec fn unprobed_outcomes(pairs: Seq<BuiltPairModel>) -> Seq<PairCheckOutcomeModel>
    decreases pairs.len(),
{
    if pairs.len() == 0 {
        Seq::empty()
    } else {
        let before = unprobed_outcomes(pairs.drop_last());
        match pairs.last().pre_verdict {
            Some((bucket, reason)) => before.push(outcome_of(pairs.last(), not_compared(bucket, reason))),
            None => before,
        }
    }
}

/// The outcomes of the pairs that were probed.
pub open spec fn probed_outcomes(pairs: Seq<BuiltPairModel>, reply: CheckReplyModel) -> Seq<PairCheckOutcomeModel>
    decreases pairs.len(),
{
    if pairs.len() == 0 {
        Seq::empty()
    } else {
        let before = probed_outcomes(pairs.drop_last(), reply);
        match pairs.last().pre_verdict {
            Some(_) => before,
            None => before.push(outcome_of(pairs.last(), probed(reply, pairs.last().spec.pair_key))),
        }
    }
}

/// The consumer's type is what left the verdict open, in a way that retyping
/// its call could settle. A proven mismatch is not open, and a consumer that
/// reads no body or sends a form has nothing to compare.
pub open spec fn blames_consumer(verdict: CheckVerdictModel) -> bool {
    &&& verdict.bucket != VerdictBucket::Incompatible
    &&& verdict.unresolved_side == Some(VerdictSide::Consumer)
    &&& !(verdict.gate matches Some(gate) && (has_suffix(gate, ":void"@) || has_suffix(gate, ":form"@)))
}

pub fn consumer_to_blame(verdict: &CheckVerdict) -> (r: bool)
    ensures
        r == blames_consumer(verdict.deep_view()),
{
    let open = match verdict.bucket {
        VerdictBucket::Incompatible => false,
        _ => true,
    };
    let consumer = match verdict.unresolved_side {
        Some(VerdictSide::Consumer) => true,
        _ => false,
    };
    let bodiless = match &verdict.gate {
        Some(gate) => ends_with(gate.as_str(), ":void") || ends_with(gate.as_str(), ":form"),
        None => false,
    };
    open && consumer && !bodiless
}

/// The consumer of this pair left it open.
pub open spec fn pair_blames_consumer(pair: BuiltPairModel, reply: CheckReplyModel) -> bool {
    ||| pair.pre_verdict_side == Some(VerdictSide::Consumer)
    ||| pair.pre_verdict is None && (reply matches CheckReplyModel::Verdicts { verdicts } && (verdict_for(
        verdicts,
        pair.spec.pair_key,
    ) matches Some(verdict) && blames_consumer(verdict)))
}

pub open spec fn is_blamed(pairs: Seq<BuiltPairModel>, reply: CheckReplyModel, pair_key: Seq<char>) -> bool {
    exists|i: int|
        0 <= i < pairs.len() && (#[trigger] pairs[i]).spec.pair_key == pair_key && pair_blames_consumer(pairs[i], reply)
}

fn find_verdict<'a>(verdicts: &'a Vec<CheckVerdict>, pair_key: &str) -> (r: Option<&'a CheckVerdict>)
    ensures
        match r {
            Some(verdict) => verdict_for(verdicts.deep_view(), pair_key@) == Some(verdict.deep_view()),
            None => verdict_for(verdicts.deep_view(), pair_key@) is None,
        },
{
    let ghost all = verdicts.deep_view();
    let mut i: usize = verdicts.len();
    assert(all.take(all.len() as int) == all);
    while i > 0
        invariant
            i <= verdicts.len(),
            all == verdicts.deep_view(),
            verdict_for(all, pair_key@) == verdict_for(all.take(i as int), pair_key@),
        decreases i,
    {
        assert(all.take(i as int).drop_last() == all.take(i - 1));
        assert(all.take(i as int).last() == verdicts@[i - 1].deep_view());
        i -= 1;
        if same(verdicts[i].pair_key.as_str(), pair_key) {
            return Some(&verdicts[i]);
        }
    }
    None
}

fn unverified(pair: &BuiltPair, bucket: VerdictBucket, reason: &String) -> (r: PairCheckOutcome)
    ensures
        r.deep_view() == outcome_of(pair.deep_view(), not_compared(bucket, reason@)),
{
    let notes: Vec<String> = Vec::new();
    assert(notes.deep_view() =~= Seq::<Seq<char>>::empty());
    outcome_for(pair, bucket, None, Some(reason.clone()), false, Some(reason.clone()), notes)
}

fn probed_outcome(pair: &BuiltPair, reply: &CheckReply) -> (r: PairCheckOutcome)
    ensures
        r.deep_view() == outcome_of(pair.deep_view(), probed(reply.deep_view(), pair.spec.pair_key@)),
{
    match reply {
        CheckReply::Verdicts { verdicts } => match find_verdict(verdicts, pair.spec.pair_key.as_str()) {
            Some(verdict) => outcome_for(
                pair,
                verdict.bucket,
                copy_option(&verdict.gate),
                copy_option(&verdict.diagnostic),
                verdict.resolved,
                copy_option(&verdict.unresolved_reason),
                copy_list(&verdict.notes),
            ),
            None => {
                let reason = "the check returned no verdict for this pair".to_owned();
                unverified(pair, VerdictBucket::Unverifiable, &reason)
            },
        },
        CheckReply::Failed { reason } => {
            let why = concat("type check did not run: ", reason.as_str());
            unverified(pair, VerdictBucket::Unverifiable, &why)
        },
    }
}

/// What the check comes to without the sidecar: with no stub to check against
/// there is nothing to ask.
pub fn check_without_stubs(stubs: &Vec<CheckStubInput>) -> (r: Option<CheckReply>)
    ensures
        stubs@.len() > 0 ==> r is None,
        stubs@.len() == 0 ==> (r matches Some(CheckReply::Failed { reason }) && reason@ == "no capture stubs available"@),
{
    if stubs.len() == 0 {
        Some(CheckReply::Failed { reason: "no capture stubs available".to_owned() })
    } else {
        None
    }
}

/// The specifications of the pairs to probe.
pub open spec fn probes(pairs: Seq<BuiltPairModel>) -> Seq<CheckPairSpecModel>
    decreases pairs.len(),
{
    if pairs.len() == 0 {
        Seq::empty()
    } else if pairs.last().pre_verdict is None {
        probes(pairs.drop_last()).push(pairs.last().spec)
    } else {
        probes(pairs.drop_last())
    }
}

/// The pairs that the sidecar has to probe: all that both sides have a surface
/// for.
pub fn probing_specs(pairs: &Vec<BuiltPair>) -> (r: Vec<CheckPairSpec>)
    ensures
        r.deep_view() == probes(pairs.deep_view()),
{
    let ghost all = pairs.deep_view();
    let mut r: Vec<CheckPairSpec> = Vec::new();
    let mut i: usize = 0;
    assert(r.deep_view() =~= probes(all.take(0)));
    while i < pairs.len()
        invariant
            i <= pairs.len(),
            all == pairs.deep_view(),
            r.deep_view() == probes(all.take(i as int)),
        decreases pairs.len() - i,
    {
        let ghost before = r.deep_view();
        assert(all.take(i + 1).drop_last() == all.take(i as int));
        assert(all.take(i + 1).last() == pairs@[i as int].deep_view());
        if pairs[i].pre_verdict.is_none() {
            let spec = pairs[i].spec.duplicate();
            r.push(spec);
            assert(r.deep_view() =~= before.push(spec.deep_view()));
        }
        i += 1;
    }
    assert(all.take(all.len() as int) == all);
    r
}

/// The outcome of every pair before any retyping: those that no probe can
/// judge come first.
pub fn outcomes_of_check(pairs: &Vec<BuiltPair>, reply: &CheckReply) -> (r: Vec<PairCheckOutcome>)
    ensures
        r.deep_view() == unprobed_outcomes(pairs.deep_view()) + probed_outcomes(pairs.deep_view(), reply.deep_view()),
{
    let ghost all = pairs.deep_view();
    let ghost said = reply.deep_view();
    let mut r: Vec<PairCheckOutcome> = Vec::new();
    let mut i: usize = 0;
    assert(r.deep_view() =~= unprobed_outcomes(all.take(0)));
    while i < pairs.len()
        invariant
            i <= pairs.len(),
            all == pairs.deep_view(),
            r.deep_view() == unprobed_outcomes(all.take(i as int)),
        decreases pairs.len() - i,
    {
        let ghost before = r.deep_view();
        assert(all.take(i + 1).drop_last() == all.take(i as int));
        assert(all.take(i + 1).last() == pairs@[i as int].deep_view());
        match &pairs[i].pre_verdict {
            Some((bucket, reason)) => {
                let outcome = unverified(&pairs[i], *bucket, reason);
                r.push(outcome);
                assert(r.deep_view() =~= before.push(outcome.deep_view()));
            },
            None => {},
        }
        i += 1;
    }
    assert(all.take(all.len() as int) == all);
    let ghost first = r.deep_view();
    let mut j: usize = 0;
    assert(r.deep_view() =~= first + probed_outcomes(all.take(0), said));
    while j < pairs.len()
        invariant
            j <= pairs.len(),
            all == pairs.deep_view(),
            said == reply.deep_view(),
            r.deep_view() == first + probed_outcomes(all.take(j as int), said),
        decreases pairs.len() - j,
    {
        let ghost before = r.deep_view();
        assert(all.take(j + 1).drop_last() == all.take(j as int));
        assert(all.take(j + 1).last() == pairs@[j as int].deep_view());
        if pairs[j].pre_verdict.is_none() {
            let outcome = probed_outcome(&pairs[j], reply);
            r.push(outcome);
            assert(r.deep_view() =~= before.push(outcome.deep_view()));
            assert(r.deep_view() =~= first + probed_outcomes(all.take(j + 1), said));
        }
        j += 1;
    }
    r
}

/// The pairs whose consumer left the verdict open: the ones a retyped call can
/// judge.
pub fn consumer_blamed(pairs: &Vec<BuiltPair>, reply: &CheckReply) -> (r: TextSet)
    ensures
        forall|pair_key: Seq<char>|
            #[trigger] r@.contains(pair_key) <==> is_blamed(pairs.deep_view(), reply.deep_view(), pair_key),
{
    let ghost all = pairs.deep_view();
    let ghost said = reply.deep_view();
    let mut r = TextSet::new();
    let mut i: usize = 0;
    while i < pairs.len()
        invariant
            i <= pairs.len(),
            all == pairs.deep_view(),
            said == reply.deep_view(),
            forall|pair_key: Seq<char>| #[trigger] r@.contains(pair_key) <==> is_blamed(all.take(i as int), said, pair_key),
        decreases pairs.len() - i,
    {
        let ghost before = r@;
        let pair = &pairs[i];
        let surfaceless = match pair.pre_verdict_side {
            Some(VerdictSide::Consumer) => true,
            _ => false,
        };
        let open = match (&pair.pre_verdict, reply) {
            (None, CheckReply::Verdicts { verdicts }) => match find_verdict(verdicts, pair.spec.pair_key.as_str()) {
                Some(verdict) => consumer_to_blame(verdict),
                None => false,
            },
            _ => false,
        };
        if surfaceless || open {
            let _ = r.insert(pair.spec.pair_key.clone());
        }
        assert forall|pair_key: Seq<char>| #[trigger] r@.contains(pair_key) <==> is_blamed(all.take(i + 1), said, pair_key) by {
            let now = all.take(i + 1);
            let then = all.take(i as int);
            assert(before.contains(pair_key) <==> is_blamed(then, said, pair_key));
            assert(now[i as int] == pair.deep_view());
            assert((surfaceless || open) == pair_blames_consumer(now[i as int], said));
            if is_blamed(then, said, pair_key) {
                let k = choose|k: int|
                    0 <= k < then.len() && (#[trigger] then[k]).spec.pair_key == pair_key && pair_blames_consumer(then[k], said);
                assert(now[k] == then[k]);
            }
            if is_blamed(now, said, pair_key) {
                let k = choose|k: int|
                    0 <= k < now.len() && (#[trigger] now[k]).spec.pair_key == pair_key && pair_blames_consumer(now[k], said);
                if k < i {
                    assert(then[k] == now[k]);
                }
            }
        }
        i += 1;
    }
    assert(all.take(all.len() as int) == all);
    r
}

} // verus!
