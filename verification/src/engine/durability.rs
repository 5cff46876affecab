//! What a scan does when part of it cannot be finished.
//!
//! A service whose detection or guidance cannot be had is deferred: analysed
//! without the model, and nothing is cached that the model did not answer. What
//! is still owed once every service has been through gets one more try after a
//! wait, and what is owed after that is pending. A pending service that already
//! has an index is held back, so that a thinner index cannot replace it.

use crate::duplicate::{duplicate_option, Duplicate};
use crate::framework_detector::{nothing_detected, DetectionResult};
use crate::text::{
    concat, concat3, copy_option, decimal, ends_with, has_suffix, join, joined, number_in, parse_number, print_number, trim, trimmed,
};
use vstd::prelude::*;

verus! {

/// The code with which the cloud refuses the model because its budget is spent.
pub const LLM_DISABLED_CODE: &'static str = "llm_disabled";

/// The answers that a service caches although its guidance was deferred.
pub struct KeptAnswers<X> {
    pub detection: DetectionResult,
    pub extraction_config: Option<X>,
}

/// What a service's model stages settled on before its files are analysed, with
/// guidance of one type and extraction settings of another.
pub struct ModelSetup<G, X> {
    pub detection: DetectionResult,
    pub guidance: G,
    pub extraction_config: Option<X>,
    /// Why the model analysis is deferred, when it is: the stage and the code.
    pub deferred: Option<String>,
    /// What a deferred service keeps because the model did answer it.
    pub kept: Option<KeptAnswers<X>>,
}

/// The answers that a service's stored state carries to its next scan.
pub struct CachedAnswers<G, X> {
    pub cached_detection: Option<DetectionResult>,
    pub cached_guidance: Option<G>,
    pub cached_extraction_config: Option<X>,
}

/// The reason of a deferral: the stage, and the code of its failure. A failure
/// without a code is an answer that could not be read.
pub open spec fn deferral(stage: Seq<char>, code: Option<Seq<char>>) -> Seq<char> {
    stage + ": "@ + match code {
        Some(code) => code,
        None => "unparseable_response"@,
    }
}

impl<G, X> ModelSetup<G, X> {
    pub fn ready(detection: DetectionResult, guidance: G, extraction_config: Option<X>) -> (r: Self)
        ensures
            r.detection == detection,
            r.guidance == guidance,
            r.extraction_config == extraction_config,
            r.deferred is None,
            r.kept is None,
    {
        ModelSetup { detection, guidance, extraction_config, deferred: None, kept: None }
    }

    /// The setup of a service whose stage failed with a code of the cloud, or
    /// with none. It is analysed with an empty detection and the stand-in
    /// guidance, which are never sent anywhere.
    pub fn deferred(stage: &str, code: Option<&str>, stand_in: G) -> (r: Self)
        ensures
            r.detection.deep_view() == nothing_detected(),
            r.guidance == stand_in,
            r.extraction_config is None,
            r.deferred.deep_view() == Some(deferral(stage@, code.deep_view())),
            r.kept is None,
    {
        let code = match code {
            Some(code) => code,
            None => "unparseable_response",
        };
        ModelSetup {
            detection: DetectionResult::default(),
            guidance: stand_in,
            extraction_config: None,
            deferred: Some(concat3(stage, ": ", code)),
            kept: None,
        }
    }

    /// The setup of a service whose detection answered and whose guidance
    /// failed: deferred all the same, but the detection is kept for the cache.
    pub fn guidance_deferred(
        detection: DetectionResult,
        extraction_config: Option<X>,
        code: Option<&str>,
        stand_in: G,
    ) -> (r: Self)
        ensures
            r.detection.deep_view() == nothing_detected(),
            r.guidance == stand_in,
            r.extraction_config is None,
            r.deferred.deep_view() == Some(deferral("framework guidance"@, code.deep_view())),
            r.kept == Some(KeptAnswers { detection, extraction_config }),
    {
        let setup = ModelSetup::deferred("framework guidance", code, stand_in);
        ModelSetup { kept: Some(KeptAnswers { detection, extraction_config }), ..setup }
    }
}

impl<G: Duplicate, X: Duplicate> ModelSetup<G, X> {
    /// Writes the answers that this setup is allowed to cache. A deferred
    /// service never caches guidance: its absence makes the next scan ask
    /// again. A detection that answered is cached beside it.
    pub fn stamp_cache(&self, data: &mut CachedAnswers<G, X>)
        ensures
            self.deferred is None ==> {
                &&& final(data).cached_detection.deep_view() == Some(self.detection.deep_view())
                &&& final(data).cached_guidance.deep_view() == Some(self.guidance.deep_view())
                &&& final(data).cached_extraction_config.deep_view() == self.extraction_config.deep_view()
            },
            self.deferred is Some ==> {
                &&& final(data).cached_guidance is None
                &&& match self.kept {
                    Some(kept) => {
                        &&& final(data).cached_detection.deep_view() == Some(kept.detection.deep_view())
                        &&& final(data).cached_extraction_config.deep_view() == kept.extraction_config.deep_view()
                    },
                    None => final(data).cached_detection is None && final(data).cached_extraction_config is None,
                }
            },
    {
        if self.deferred.is_some() {
            data.cached_guidance = None;
            match &self.kept {
                Some(kept) => {
                    data.cached_detection = Some(kept.detection.duplicate());
                    data.cached_extraction_config = duplicate_option(&kept.extraction_config);
                },
                None => {
                    data.cached_detection = None;
                    data.cached_extraction_config = None;
                },
            }
            return;
        }
        data.cached_detection = Some(self.detection.duplicate());
        data.cached_guidance = Some(self.guidance.duplicate());
        data.cached_extraction_config = duplicate_option(&self.extraction_config);
    }
}

/// One service's analysis, and whether its model stages were deferred.
pub struct ServiceAnalysis<D> {
    pub data: D,
    pub deferred: Option<String>,
}

/// The files and the function descriptions that the model did not answer for.
#[derive(Debug, Clone, Copy, PartialEq, Eq, Structural)]
pub struct ServiceLosses {
    pub files: usize,
    pub intents: usize,
}

impl Default for ServiceLosses {
    fn default() -> (r: Self)
        ensures
            r.files == 0,
            r.intents == 0,
    {
        ServiceLosses { files: 0, intents: 0 }
    }
}

impl ServiceLosses {
    pub fn is_empty(&self) -> (r: bool)
        ensures
            r == (self.files == 0 && self.intents == 0),
    {
        self.files == 0 && self.intents == 0
    }
}

/// The model work that a service still owes once its analysis has run.
#[derive(Debug, Clone, PartialEq, Eq)]
pub struct OwedWork {
    /// Why its detection or guidance was deferred.
    pub deferred: Option<String>,
    pub losses: ServiceLosses,
    /// Calls that the quota breaker stopped.
    pub quota_aborts: usize,
    /// The error in which its retry ended.
    pub retry_error: Option<String>,
}

/// What an [`OwedWork`] holds.
pub struct OwedWorkModel {
    pub deferred: Option<Seq<char>>,
    pub losses: ServiceLosses,
    pub quota_aborts: usize,
    pub retry_error: Option<Seq<char>>,
}

impl DeepView for OwedWork {
    type V = OwedWorkModel;

    open spec fn deep_view(&self) -> OwedWorkModel {
        OwedWorkModel {
            deferred: self.deferred.deep_view(),
            losses: self.losses,
            quota_aborts: self.quota_aborts,
            retry_error: self.retry_error.deep_view(),
        }
    }
}

impl Duplicate for OwedWork {
    fn duplicate(&self) -> (r: Self) {
        OwedWork {
            deferred: copy_option(&self.deferred),
            losses: self.losses,
            quota_aborts: self.quota_aborts,
            retry_error: copy_option(&self.retry_error),
        }
    }
}

impl Default for OwedWork {
    fn default() -> (r: Self)
        ensures
            r.deep_view() == (OwedWorkModel {
                deferred: None,
                losses: ServiceLosses { files: 0, intents: 0 },
                quota_aborts: 0,
                retry_error: None,
            }),
    {
        OwedWork { deferred: None, losses: ServiceLosses::default(), quota_aborts: 0, retry_error: None }
    }
}

/// Nothing is owed.
pub open spec fn owes_nothing(owed: OwedWorkModel) -> bool {
    owed.deferred is None && owed.losses.files == 0 && owed.losses.intents == 0 && owed.quota_aborts == 0
        && owed.retry_error is None
}

/// What is owed makes the index thinner than a complete one. A missing function
/// description does not.
pub open spec fn thins(owed: OwedWorkModel) -> bool {
    owed.deferred is Some || owed.losses.files > 0 || owed.quota_aborts > 0 || owed.retry_error is Some
}

/// The parts of a description: the reason of the deferral, then the counts that
/// are not zero, then the error of the retry.
pub open spec fn owed_parts(owed: OwedWorkModel) -> Seq<Seq<char>> {
    (match owed.deferred {
        Some(reason) => seq![reason],
        None => Seq::empty(),
    }) + (if owed.losses.files > 0 {
        seq![decimal(owed.losses.files as nat) + " file(s) not analysed"@]
    } else {
        Seq::empty()
    }) + (if owed.quota_aborts > 0 {
        seq![decimal(owed.quota_aborts as nat) + " call(s) stopped by the LLM quota"@]
    } else {
        Seq::empty()
    }) + (if owed.losses.intents > 0 {
        seq![decimal(owed.losses.intents as nat) + " function description(s) missing"@]
    } else {
        Seq::empty()
    }) + (match owed.retry_error {
        Some(error) => seq!["retry failed: "@ + error],
        None => Seq::empty(),
    })
}

pub open spec fn described(owed: OwedWorkModel) -> Seq<char> {
    joined(owed_parts(owed), "; "@)
}

impl OwedWork {
    pub fn is_empty(&self) -> (r: bool)
        ensures
            r == owes_nothing(self.deep_view()),
    {
        self.deferred.is_none() && self.losses.is_empty() && self.quota_aborts == 0 && self.retry_error.is_none()
    }

    /// Whether what is owed makes the service's index thinner than a complete
    /// one.
    pub fn thins_the_index(&self) -> (r: bool)
        ensures
            r == thins(self.deep_view()),
    {
        self.deferred.is_some() || self.losses.files > 0 || self.quota_aborts > 0 || self.retry_error.is_some()
    }

    /// Whether another try in this run could change anything. A budget that
    /// refused the model will refuse it again.
    pub fn worth_retrying(&self) -> (r: bool)
        ensures
            r == (!owes_nothing(self.deep_view()) && !(self.deferred.deep_view() matches Some(reason) && has_suffix(
                reason,
                LLM_DISABLED_CODE@,
            ))),
    {
        let refused = match &self.deferred {
            Some(reason) => ends_with(reason.as_str(), LLM_DISABLED_CODE),
            None => false,
        };
        !self.is_empty() && !refused
    }

    /// What is owed, for the closing summary.
    pub fn describe(&self) -> (r: String)
        ensures
            r@ == described(self.deep_view()),
    {
        let mut parts: Vec<String> = Vec::new();
        match &self.deferred {
            Some(reason) => parts.push(reason.clone()),
            None => {},
        }
        if self.losses.files > 0 {
            parts.push(concat(print_number(self.losses.files as u64).as_str(), " file(s) not analysed"));
        }
        if self.quota_aborts > 0 {
            parts.push(concat(print_number(self.quota_aborts as u64).as_str(), " call(s) stopped by the LLM quota"));
        }
        if self.losses.intents > 0 {
            parts.push(concat(print_number(self.losses.intents as u64).as_str(), " function description(s) missing"));
        }
        match &self.retry_error {
            Some(error) => parts.push(concat("retry failed: ", error.as_str())),
            None => {},
        }
        assert(parts.deep_view() =~= owed_parts(self.deep_view()));
        join(&parts, "; ")
    }
}

/// A service that owes this is kept out of the run's upload: its retry failed;
/// or, unless partial analyses are allowed, it was deferred or stopped and an
/// index exists, or it lost files and either an index exists or no laptop sends
/// the list of what was lost.
pub open spec fn is_held_back(owed: OwedWorkModel, has_index: bool, laptop: bool, allow_partial: bool) -> bool {
    ||| owed.retry_error is Some
    ||| !allow_partial && if owed.deferred is Some || owed.quota_aborts > 0 {
        has_index
    } else {
        owed.losses.files > 0 && (has_index || !laptop)
    }
}

/// Whether a service that still owes work is kept out of this run's upload.
pub fn holds_back(owed: &OwedWork, has_index: bool, laptop: bool, allow_partial: bool) -> (r: bool)
    ensures
        r == is_held_back(owed.deep_view(), has_index, laptop, allow_partial),
{
    if owed.retry_error.is_some() {
        return true;
    }
    if allow_partial {
        return false;
    }
    if owed.deferred.is_some() || owed.quota_aborts > 0 {
        return has_index;
    }
    owed.losses.files > 0 && (has_index || !laptop)
}

/// A service is held back only when it owes work that thins an index; with no
/// index to thin, a laptop run holds back nothing but a failed retry.
pub proof fn only_thinning_work_is_held_back(owed: OwedWorkModel, has_index: bool, laptop: bool, allow_partial: bool)
    ensures
        is_held_back(owed, has_index, laptop, allow_partial) ==> thins(owed),
        !has_index && laptop && owed.retry_error is None ==> !is_held_back(owed, has_index, laptop, allow_partial),
        owes_nothing(owed) ==> !is_held_back(owed, has_index, laptop, allow_partial) && !thins(owed),
{
}

// ---------------------------------------------------------------------------
// The wait before the retry
// ---------------------------------------------------------------------------

/// The environment variable that changes the wait, in seconds.
pub const RETRY_DELAY_ENV: &'static str = "CARRICK_PENDING_RETRY_DELAY_SECS";

/// The wait in seconds when an index would be thinner.
pub const DEFAULT_RETRY_DELAY: u64 = 180;

/// The wait in seconds when only function descriptions are owed.
pub const INTENTS_ONLY_RETRY_DELAY: u64 = 30;

/// The longest wait in seconds.
pub const MAX_RETRY_DELAY: u64 = 900;

/// The seconds to wait: what the setting says where it is a number, and else
/// the default, never more than the cap.
pub open spec fn delay_seconds(value: Option<Seq<char>>, thinning: bool) -> u64 {
    let default = if thinning {
        DEFAULT_RETRY_DELAY
    } else {
        INTENTS_ONLY_RETRY_DELAY
    };
    let wanted = match value {
        Some(v) => match number_in(trimmed(v)) {
            Some(n) => n,
            None => default,
        },
        None => default,
    };
    if wanted < MAX_RETRY_DELAY {
        wanted
    } else {
        MAX_RETRY_DELAY
    }
}

/// The wait before the retry, in seconds, under a setting or without one.
pub fn retry_delay_from(value: Option<&str>, thinning: bool) -> (r: u64)
    ensures
        r == delay_seconds(value.deep_view(), thinning),
        r <= MAX_RETRY_DELAY,
{
    let default: u64 = if thinning {
        DEFAULT_RETRY_DELAY
    } else {
        INTENTS_ONLY_RETRY_DELAY
    };
    let wanted: u64 = match value {
        Some(v) => match parse_number(trim(v).as_str()) {
            Some(n) => n,
            None => default,
        },
        None => default,
    };
    if wanted < MAX_RETRY_DELAY {
        wanted
    } else {
        MAX_RETRY_DELAY
    }
}

/// The nanoseconds between two reports of a wait.
pub const WAIT_TICK: u128 = 60_000_000_000;

/// The next stretch of a wait, in nanoseconds: how long to sleep and how long is left behind
/// it. Nothing is left to sleep when the wait is over.
pub fn next_wait(left: u128) -> (r: Option<(u128, u128)>)
    ensures
        match r {
            None => left == 0,
            Some((step, rest)) => {
                &&& left > 0
                &&& step == (if left < WAIT_TICK { left } else { WAIT_TICK })
                &&& rest == left - step
            },
        },
{
    if left == 0 {
        return None;
    }
    let step: u128 = if left < WAIT_TICK {
        left
    } else {
        WAIT_TICK
    };
    Some((step, left - step))
}

/// What a wait reports: how long is left at the start and after each stretch
/// that leaves something.
pub open spec fn wait_reports(left: nat) -> Seq<u128>
    decreases left,
{
    if left <= WAIT_TICK {
        seq![left as u128]
    } else {
        seq![left as u128] + wait_reports((left - WAIT_TICK) as nat)
    }
}

/// The times that a wait reports, in order, and how long it sleeps in all, in
/// nanoseconds.
pub fn wait_with_progress(delay: u128) -> (r: (Vec<u128>, u128))
    ensures
        r.0@ == wait_reports(delay as nat),
        r.1 == delay,
{
    let mut said: Vec<u128> = Vec::new();
    let mut slept: u128 = 0;
    let mut left: u128 = delay;
    said.push(left);
    assert(said@ =~= seq![delay]);
    while left > 0
        invariant
            slept + left == delay,
            left == 0 ==> said@ == wait_reports(delay as nat),
            left > 0 ==> said@.drop_last() + wait_reports(left as nat) == wait_reports(delay as nat) && said@.len() > 0 && said@.last() == left,
        decreases left,
    {
        match next_wait(left) {
            Some((step, rest)) => {
                let ghost before = said@;
                slept = slept + step;
                left = rest;
                if left > 0 {
                    said.push(left);
                    proof {
                        assert(said@.drop_last() =~= before);
                        assert(before.drop_last() + (seq![before.last()] + wait_reports(left as nat)) =~= before + wait_reports(left as nat));
                    }
                } else {
                    proof {
                        assert(before.drop_last() + seq![before.last()] =~= before);
                    }
                }
            },
            None => {},
        }
    }
    (said, slept)
}

// ---------------------------------------------------------------------------
// The closing summary
// ---------------------------------------------------------------------------

pub open spec fn pending_parts(pending: Seq<(Seq<char>, OwedWorkModel)>) -> Seq<Seq<char>> {
    pending.map_values(|p: (Seq<char>, OwedWorkModel)| p.0 + " ("@ + described(p.1) + ")"@)
}

/// The closing lines of a run that still owes work.
pub open spec fn summary_of(complete: Seq<Seq<char>>, pending: Seq<(Seq<char>, OwedWorkModel)>, laptop: bool) -> Seq<char> {
    (if complete.len() == 0 {
        "Complete: none."@
    } else {
        "Complete: "@ + joined(complete, ", "@) + "."@
    }) + " Pending model analysis: "@ + joined(pending_parts(pending), ", "@) + ". "@ + (if laptop {
        "Re-run `carrick index` to finish them: it asks the model only for the pending work and replays everything else from cache."@
    } else {
        "The next scan asks the model only for the pending work and replays everything else from cache."@
    })
}

/// Names the services that are complete, those that are pending and why, and
/// what re-running does.
pub fn pending_summary(complete: &Vec<String>, pending: &Vec<(String, OwedWork)>, laptop: bool) -> (r: String)
    ensures
        r@ == summary_of(complete.deep_view(), pending.deep_view(), laptop),
{
    let ghost owed = pending_parts(pending.deep_view());
    let mut parts: Vec<String> = Vec::new();
    let mut i: usize = 0;
    assert(parts.deep_view() =~= owed.take(0));
    while i < pending.len()
        invariant
            i <= pending.len(),
            owed == pending_parts(pending.deep_view()),
            parts.deep_view() == owed.take(i as int),
        decreases pending.len() - i,
    {
        let ghost before = parts.deep_view();
        let mut part = concat3(pending[i].0.as_str(), " (", pending[i].1.describe().as_str());
        part.append(")");
        assert(pending.deep_view()[i as int] == pending@[i as int].deep_view());
        assert(part@ == owed[i as int]);
        parts.push(part);
        assert(parts.deep_view() =~= before.push(part@));
        assert(owed.take(i + 1) =~= owed.take(i as int).push(owed[i as int]));
        i += 1;
    }
    assert(owed.take(owed.len() as int) =~= owed);
    let mut r = if complete.len() == 0 {
        "Complete: none.".to_owned()
    } else {
        concat3("Complete: ", join(complete, ", ").as_str(), ".")
    };
    r.append(" Pending model analysis: ");
    r.append(join(&parts, ", ").as_str());
    r.append(". ");
    if laptop {
        r.append(
            "Re-run `carrick index` to finish them: it asks the model only for the pending work and replays everything else from cache.",
        );
    } else {
        r.append("The next scan asks the model only for the pending work and replays everything else from cache.");
    }
    r
}

} // verus!
