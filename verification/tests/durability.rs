use carrick::engine::durability::{
    holds_back, next_wait, pending_summary, retry_delay_from, wait_with_progress, CachedAnswers, ModelSetup, OwedWork, ServiceLosses,
    LLM_DISABLED_CODE, MAX_RETRY_DELAY,
};
use carrick::framework_detector::DetectionResult;

type Setup = ModelSetup<String, String>;

#[test]
fn the_retry_waits_minutes_unless_told_otherwise_and_never_unbounded() {
    assert_eq!(retry_delay_from(None, true), 180);
    assert_eq!(retry_delay_from(None, false), 30);
    assert_eq!(retry_delay_from(Some("0"), true), 0);
    assert_eq!(
        retry_delay_from(Some("nonsense"), true),
        180
    );
    assert_eq!(retry_delay_from(Some("86400"), true), MAX_RETRY_DELAY);
}

#[test]
fn a_service_is_held_back_only_when_it_would_thin_an_index_that_exists() {
    let deferred = OwedWork {
        deferred: Some("framework detection: model_error".to_string()),
        ..OwedWork::default()
    };
    let lost = OwedWork {
        losses: ServiceLosses {
            files: 2,
            intents: 0,
        },
        ..OwedWork::default()
    };
    let intents_only = OwedWork {
        losses: ServiceLosses {
            files: 0,
            intents: 4,
        },
        ..OwedWork::default()
    };
    assert!(!holds_back(&deferred, false, true, false));
    assert!(!holds_back(&deferred, false, false, false));
    assert!(holds_back(&deferred, true, true, false));
    assert!(!holds_back(&lost, false, true, false));
    assert!(holds_back(&lost, false, false, false));
    assert!(holds_back(&lost, true, true, false));
    assert!(!holds_back(&lost, true, false, true));
    let failed_retry = OwedWork {
        retry_error: Some("io".to_string()),
        ..OwedWork::default()
    };
    assert!(holds_back(&failed_retry, false, true, true));
    assert!(!holds_back(&intents_only, true, false, false));
    assert!(!holds_back(&OwedWork::default(), true, false, false));
}

#[test]
fn a_missing_intent_is_owed_work_but_does_not_thin_the_index() {
    let owed = OwedWork {
        losses: ServiceLosses {
            files: 0,
            intents: 3,
        },
        ..OwedWork::default()
    };
    assert!(!owed.is_empty());
    assert!(!owed.thins_the_index());
    assert!(owed.worth_retrying());
}

#[test]
fn a_budget_refusal_is_pending_but_not_retried_in_the_same_run() {
    let owed = OwedWork {
        deferred: Some(format!(
            "framework detection: {}",
            LLM_DISABLED_CODE
        )),
        ..OwedWork::default()
    };
    assert!(owed.thins_the_index());
    assert!(!owed.worth_retrying());
}

#[test]
fn a_guidance_failure_keeps_the_detection_and_analyses_with_the_stand_ins() {
    let code = Some("model_error");
    let detection = DetectionResult {
        frameworks: vec!["express".to_string()],
        ..DetectionResult::default()
    };
    let setup = Setup::guidance_deferred(detection.clone(), None, code, String::new());
    assert_eq!(
        setup.deferred.as_deref(),
        Some("framework guidance: model_error")
    );
    assert!(setup.detection.frameworks.is_empty());

    assert_eq!(
        setup
            .kept
            .as_ref()
            .map(|kept| kept.detection.frameworks.clone()),
        Some(detection.frameworks)
    );
    assert!(
        Setup::deferred("framework detection", code, String::new())
            .kept
            .is_none()
    );
}

#[test]
fn a_deferred_setup_names_the_stage_and_the_cloud_code() {
    let code = Some("model_error");
    let setup = Setup::deferred("framework detection", code, String::new());
    assert_eq!(
        setup.deferred.as_deref(),
        Some("framework detection: model_error")
    );
    assert!(setup.extraction_config.is_none());
}

#[test]
fn the_summary_names_both_halves_and_what_rerunning_does() {
    let owed = OwedWork {
        deferred: Some("framework detection: model_error".to_string()),
        ..OwedWork::default()
    };
    let line = pending_summary(
        &vec!["api".to_string(), "worker".to_string()],
        &vec![("billing".to_string(), owed)],
        true,
    );
    assert!(line.contains("Complete: api, worker."), "{line}");
    assert!(
        line.contains("Pending model analysis: billing (framework detection: model_error)"),
        "{line}"
    );
    assert!(line.contains("carrick index"), "{line}");
    assert!(line.contains("only for the pending work"), "{line}");
}

#[test]
fn the_retry_wait_says_what_is_left_about_once_a_minute_and_charges_the_budget() {
    let seconds = |n: u128| n * 1_000_000_000;
    let (said, charged) = wait_with_progress(seconds(150));
    assert_eq!(said, [seconds(150), seconds(90), seconds(30)]);
    assert_eq!(charged, seconds(150));

    let (said, charged) = wait_with_progress(0);
    assert_eq!(said, [0]);
    assert_eq!(charged, 0);
}

#[test]
fn a_wait_goes_by_the_minute_and_sleeps_what_is_below_a_second() {
    let minute: u128 = 60_000_000_000;
    assert_eq!(next_wait(2 * minute + 1), Some((minute, minute + 1)));
    assert_eq!(next_wait(1), Some((1, 0)));
    assert_eq!(next_wait(0), None);
}

#[test]
fn owed_work_is_described_by_its_parts() {
    let owed = OwedWork {
        losses: ServiceLosses { files: 2, intents: 0 },
        ..OwedWork::default()
    };
    assert!(owed.describe().contains('2'));
    assert!(OwedWork::default().is_empty());
    assert!(ServiceLosses::default().is_empty());
}

#[test]
fn a_deferred_setup_caches_no_guidance_and_keeps_a_detection_that_answered() {
    let detection = || DetectionResult { frameworks: vec!["express".to_string()], ..DetectionResult::default() };
    let mut data: CachedAnswers<String, String> =
        CachedAnswers { cached_detection: None, cached_guidance: None, cached_extraction_config: None };
    Setup::ready(detection(), "guidance".to_string(), Some("config".to_string())).stamp_cache(&mut data);
    assert_eq!(data.cached_detection.as_ref().map(|d| d.frameworks.len()), Some(1));
    assert_eq!(data.cached_guidance.as_deref(), Some("guidance"));
    assert_eq!(data.cached_extraction_config.as_deref(), Some("config"));

    let half = Setup::guidance_deferred(detection(), None, Some("model_error"), "stand-in".to_string());
    half.stamp_cache(&mut data);
    assert!(data.cached_guidance.is_none());
    assert_eq!(data.cached_detection.as_ref().map(|d| d.frameworks.len()), Some(1));
    assert!(data.cached_extraction_config.is_none());

    Setup::deferred("framework detection", None, "stand-in".to_string()).stamp_cache(&mut data);
    assert!(data.cached_detection.is_none());
    assert!(data.cached_guidance.is_none());
}
