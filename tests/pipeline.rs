use readtomyshoe::limiter::quota_cells;
use readtomyshoe::{
    is_listed_file_name, Action, AdmissionLimiter, ArticleTextSubmission, Event, PipelineError,
    Stage, StorageOp, Submission, TtsError,
};

fn article() -> ArticleTextSubmission {
    ArticleTextSubmission { title: "Test".to_string(), body: "A. B. C.".to_string() }
}

fn started() -> (Submission, String) {
    let (sub, action) = Submission::start(&article(), "audio", false);
    let path = match action {
        Action::CheckExists { path } => path,
        other => panic!("expected CheckExists, got {other:?}"),
    };
    (sub, path)
}

/// Reports that the audio does not exist and answers the quota question with `limiter`.
fn ask_admission(sub: &mut Submission, limiter: &AdmissionLimiter) -> Action {
    let len = match sub.step(Event::Exists(false)) {
        Action::CheckQuota { len } => len,
        other => panic!("expected CheckQuota, got {other:?}"),
    };
    sub.step(Event::Admitted { answer: limiter.try_consume(len), per_minute: limiter.per_minute() })
}

/// Runs a fresh submission up to the point where it holds the temporary file and asks for speech.
fn to_synthesis(sub: &mut Submission) {
    let limiter = AdmissionLimiter::new(1000);
    assert!(matches!(ask_admission(sub, &limiter), Action::OpenTemp { .. }));
    assert!(matches!(sub.step(Event::TempOpened(true)), Action::Synthesize { .. }));
}

#[test]
fn start_checks_the_final_path_first() {
    let (sub, path) = started();
    assert_eq!(sub.current_stage(), Stage::CheckExists);
    assert_eq!(path, format!("audio/{}.mp3", sub.article_id()));
    assert!(sub.article_id().starts_with("Test-"));
}

#[test]
fn resubmission_fails_as_duplicate_without_synthesis() {
    let (mut sub, _) = started();
    match sub.step(Event::Exists(true)) {
        Action::Finish(Err(PipelineError::DuplicateArticle)) => {},
        other => panic!("expected DuplicateArticle, got {other:?}"),
    }
    assert_eq!(sub.current_stage(), Stage::Failed);
    // Nothing reported afterwards leads to any work, nor to a question to the limiter.
    for ev in [
        Event::Exists(false),
        Event::Admitted { answer: Some(true), per_minute: 10 },
        Event::TempOpened(true),
        Event::Synthesized(Ok(vec![1])),
    ] {
        assert!(matches!(sub.step(ev), Action::Nothing));
    }
}

#[test]
fn duplicate_leaves_the_quota_alone() {
    // The duplicate never asks the limiter, so a later submission still gets the whole quota.
    let limiter = AdmissionLimiter::new(14);
    let (mut dup, _) = started();
    assert!(matches!(dup.step(Event::Exists(true)), Action::Finish(Err(PipelineError::DuplicateArticle))));
    let (mut fresh, _) = started();
    assert!(matches!(ask_admission(&mut fresh, &limiter), Action::OpenTemp { .. }));
}

#[test]
fn full_run_holds_temp_before_speech_then_renames() {
    let limiter = AdmissionLimiter::new(1000);
    let (mut sub, final_path) = started();
    let temp_path = format!("{final_path}.tmp");
    match sub.step(Event::Exists(false)) {
        Action::CheckQuota { len } => assert_eq!(len, "Test. A. B. C.".len()),
        other => panic!("expected CheckQuota, got {other:?}"),
    }
    match sub.step(Event::Admitted { answer: limiter.try_consume(14), per_minute: 1000 }) {
        Action::OpenTemp { path } => assert_eq!(path, temp_path),
        other => panic!("expected OpenTemp, got {other:?}"),
    }
    match sub.step(Event::TempOpened(true)) {
        Action::Synthesize { requests } => {
            assert_eq!(requests.len(), 1);
            assert_eq!(requests[0].text, "Test. A. B. C.");
        },
        other => panic!("expected Synthesize, got {other:?}"),
    }
    match sub.step(Event::Synthesized(Ok(b"mp3".to_vec()))) {
        Action::WriteTemp { path, audio } => {
            assert_eq!(path, temp_path);
            assert_eq!(audio, b"mp3".to_vec());
        },
        other => panic!("expected WriteTemp, got {other:?}"),
    }
    // While the audio is being written only the temporary name exists, and it is not listed.
    assert!(!is_listed_file_name(&format!("{}.mp3.tmp", sub.article_id())));
    match sub.step(Event::Written(true)) {
        Action::Rename { from, to } => {
            assert_eq!(from, temp_path);
            assert_eq!(to, final_path);
        },
        other => panic!("expected Rename, got {other:?}"),
    }
    assert!(is_listed_file_name(&format!("{}.mp3", sub.article_id())));
    match sub.step(Event::Renamed(true)) {
        Action::Finish(Ok(id)) => assert_eq!(&id, sub.article_id()),
        other => panic!("expected Finish, got {other:?}"),
    }
    assert_eq!(sub.current_stage(), Stage::Done);
}

#[test]
fn temp_file_held_elsewhere_fails_before_any_speech() {
    let limiter = AdmissionLimiter::new(1000);
    let (mut sub, _) = started();
    assert!(matches!(ask_admission(&mut sub, &limiter), Action::OpenTemp { .. }));
    match sub.step(Event::TempOpened(false)) {
        Action::Finish(Err(PipelineError::StorageFailure(op))) => assert_eq!(op, StorageOp::OpenTemp),
        other => panic!("expected StorageFailure, got {other:?}"),
    }
    // It asks for nothing more: no synthesis, and no removal of the other writer's file.
    assert!(matches!(sub.step(Event::TempOpened(true)), Action::Nothing));
    assert!(matches!(sub.step(Event::TempRemoved), Action::Nothing));
}

#[test]
fn synthesis_failure_removes_the_temp_file() {
    let (mut sub, final_path) = started();
    to_synthesis(&mut sub);
    match sub.step(Event::Synthesized(Err(TtsError::RequestTooLong))) {
        Action::RemoveTemp { path } => assert_eq!(path, format!("{final_path}.tmp")),
        other => panic!("expected RemoveTemp, got {other:?}"),
    }
    match sub.step(Event::TempRemoved) {
        Action::Finish(Err(PipelineError::SynthesisFailure(TtsError::RequestTooLong))) => {},
        other => panic!("expected SynthesisFailure, got {other:?}"),
    }
}

#[test]
fn failed_write_removes_the_temp_file() {
    let (mut sub, final_path) = started();
    to_synthesis(&mut sub);
    sub.step(Event::Synthesized(Ok(vec![1, 2, 3])));
    match sub.step(Event::Written(false)) {
        Action::RemoveTemp { path } => assert_eq!(path, format!("{final_path}.tmp")),
        other => panic!("expected RemoveTemp, got {other:?}"),
    }
    match sub.step(Event::TempRemoved) {
        Action::Finish(Err(PipelineError::StorageFailure(op))) => assert_eq!(op, StorageOp::Write),
        other => panic!("expected StorageFailure, got {other:?}"),
    }
}

#[test]
fn failed_rename_removes_the_temp_file() {
    let (mut sub, _) = started();
    to_synthesis(&mut sub);
    sub.step(Event::Synthesized(Ok(vec![1])));
    sub.step(Event::Written(true));
    assert!(matches!(sub.step(Event::Renamed(false)), Action::RemoveTemp { .. }));
    match sub.step(Event::TempRemoved) {
        Action::Finish(Err(PipelineError::StorageFailure(op))) => assert_eq!(op, StorageOp::Rename),
        other => panic!("expected StorageFailure, got {other:?}"),
    }
}

#[test]
fn quota_is_checked_once_per_submission() {
    // "Test. A. B. C." is 14 bytes; a quota of 20 per minute admits it once only.
    let limiter = AdmissionLimiter::new(20);
    let (mut first, _) = started();
    assert!(matches!(ask_admission(&mut first, &limiter), Action::OpenTemp { .. }));
    let (mut second, _) = started();
    match ask_admission(&mut second, &limiter) {
        Action::Finish(Err(PipelineError::QuotaExceeded { per_minute })) => assert_eq!(per_minute, 20),
        other => panic!("expected QuotaExceeded, got {other:?}"),
    }
}

#[test]
fn admission_outcomes() {
    let (mut sub, _) = started();
    sub.step(Event::Exists(false));
    assert!(matches!(sub.on_admission(None, 5), Action::Finish(Err(PipelineError::TooLarge))));
    let (mut sub, _) = started();
    sub.step(Event::Exists(false));
    assert!(matches!(
        sub.on_admission(Some(false), 5),
        Action::Finish(Err(PipelineError::QuotaExceeded { per_minute: 5 }))
    ));
    let long = ArticleTextSubmission { title: "T".to_string(), body: "x".repeat(6000) };
    let (mut sub, _) = Submission::start(&long, "audio", true);
    sub.step(Event::Exists(false));
    assert!(matches!(sub.on_admission(Some(true), 5), Action::Finish(Err(PipelineError::UnbreakableChunk))));
}

#[test]
fn limiter_accepts_within_quota_only() {
    let limiter = AdmissionLimiter::new(10);
    assert_eq!(limiter.per_minute(), 10);
    assert_eq!(limiter.try_consume(11), Some(false));
    assert_eq!(limiter.try_consume(0), Some(true));
    assert_eq!(limiter.try_consume(9), Some(true));
    assert_eq!(limiter.try_consume(5), Some(false));
    assert_eq!(limiter.try_consume(u32::MAX as usize + 1), None);
}

#[test]
fn quota_cells_count_bytes_and_at_least_one() {
    assert_eq!(quota_cells(0), Some(1));
    assert_eq!(quota_cells(14), Some(14));
    assert_eq!(quota_cells(u32::MAX as usize), Some(u32::MAX));
    assert_eq!(quota_cells(u32::MAX as usize + 1), None);
}

#[test]
fn batch_above_a_minutes_quota_is_refused_without_asking() {
    // A huge batch against a tiny quota is refused outright rather than handed to the limiter.
    let limiter = AdmissionLimiter::new(1);
    assert_eq!(limiter.try_consume(400_000_000), Some(false));
    assert_eq!(limiter.try_consume(1), Some(true));
}
