//! The submission pipeline as a state machine: existence check, admission, synthesis and the
//! crash-safe write of the audio file.
//!
//! The caller performs each action the machine asks for (a file-system operation, a question to
//! the admission limiter, or the synthesis of all chunks) and reports its outcome as the next
//! event. The temporary file is created exclusively before any synthesis call, so of two
//! identical submissions at once only one pays for speech. Audio is written to a
//! temporary file beside the final one and renamed into place only once it is complete, so the
//! final name never shows a partial file.

use vstd::prelude::*;
use vstd::string::StringExecFns;
use crate::article::{spoken_text, ArticleTextSubmission};
use crate::chunker::chunks_fit;
use crate::id::{derive_article_id, is_article_id};
use crate::synth::{plan_requests, request_texts, TtsError, TtsRequest, MAX_CHARS_PER_REQUEST};
use crate::text::{str_len, utf8_len};

verus! {

/// The file name of an article's audio.
pub open spec fn audio_file_name(id: Seq<char>) -> Seq<char> {
    id + ".mp3"@
}

/// The name of the temporary file an article's audio is written to.
pub open spec fn temp_file_name(id: Seq<char>) -> Seq<char> {
    id + ".mp3.tmp"@
}

/// The path of a file named `name` in `dir`.
pub open spec fn path_in(dir: Seq<char>, name: Seq<char>) -> Seq<char> {
    dir + "/"@ + name
}

/// A step of the file-system work that failed.
#[derive(Clone, Copy, Debug, PartialEq, Eq, Structural)]
pub enum StorageOp {
    /// Creating the temporary file (it may already be held by a concurrent submission).
    OpenTemp,
    /// Writing the audio to the temporary file.
    Write,
    /// Renaming the temporary file to its final name.
    Rename,
}

/// Why a submission failed.
#[derive(Clone, Debug)]
pub enum PipelineError {
    /// The article's audio already exists.
    DuplicateArticle,
    /// The admission quota of characters per minute is used up.
    QuotaExceeded { per_minute: u32 },
    /// The text is too large to be counted against the quota at all.
    TooLarge,
    /// The text holds a span without delimiters that is too large for one request.
    UnbreakableChunk,
    /// A synthesis call failed.
    SynthesisFailure(TtsError),
    /// A file-system step failed; the temporary file has been removed.
    StorageFailure(StorageOp),
}

/// Where a submission stands: what it waits for, or how it ended.
#[derive(Clone, Copy, Debug, PartialEq, Eq, Structural)]
pub enum Stage {
    /// Waiting to learn whether the final file exists.
    CheckExists,
    /// Waiting for the admission limiter's answer.
    Admission,
    /// Waiting for the exclusive creation of the temporary file.
    OpenTemp,
    /// Waiting for the audio of all chunks, while holding the temporary file.
    Synthesize,
    /// Waiting for the audio to be written to the temporary file.
    WriteBytes,
    /// Waiting for the temporary file to be renamed to the final name.
    Rename,
    /// Waiting for the temporary file to be removed after a failure.
    Cleanup,
    /// The audio is in place under its final name.
    Done,
    /// The submission failed.
    Failed,
}

/// The outcome of an action, reported back to the machine.
#[derive(Debug)]
pub enum Event {
    /// Whether the final file exists.
    Exists(bool),
    /// The admission limiter's answer (`AdmissionLimiter::try_consume`) and its quota.
    Admitted { answer: Option<bool>, per_minute: u32 },
    /// Whether the temporary file was created (it must not have existed).
    TempOpened(bool),
    /// The audio of all chunks joined, or the first synthesis error.
    Synthesized(Result<Vec<u8>, TtsError>),
    /// Whether all the audio was written to the temporary file.
    Written(bool),
    /// Whether the temporary file was renamed to the final name.
    Renamed(bool),
    /// The temporary file was removed, or removing it was attempted.
    TempRemoved,
}

/// What the machine asks the caller to do next.
#[derive(Debug)]
pub enum Action {
    /// Check whether this path exists.
    CheckExists { path: String },
    /// Ask the admission limiter for a text of `len` bytes.
    CheckQuota { len: usize },
    /// Create this file, failing if it exists.
    OpenTemp { path: String },
    /// Synthesize these requests, all at once, cancelling the rest at the first failure.
    Synthesize { requests: Vec<TtsRequest> },
    /// Write this audio to the opened file at this path.
    WriteTemp { path: String, audio: Vec<u8> },
    /// Rename a file.
    Rename { from: String, to: String },
    /// Remove this file if it exists.
    RemoveTemp { path: String },
    /// The submission is over: the article's ID, or why it failed.
    Finish(Result<String, PipelineError>),
    /// Nothing: the event did not apply to the current stage.
    Nothing,
}

/// An event with its data left out.
#[derive(Clone, Copy, Debug, PartialEq, Eq, Structural)]
pub enum EventKind {
    Exists(bool),
    /// Whether the limiter admitted the text.
    Admitted(bool),
    TempOpened(bool),
    Synthesized(bool),
    Written(bool),
    Renamed(bool),
    TempRemoved,
}

/// An action with its data left out.
#[derive(Clone, Copy, Debug, PartialEq, Eq, Structural)]
pub enum ActionKind {
    CheckExists,
    CheckQuota,
    OpenTemp,
    Synthesize,
    WriteTemp,
    Rename,
    RemoveTemp,
    Finish,
    Nothing,
}

impl Event {
    pub open spec fn kind(&self) -> EventKind {
        match self {
            Event::Exists(b) => EventKind::Exists(*b),
            Event::Admitted { answer, .. } => EventKind::Admitted(*answer == Some(true)),
            Event::TempOpened(b) => EventKind::TempOpened(*b),
            Event::Synthesized(r) => EventKind::Synthesized(r is Ok),
            Event::Written(b) => EventKind::Written(*b),
            Event::Renamed(b) => EventKind::Renamed(*b),
            Event::TempRemoved => EventKind::TempRemoved,
        }
    }
}

impl Action {
    pub open spec fn kind(&self) -> ActionKind {
        match self {
            Action::CheckExists { .. } => ActionKind::CheckExists,
            Action::CheckQuota { .. } => ActionKind::CheckQuota,
            Action::OpenTemp { .. } => ActionKind::OpenTemp,
            Action::Synthesize { .. } => ActionKind::Synthesize,
            Action::WriteTemp { .. } => ActionKind::WriteTemp,
            Action::Rename { .. } => ActionKind::Rename,
            Action::RemoveTemp { .. } => ActionKind::RemoveTemp,
            Action::Finish(_) => ActionKind::Finish,
            Action::Nothing => ActionKind::Nothing,
        }
    }
}

/// The transitions of the machine: from stage `s` on event `e` it may move to `s2` asking for
/// `a`. Only the chunking decides between the two outcomes of an admitted text; an event that
/// does not apply to the stage changes nothing.
pub open spec fn may_step(s: Stage, e: EventKind, s2: Stage, a: ActionKind) -> bool {
    match (s, e) {
        (Stage::CheckExists, EventKind::Exists(true)) => s2 == Stage::Failed && a
            == ActionKind::Finish,
        (Stage::CheckExists, EventKind::Exists(false)) => s2 == Stage::Admission && a
            == ActionKind::CheckQuota,
        (Stage::Admission, EventKind::Admitted(true)) => (s2 == Stage::OpenTemp && a
            == ActionKind::OpenTemp) || (s2 == Stage::Failed && a == ActionKind::Finish),
        (Stage::Admission, EventKind::Admitted(false)) => s2 == Stage::Failed && a
            == ActionKind::Finish,
        (Stage::OpenTemp, EventKind::TempOpened(true)) => s2 == Stage::Synthesize && a
            == ActionKind::Synthesize,
        (Stage::OpenTemp, EventKind::TempOpened(false)) => s2 == Stage::Failed && a
            == ActionKind::Finish,
        (Stage::Synthesize, EventKind::Synthesized(true)) => s2 == Stage::WriteBytes && a
            == ActionKind::WriteTemp,
        (Stage::Synthesize, EventKind::Synthesized(false)) => s2 == Stage::Cleanup && a
            == ActionKind::RemoveTemp,
        (Stage::WriteBytes, EventKind::Written(true)) => s2 == Stage::Rename && a
            == ActionKind::Rename,
        (Stage::WriteBytes, EventKind::Written(false)) => s2 == Stage::Cleanup && a
            == ActionKind::RemoveTemp,
        (Stage::Rename, EventKind::Renamed(true)) => s2 == Stage::Done && a == ActionKind::Finish,
        (Stage::Rename, EventKind::Renamed(false)) => s2 == Stage::Cleanup && a
            == ActionKind::RemoveTemp,
        (Stage::Cleanup, EventKind::TempRemoved) => s2 == Stage::Failed && a == ActionKind::Finish,
        _ => s2 == s && a == ActionKind::Nothing,
    }
}

/// The requests carry the chunks of `text` in order, each with the given voice.
pub open spec fn requests_for(reqs: Seq<TtsRequest>, text: Seq<char>, use_wavenet: bool) -> bool {
    &&& reqs.len() == request_texts(text).len()
    &&& forall|i: int|
        0 <= i < reqs.len() ==> (#[trigger] reqs[i]).text@ == request_texts(text)[i]
            && reqs[i].use_wavenet == use_wavenet
}

/// One submission on its way through the pipeline.
pub struct Submission {
    stage: Stage,
    id: String,
    text: String,
    use_wavenet: bool,
    final_path: String,
    temp_path: String,
    requests: Vec<TtsRequest>,
    pending: PipelineError,
}

impl Submission {
    pub closed spec fn stage(&self) -> Stage {
        self.stage
    }

    /// The article's ID.
    pub closed spec fn id(&self) -> Seq<char> {
        self.id@
    }

    /// The text to be spoken.
    pub closed spec fn text(&self) -> Seq<char> {
        self.text@
    }

    pub closed spec fn use_wavenet(&self) -> bool {
        self.use_wavenet
    }

    /// Where the finished audio goes.
    pub closed spec fn final_path(&self) -> Seq<char> {
        self.final_path@
    }

    /// Where the audio is written before it is complete.
    pub closed spec fn temp_path(&self) -> Seq<char> {
        self.temp_path@
    }

    /// The requests planned for the text, once it was admitted.
    pub closed spec fn requests(&self) -> Seq<TtsRequest> {
        self.requests@
    }

    /// The error reported once the temporary file is removed, while cleaning up.
    pub closed spec fn pending(&self) -> PipelineError {
        self.pending
    }

    /// Whether two states are of the same submission.
    pub open spec fn same_article(&self, other: &Submission) -> bool {
        &&& self.id() == other.id()
        &&& self.text() == other.text()
        &&& self.use_wavenet() == other.use_wavenet()
        &&& self.final_path() == other.final_path()
        &&& self.temp_path() == other.temp_path()
    }

    /// The stage the submission is in.
    pub fn current_stage(&self) -> (r: Stage)
        ensures
            r == self.stage(),
    {
        self.stage
    }

    /// The article's ID.
    pub fn article_id(&self) -> (r: &String)
        ensures
            r@ == self.id(),
    {
        &self.id
    }

    /// Starts a submission of `article`, whose audio is to be stored in `audio_dir`. The first
    /// action checks whether the audio exists already, before any other work.
    pub fn start(article: &ArticleTextSubmission, audio_dir: &str, use_wavenet: bool) -> (r: (
        Submission,
        Action,
    ))
        ensures
            r.0.stage() == Stage::CheckExists,
            is_article_id(article.title@, article.body@, r.0.id()),
            r.0.text() == spoken_text(article.title@, article.body@),
            r.0.use_wavenet() == use_wavenet,
            r.0.final_path() == path_in(audio_dir@, audio_file_name(r.0.id())),
            r.0.temp_path() == path_in(audio_dir@, temp_file_name(r.0.id())),
            r.1 matches Action::CheckExists { path } && path@ == r.0.final_path(),
    {
        let id = derive_article_id(article);
        let text = article.serialize();
        let mut final_path = String::from_str(audio_dir);
        final_path.append("/");
        final_path.append(id.as_str());
        final_path.append(".mp3");
        let mut temp_path = String::from_str(audio_dir);
        temp_path.append("/");
        temp_path.append(id.as_str());
        temp_path.append(".mp3.tmp");
        let check = Action::CheckExists { path: final_path.clone() };
        let sub = Submission {
            stage: Stage::CheckExists,
            id,
            text,
            use_wavenet,
            final_path,
            temp_path,
            requests: Vec::new(),
            pending: PipelineError::StorageFailure(StorageOp::Write),
        };
        (sub, check)
    }

    /// Decides on an admission answer for a submission whose audio does not exist yet: `None`
    /// when the text is too large to count, else whether the quota admitted it. An admitted text
    /// is cut into requests and the temporary file is asked for; if the text cannot be cut, the
    /// submission fails.
    pub fn on_admission(&mut self, admitted: Option<bool>, per_minute: u32) -> (r: Action)
        requires
            old(self).stage() == Stage::Admission,
        ensures
            final(self).same_article(old(self)),
            admitted is None ==> (r matches Action::Finish(Err(PipelineError::TooLarge))
                && final(self).stage() == Stage::Failed),
            admitted == Some(false) ==> (r matches Action::Finish(
                Err(PipelineError::QuotaExceeded { per_minute: q }),
            ) && q == per_minute && final(self).stage() == Stage::Failed),
            admitted == Some(true) && !chunks_fit(
                request_texts(old(self).text()),
                MAX_CHARS_PER_REQUEST as nat,
            ) ==> (r matches Action::Finish(Err(PipelineError::UnbreakableChunk))
                && final(self).stage() == Stage::Failed),
            admitted == Some(true) && chunks_fit(
                request_texts(old(self).text()),
                MAX_CHARS_PER_REQUEST as nat,
            ) ==> (r matches Action::OpenTemp { path } && path@ == old(self).temp_path()
                && requests_for(final(self).requests(), old(self).text(), old(self).use_wavenet())
                && final(self).stage() == Stage::OpenTemp),
    {
        match admitted {
            None => {
                self.stage = Stage::Failed;
                Action::Finish(Err(PipelineError::TooLarge))
            },
            Some(false) => {
                self.stage = Stage::Failed;
                Action::Finish(Err(PipelineError::QuotaExceeded { per_minute }))
            },
            Some(true) => {
                let whole = TtsRequest { text: self.text.clone(), use_wavenet: self.use_wavenet };
                match plan_requests(&whole) {
                    Ok(requests) => {
                        self.requests = requests;
                        self.stage = Stage::OpenTemp;
                        Action::OpenTemp { path: self.temp_path.clone() }
                    },
                    Err(_) => {
                        self.stage = Stage::Failed;
                        Action::Finish(Err(PipelineError::UnbreakableChunk))
                    },
                }
            },
        }
    }

    /// Reports the outcome of the last action and returns the next one.
    pub fn step(&mut self, event: Event) -> (r: Action)
        ensures
            final(self).same_article(old(self)),
            may_step(old(self).stage(), event.kind(), final(self).stage(), r.kind()),
            old(self).stage() == Stage::CheckExists && event.kind() == EventKind::Exists(true) ==> (
            r matches Action::Finish(Err(PipelineError::DuplicateArticle))),
            old(self).stage() == Stage::CheckExists && event.kind() == EventKind::Exists(false) ==> (
            r matches Action::CheckQuota { len } && len == utf8_len(old(self).text())),
            old(self).stage() == Stage::Admission ==> (event matches Event::Admitted {
                answer,
                per_minute,
            } ==> {
                &&& answer is None ==> (r matches Action::Finish(Err(PipelineError::TooLarge)))
                &&& answer == Some(false) ==> (r matches Action::Finish(
                    Err(PipelineError::QuotaExceeded { per_minute: q }),
                ) && q == per_minute)
                &&& answer == Some(true) && !chunks_fit(
                    request_texts(old(self).text()),
                    MAX_CHARS_PER_REQUEST as nat,
                ) ==> (r matches Action::Finish(Err(PipelineError::UnbreakableChunk)))
                &&& answer == Some(true) && chunks_fit(
                    request_texts(old(self).text()),
                    MAX_CHARS_PER_REQUEST as nat,
                ) ==> (r matches Action::OpenTemp { .. } && requests_for(
                    final(self).requests(),
                    old(self).text(),
                    old(self).use_wavenet(),
                ))
            }),
            old(self).stage() == Stage::OpenTemp && event.kind() == EventKind::TempOpened(true) ==> (
            r matches Action::Synthesize { requests } && requests@ == old(self).requests()),
            old(self).stage() == Stage::OpenTemp && event.kind() == EventKind::TempOpened(false)
                ==> (r matches Action::Finish(Err(PipelineError::StorageFailure(op))) && op
                == StorageOp::OpenTemp),
            old(self).stage() == Stage::Synthesize ==> (event matches Event::Synthesized(Ok(a))
                ==> (r matches Action::WriteTemp { audio, .. } && audio@ == a@)),
            old(self).stage() == Stage::Synthesize ==> (event matches Event::Synthesized(Err(e))
                ==> final(self).pending() == PipelineError::SynthesisFailure(e)),
            r matches Action::OpenTemp { path } ==> path@ == old(self).temp_path(),
            r matches Action::WriteTemp { path, .. } ==> path@ == old(self).temp_path(),
            r matches Action::Rename { from, to } ==> from@ == old(self).temp_path() && to@
                == old(self).final_path(),
            r matches Action::RemoveTemp { path } ==> path@ == old(self).temp_path(),
            old(self).stage() == Stage::WriteBytes && event.kind() == EventKind::Written(false)
                ==> final(self).pending() == PipelineError::StorageFailure(StorageOp::Write),
            old(self).stage() == Stage::Rename && event.kind() == EventKind::Renamed(false)
                ==> final(self).pending() == PipelineError::StorageFailure(StorageOp::Rename),
            old(self).stage() == Stage::Cleanup && event.kind() == EventKind::TempRemoved ==> (
            r matches Action::Finish(Err(e)) && e == old(self).pending()),
            old(self).stage() == Stage::Rename && event.kind() == EventKind::Renamed(true) ==> (
            r matches Action::Finish(Ok(id)) && id@ == old(self).id()),
    {
        match (self.stage, event) {
            (Stage::CheckExists, Event::Exists(true)) => {
                self.stage = Stage::Failed;
                Action::Finish(Err(PipelineError::DuplicateArticle))
            },
            (Stage::CheckExists, Event::Exists(false)) => {
                self.stage = Stage::Admission;
                Action::CheckQuota { len: str_len(self.text.as_str()) }
            },
            (Stage::Admission, Event::Admitted { answer, per_minute }) => {
                let r = self.on_admission(answer, per_minute);
                proof {
                    match answer {
                        None => {},
                        Some(b) => {
                            if b {
                                assert(answer == Some(true));
                            } else {
                                assert(answer == Some(false));
                            }
                        },
                    }
                }
                r
            },
            (Stage::OpenTemp, Event::TempOpened(true)) => {
                let mut requests: Vec<TtsRequest> = Vec::new();
                std::mem::swap(&mut requests, &mut self.requests);
                self.stage = Stage::Synthesize;
                Action::Synthesize { requests }
            },
            (Stage::OpenTemp, Event::TempOpened(false)) => {
                self.stage = Stage::Failed;
                Action::Finish(Err(PipelineError::StorageFailure(StorageOp::OpenTemp)))
            },
            (Stage::Synthesize, Event::Synthesized(Ok(audio))) => {
                self.stage = Stage::WriteBytes;
                Action::WriteTemp { path: self.temp_path.clone(), audio }
            },
            (Stage::Synthesize, Event::Synthesized(Err(e))) => {
                self.stage = Stage::Cleanup;
                self.pending = PipelineError::SynthesisFailure(e);
                Action::RemoveTemp { path: self.temp_path.clone() }
            },
            (Stage::WriteBytes, Event::Written(true)) => {
                self.stage = Stage::Rename;
                Action::Rename { from: self.temp_path.clone(), to: self.final_path.clone() }
            },
            (Stage::WriteBytes, Event::Written(false)) => {
                self.stage = Stage::Cleanup;
                self.pending = PipelineError::StorageFailure(StorageOp::Write);
                Action::RemoveTemp { path: self.temp_path.clone() }
            },
            (Stage::Rename, Event::Renamed(true)) => {
                self.stage = Stage::Done;
                Action::Finish(Ok(self.id.clone()))
            },
            (Stage::Rename, Event::Renamed(false)) => {
                self.stage = Stage::Cleanup;
                self.pending = PipelineError::StorageFailure(StorageOp::Rename);
                Action::RemoveTemp { path: self.temp_path.clone() }
            },
            (Stage::Cleanup, Event::TempRemoved) => {
                self.stage = Stage::Failed;
                let mut e = PipelineError::StorageFailure(StorageOp::Write);
                std::mem::swap(&mut e, &mut self.pending);
                Action::Finish(Err(e))
            },
            _ => Action::Nothing,
        }
    }
}

/// A run of the machine: from `stages[i]`, on `events[i]`, it moved to `stages[i + 1]` asking
/// for `actions[i]`.
pub open spec fn is_run(stages: Seq<Stage>, events: Seq<EventKind>, actions: Seq<ActionKind>) -> bool {
    &&& stages.len() == events.len() + 1
    &&& actions.len() == events.len()
    &&& forall|i: int|
        0 <= i < events.len() ==> may_step(stages[i], events[i], stages[i + 1], #[trigger] actions[i])
}

/// A submission whose audio already exists fails at once with `DuplicateArticle` (the only
/// action it ever asks for after the existence check is that `Finish`): it never asks the
/// admission limiter, so its quota is left alone, creates no file and makes no synthesis call,
/// whatever is reported to it afterwards.
pub proof fn lemma_duplicate_never_synthesizes(
    stages: Seq<Stage>,
    events: Seq<EventKind>,
    actions: Seq<ActionKind>,
)
    requires
        is_run(stages, events, actions),
        events.len() >= 1,
        stages[0] == Stage::CheckExists,
        events[0] == EventKind::Exists(true),
    ensures
        actions[0] == ActionKind::Finish,
        forall|i: int| 1 <= i < actions.len() ==> #[trigger] actions[i] == ActionKind::Nothing,
        forall|i: int|
            0 <= i < actions.len() ==> #[trigger] actions[i] != ActionKind::Synthesize
                && actions[i] != ActionKind::CheckQuota && actions[i] != ActionKind::OpenTemp,
{
    assert(may_step(stages[0], events[0], stages[1], actions[0]));
    assert forall|i: int| 1 <= i < stages.len() implies #[trigger] stages[i] == Stage::Failed by {
        lemma_failed_stays_failed(stages, events, actions, i);
    }
    assert forall|i: int| 1 <= i < actions.len() implies #[trigger] actions[i] == ActionKind::Nothing by {
        assert(stages[i] == Stage::Failed);
        assert(may_step(stages[i], events[i], stages[i + 1], actions[i]));
    }
}

proof fn lemma_failed_stays_failed(
    stages: Seq<Stage>,
    events: Seq<EventKind>,
    actions: Seq<ActionKind>,
    i: int,
)
    requires
        is_run(stages, events, actions),
        events.len() >= 1,
        stages[0] == Stage::CheckExists,
        events[0] == EventKind::Exists(true),
        1 <= i < stages.len(),
    ensures
        stages[i] == Stage::Failed,
    decreases i,
{
    assert(may_step(stages[i - 1], events[i - 1], stages[i], actions[i - 1]));
    if i > 1 {
        lemma_failed_stays_failed(stages, events, actions, i - 1);
    }
}

/// Every synthesis call is made while this submission holds the temporary file: the machine
/// asks for synthesis only right after the exclusive creation of that file succeeded. A
/// concurrent submission of the same article, which finds the file taken, fails before any
/// call.
pub proof fn lemma_synthesis_only_while_holding_temp(
    stages: Seq<Stage>,
    events: Seq<EventKind>,
    actions: Seq<ActionKind>,
    i: int,
)
    requires
        is_run(stages, events, actions),
        0 <= i < actions.len(),
        actions[i] == ActionKind::Synthesize,
    ensures
        stages[i] == Stage::OpenTemp,
        events[i] == EventKind::TempOpened(true),
{
    assert(may_step(stages[i], events[i], stages[i + 1], actions[i]));
}

/// A submission that finds its temporary file already taken fails and asks for nothing more,
/// so it makes no synthesis call and leaves the other writer's file alone.
pub proof fn lemma_taken_temp_fails_without_work(
    stages: Seq<Stage>,
    events: Seq<EventKind>,
    actions: Seq<ActionKind>,
    i: int,
)
    requires
        is_run(stages, events, actions),
        0 <= i < events.len(),
        stages[i] == Stage::OpenTemp,
        events[i] == EventKind::TempOpened(false),
    ensures
        actions[i] == ActionKind::Finish,
        forall|j: int| i < j < actions.len() ==> #[trigger] actions[j] == ActionKind::Nothing,
{
    assert(may_step(stages[i], events[i], stages[i + 1], actions[i]));
    assert forall|j: int| i < j < stages.len() implies #[trigger] stages[j] == Stage::Failed by {
        lemma_failed_from(stages, events, actions, i, j);
    }
    assert forall|j: int| i < j < actions.len() implies #[trigger] actions[j] == ActionKind::Nothing by {
        assert(stages[j] == Stage::Failed);
        assert(may_step(stages[j], events[j], stages[j + 1], actions[j]));
    }
}

proof fn lemma_failed_from(
    stages: Seq<Stage>,
    events: Seq<EventKind>,
    actions: Seq<ActionKind>,
    i: int,
    j: int,
)
    requires
        is_run(stages, events, actions),
        0 <= i < events.len(),
        stages[i + 1] == Stage::Failed,
        i < j < stages.len(),
    ensures
        stages[j] == Stage::Failed,
    decreases j - i,
{
    if j > i + 1 {
        lemma_failed_from(stages, events, actions, i, j - 1);
        assert(may_step(stages[j - 1], events[j - 1], stages[j], actions[j - 1]));
    }
}

proof fn lemma_write_precedes(
    stages: Seq<Stage>,
    events: Seq<EventKind>,
    actions: Seq<ActionKind>,
    i: int,
)
    requires
        is_run(stages, events, actions),
        stages[0] == Stage::CheckExists,
        0 <= i < stages.len(),
        stages[i] == Stage::WriteBytes,
    ensures
        exists|j: int| 0 <= j < i && #[trigger] actions[j] == ActionKind::WriteTemp,
    decreases i,
{
    assert(i > 0);
    assert(may_step(stages[i - 1], events[i - 1], stages[i], actions[i - 1]));
    if actions[i - 1] != ActionKind::WriteTemp {
        assert(stages[i - 1] == Stage::WriteBytes);
        lemma_write_precedes(stages, events, actions, i - 1);
        let j = choose|j: int| 0 <= j < i - 1 && #[trigger] actions[j] == ActionKind::WriteTemp;
        assert(actions[j] == ActionKind::WriteTemp);
    }
}

/// The final name is only ever given to a file by renaming the temporary file, and only after
/// the audio was asked to be written to it and the write was reported complete. Every write goes
/// to the temporary path (see `step`), so no reader sees a partial file under the final name.
pub proof fn lemma_rename_only_after_complete_write(
    stages: Seq<Stage>,
    events: Seq<EventKind>,
    actions: Seq<ActionKind>,
    i: int,
)
    requires
        is_run(stages, events, actions),
        stages[0] == Stage::CheckExists,
        0 <= i < actions.len(),
        actions[i] == ActionKind::Rename,
    ensures
        stages[i] == Stage::WriteBytes,
        events[i] == EventKind::Written(true),
        exists|j: int| 0 <= j < i && #[trigger] actions[j] == ActionKind::WriteTemp,
{
    assert(may_step(stages[i], events[i], stages[i + 1], actions[i]));
    lemma_write_precedes(stages, events, actions, i);
}

} // verus!
