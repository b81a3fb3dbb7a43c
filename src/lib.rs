//! Core logic of a text-to-speech article pipeline: bounded-size text chunking, content-derived
//! article identifiers, the synthesis dispatcher and the crash-safe storage writer.

pub mod article;
pub mod catalog;
pub mod chunker;
pub mod dates;
pub mod dispatch;
pub mod id;
pub mod limiter;
pub mod pipeline;
pub mod synth;
pub mod text;

pub use article::{
    ArticleMetadata, ArticleTextSubmission, ArticleUrlSubmission, LibraryCatalog,
};
pub use catalog::{
    is_listed_file_name, metadata_from_tags, new_article_metadata, sort_newest_first, MetadataCache,
    TagFields, MAX_TITLE_UTF16_CODEUNITS,
};
pub use chunker::{
    break_english_text, break_greedily_at_delim, break_greedily_at_delims, ChunkError, Span,
};
pub use dates::{recorded_time_of, unix_time_of, RecordedTime};
pub use dispatch::{DispatchStep, Dispatcher};
pub use id::{derive_article_id, ARTICLE_HASH_BITLEN, FILENAME_TITLE_MAXLEN};
pub use limiter::AdmissionLimiter;
pub use pipeline::{
    Action, ActionKind, Event, EventKind, PipelineError, Stage, StorageOp, Submission,
};
pub use synth::{
    decode_audio_content, plan_requests, TtsError, TtsRequest, MAX_CHARS_PER_REQUEST,
};
pub use text::{truncate_to_bytes, StrEncoding};


