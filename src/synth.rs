//! Speech synthesis requests and the dispatcher that gathers their audio.
//!
//! The text of an article is cut into chunks that each fit in one request. All requests are in
//! flight at once; the dispatcher takes their results in whatever order they complete, stops at
//! the first failure and otherwise joins the audio in the order of the chunks.

use vstd::prelude::*;
use vstd::string::StringExecFns;
use crate::chunker::{break_english_text, chunks_fit, english_delimiters, layout_chunks, layout_with, ChunkError};
use crate::text::{str_len, utf8_len};

verus! {

/// The most bytes of text the speech service accepts in one request.
pub const MAX_CHARS_PER_REQUEST: usize = 5000;

/// One request to the speech service.
#[derive(Clone, Debug)]
pub struct TtsRequest {
    /// The text to be spoken.
    pub text: String,
    /// Whether to use the more expensive, more natural voices.
    pub use_wavenet: bool,
}

/// Why speech could not be produced.
#[derive(Clone, Debug)]
pub enum TtsError {
    /// The text holds a span without delimiters that is too large for one request.
    Unbreakable,
    /// A request's text is larger than the service accepts.
    RequestTooLong,
    /// The service's response held no audio in the expected encoding.
    BadAudioEncoding,
    /// The request could not be made, or the service answered with an error.
    Service(String),
}

/// The text as a JSON string literal, quoted and escaped.
pub uninterp spec fn json_quoted(s: Seq<char>) -> Seq<char>;

/// The bytes that the base64 text `s` encodes, if it is valid base64.
pub uninterp spec fn base64_decoded(s: Seq<char>) -> Option<Seq<u8>>;

/// Relies on `serde_json::to_string` on a `str`: the string as a JSON literal. Writing a string
/// into memory cannot fail, so the default is never taken.
#[verifier::external_body]
fn json_quote(s: &str) -> (r: String)
    ensures
        r@ == json_quoted(s@),
{
    serde_json::to_string(s).unwrap_or_default()
}

/// Relies on `base64::decode` with the standard alphabet: the decoded bytes, or nothing when the
/// text is not valid base64. It would panic on a length within seven of `usize::MAX`.
#[verifier::external_body]
fn base64_decode(s: &str) -> (r: Option<Vec<u8>>)
    requires
        utf8_len(s@) + 7 <= usize::MAX,
    ensures
        r matches Some(v) ==> base64_decoded(s@) == Some(v@),
        r is None ==> base64_decoded(s@) is None,
{
    base64::decode(s).ok()
}

/// The name of the voice that is asked for.
pub open spec fn voice_name(use_wavenet: bool) -> Seq<char> {
    if use_wavenet {
        "en-US-Wavenet-C"@
    } else {
        "en-US-Standard-C"@
    }
}

/// The JSON body of a request for `text`.
pub open spec fn request_payload(text: Seq<char>, use_wavenet: bool) -> Seq<char> {
    "{\"input\":{\"text\":"@ + json_quoted(text) + "},\"voice\":{\"languageCode\":\"en-US\",\"name\":\""@
        + voice_name(use_wavenet)
        + "\"},\"audioConfig\":{\"audioEncoding\":\"MP3_64_KBPS\",\"sampleRateHertz\":48000}}"@
}

impl TtsRequest {
    /// The JSON body of this request: the text, the voice and the audio encoding.
    pub fn into_json(&self) -> (r: String)
        ensures
            r@ == request_payload(self.text@, self.use_wavenet),
    {
        let voice = if self.use_wavenet {
            "en-US-Wavenet-C"
        } else {
            "en-US-Standard-C"
        };
        let mut r = String::from_str("{\"input\":{\"text\":");
        r.append(json_quote(self.text.as_str()).as_str());
        r.append("},\"voice\":{\"languageCode\":\"en-US\",\"name\":\"");
        r.append(voice);
        r.append("\"},\"audioConfig\":{\"audioEncoding\":\"MP3_64_KBPS\",\"sampleRateHertz\":48000}}");
        r
    }

    /// The body to send for this request, or `RequestTooLong` when the text exceeds what the
    /// service accepts in one request.
    pub fn checked_payload(&self) -> (r: Result<String, TtsError>)
        ensures
            utf8_len(self.text@) > MAX_CHARS_PER_REQUEST ==> r matches Err(TtsError::RequestTooLong),
            utf8_len(self.text@) <= MAX_CHARS_PER_REQUEST ==> (r matches Ok(p) && p@
                == request_payload(self.text@, self.use_wavenet)),
    {
        if str_len(self.text.as_str()) > MAX_CHARS_PER_REQUEST {
            Err(TtsError::RequestTooLong)
        } else {
            Ok(self.into_json())
        }
    }
}

/// The audio in a response, from the base64 text of its `audioContent` field.
pub fn decode_audio_content(audio_content: &str) -> (r: Result<Vec<u8>, TtsError>)
    ensures
        r matches Ok(v) ==> base64_decoded(audio_content@) == Some(v@),
        r matches Err(e) ==> e matches TtsError::BadAudioEncoding,
        r is Err <==> (base64_decoded(audio_content@) is None || utf8_len(audio_content@) + 7
            > usize::MAX),
{
    if str_len(audio_content) > usize::MAX - 7 {
        return Err(TtsError::BadAudioEncoding);
    }
    match base64_decode(audio_content) {
        Some(v) => Ok(v),
        None => Err(TtsError::BadAudioEncoding),
    }
}

/// The texts of the requests for `text`: its English chunks of at most one request each.
pub open spec fn request_texts(text: Seq<char>) -> Seq<Seq<char>> {
    layout_chunks(layout_with(text, english_delimiters(), MAX_CHARS_PER_REQUEST as nat))
}

/// Splits the text of a request into requests that each fit in one call to the service, in the
/// order of the text, all with the same voice.
pub fn plan_requests(req: &TtsRequest) -> (r: Result<Vec<TtsRequest>, TtsError>)
    ensures
        chunks_fit(request_texts(req.text@), MAX_CHARS_PER_REQUEST as nat) <==> r is Ok,
        r matches Err(e) ==> e matches TtsError::Unbreakable,
        r matches Ok(v) ==> {
            &&& v@.len() == request_texts(req.text@).len()
            &&& forall|i: int|
                0 <= i < v@.len() ==> (#[trigger] v@[i]).text@ == request_texts(req.text@)[i]
                    && v@[i].use_wavenet == req.use_wavenet
        },
{
    match break_english_text(req.text.as_str(), MAX_CHARS_PER_REQUEST) {
        Err(ChunkError::Unbreakable) => Err(TtsError::Unbreakable),
        Ok(chunks) => {
            let ghost cs = request_texts(req.text@);
            let mut out: Vec<TtsRequest> = Vec::new();
            let mut i: usize = 0;
            while i < chunks.len()
                invariant
                    i <= chunks@.len(),
                    chunks@.map_values(|s: String| s@) == cs,
                    out@.len() == i,
                    forall|j: int|
                        0 <= j < i ==> (#[trigger] out@[j]).text@ == cs[j] && out@[j].use_wavenet
                            == req.use_wavenet,
                decreases chunks@.len() - i,
            {
                let text = chunks[i].clone();
                proof {
                    assert(cs[i as int] == chunks@[i as int]@);
                }
                out.push(TtsRequest { text, use_wavenet: req.use_wavenet });
                i = i + 1;
            }
            Ok(out)
        },
    }
}

} // verus!
