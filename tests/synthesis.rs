use readtomyshoe::{
    decode_audio_content, plan_requests, DispatchStep, Dispatcher, TtsError, TtsRequest,
    MAX_CHARS_PER_REQUEST,
};

fn done_audio(step: DispatchStep) -> Vec<u8> {
    match step {
        DispatchStep::Done(audio) => audio,
        other => panic!("expected Done, got {other:?}"),
    }
}

#[test]
fn audio_is_joined_in_chunk_order_whatever_the_completion_order() {
    let blobs: Vec<Vec<u8>> = vec![b"b1".to_vec(), b"b2".to_vec(), b"b3".to_vec(), b"b4".to_vec()];
    let mut d = Dispatcher::new(4);
    for i in [2usize, 0, 3] {
        assert!(matches!(d.on_result(i, Ok(blobs[i].clone())), DispatchStep::Pending));
    }
    let audio = done_audio(d.on_result(1, Ok(blobs[1].clone())));
    assert_eq!(audio, b"b1b2b3b4".to_vec());
    assert!(d.finished());
}

#[test]
fn first_failure_cancels_without_waiting_for_the_rest() {
    let mut d = Dispatcher::new(4);
    assert!(matches!(d.on_result(0, Ok(b"one".to_vec())), DispatchStep::Pending));
    // Chunk 2 of 4 fails while chunks 3 and 4 are still in flight.
    match d.on_result(1, Err(TtsError::Service("HTTP 500".to_string()))) {
        DispatchStep::Cancel(TtsError::Service(msg)) => assert_eq!(msg, "HTTP 500"),
        other => panic!("expected Cancel, got {other:?}"),
    }
    assert!(d.finished());
    // Late results of the abandoned calls are ignored.
    assert!(matches!(d.on_result(2, Ok(b"three".to_vec())), DispatchStep::Ignored));
    assert!(matches!(d.on_result(3, Ok(b"four".to_vec())), DispatchStep::Ignored));
}

#[test]
fn unknown_or_repeated_results_are_ignored() {
    let mut d = Dispatcher::new(2);
    assert!(matches!(d.on_result(5, Ok(vec![1])), DispatchStep::Ignored));
    assert!(matches!(d.on_result(0, Ok(vec![1])), DispatchStep::Pending));
    assert!(matches!(d.on_result(0, Ok(vec![9])), DispatchStep::Ignored));
    assert_eq!(done_audio(d.on_result(1, Ok(vec![2]))), vec![1, 2]);
}

#[test]
fn empty_dispatch_takes_no_results() {
    let mut d = Dispatcher::new(0);
    assert!(!d.finished());
    assert!(matches!(d.on_result(0, Ok(vec![1])), DispatchStep::Ignored));
}

#[test]
fn base64_audio_is_decoded() {
    assert_eq!(decode_audio_content("aGVsbG8=").unwrap(), b"hello".to_vec());
    assert!(matches!(decode_audio_content("not base64!"), Err(TtsError::BadAudioEncoding)));
}

#[test]
fn request_json_escapes_the_text() {
    let req = TtsRequest { text: "say \"hi\"".to_string(), use_wavenet: true };
    assert_eq!(
        req.into_json(),
        "{\"input\":{\"text\":\"say \\\"hi\\\"\"},\"voice\":{\"languageCode\":\"en-US\",\
         \"name\":\"en-US-Wavenet-C\"},\"audioConfig\":{\"audioEncoding\":\"MP3_64_KBPS\",\
         \"sampleRateHertz\":48000}}"
    );
    let standard = TtsRequest { text: "x".to_string(), use_wavenet: false };
    assert!(standard.into_json().contains("\"name\":\"en-US-Standard-C\""));
}

#[test]
fn oversized_request_is_refused() {
    let req = TtsRequest { text: "a".repeat(MAX_CHARS_PER_REQUEST + 1), use_wavenet: false };
    assert!(matches!(req.checked_payload(), Err(TtsError::RequestTooLong)));
    let ok = TtsRequest { text: "a".repeat(MAX_CHARS_PER_REQUEST), use_wavenet: false };
    assert_eq!(ok.checked_payload().unwrap(), ok.into_json());
}

#[test]
fn long_text_is_planned_as_several_requests() {
    let para = "word ".repeat(600);
    let text = format!("{para}\n{para}\n{para}");
    let reqs = plan_requests(&TtsRequest { text: text.clone(), use_wavenet: true }).unwrap();
    // Two paragraphs with their newline exceed one request, so each paragraph is one.
    assert_eq!(reqs.len(), 3);
    assert!(reqs.iter().all(|r| r.text.len() <= MAX_CHARS_PER_REQUEST && r.use_wavenet));
    assert_eq!(format!("{}\n{}\n{}", reqs[0].text, reqs[1].text, reqs[2].text), text);
}

#[test]
fn unbreakable_text_cannot_be_planned() {
    let text = "x".repeat(MAX_CHARS_PER_REQUEST + 1);
    let r = plan_requests(&TtsRequest { text, use_wavenet: false });
    assert!(matches!(r, Err(TtsError::Unbreakable)));
}

#[test]
fn dispatch_without_chunks_finishes_on_poll() {
    let mut d = Dispatcher::new(0);
    assert_eq!(done_audio(d.poll()), Vec::<u8>::new());
    assert!(d.finished());
    assert!(matches!(d.poll(), DispatchStep::Ignored));
    let mut d = Dispatcher::new(1);
    assert!(matches!(d.poll(), DispatchStep::Pending));
    assert_eq!(done_audio(d.on_result(0, Ok(vec![7]))), vec![7]);
}
