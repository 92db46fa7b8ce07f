use perplexity_stream::driver::api_error_message;
use perplexity_stream::driver::apply_delta;
use perplexity_stream::driver::is_success;
use perplexity_stream::driver::DriverInput;
use perplexity_stream::driver::StepOutput;
use perplexity_stream::driver::StreamDriver;
use perplexity_stream::machine::Phase;
use perplexity_stream::machine::Progress;
use perplexity_stream::models::chat::PerplexityChoice;
use perplexity_stream::models::chat::PerplexityDelta;
use perplexity_stream::models::chat::PerplexityStreamChunk;
use perplexity_stream::models::chat::StreamEvent;

fn token(text: &str) -> StreamEvent {
    StreamEvent::Token(text.to_string())
}

fn done(text: &str) -> StreamEvent {
    StreamEvent::Done(text.to_string())
}

fn error(text: &str) -> StreamEvent {
    StreamEvent::Error(text.to_string())
}

fn streaming() -> StreamDriver {
    let mut driver = StreamDriver::new();
    let out = driver.on_response(200, "");
    assert_eq!(out, StepOutput { events: Vec::new(), progress: Progress::Continue });
    assert_eq!(driver.phase(), Phase::Streaming);
    driver
}

fn content_frame(content: &str) -> String {
    format!("data: {{\"choices\":[{{\"delta\":{{\"content\":\"{}\"}}}}]}}\n", content)
}

fn run_chunks(chunks: &[&[u8]]) -> (Vec<StreamEvent>, Phase, String) {
    let mut driver = streaming();
    let mut events = Vec::new();
    for chunk in chunks {
        events.extend(driver.on_chunk(chunk).events);
    }
    events.extend(driver.on_end_of_stream().events);
    (events, driver.phase(), driver.content().to_string())
}

#[test]
fn new_driver_is_requesting_with_no_content() {
    let driver = StreamDriver::new();
    assert_eq!(driver.phase(), Phase::Requesting);
    assert_eq!(driver.content(), "");
}

#[test]
fn success_statuses_are_200_to_299() {
    let mut status: u16 = 0;
    loop {
        assert_eq!(is_success(status), (200..300).contains(&status), "{}", status);
        if status == u16::MAX {
            break;
        }
        status += 1;
    }
}

#[test]
fn api_error_message_holds_status_and_body() {
    assert_eq!(api_error_message(401, "invalid key"), "API returned 401: invalid key");
    assert_eq!(api_error_message(500, ""), "API returned 500: ");
    assert_eq!(
        api_error_message(429, "{\"error\":\"slow down\"}"),
        "API returned 429: {\"error\":\"slow down\"}"
    );
    assert_eq!(api_error_message(0, "x"), "API returned 0: x");
}

#[test]
fn tokens_then_done_with_the_whole_text() {
    let mut driver = streaming();
    let mut events = Vec::new();
    let first = driver.on_chunk(b"data: {\"choices\":[{\"delta\":{\"content\":\"Hi\"}}]}\n");
    assert_eq!(first.progress, Progress::Continue);
    events.extend(first.events);
    let second = driver.on_chunk(b"data: {\"choices\":[{\"delta\":{\"content\":\" there\"}}]}\n");
    assert_eq!(second.progress, Progress::Continue);
    events.extend(second.events);
    assert_eq!(driver.content(), "Hi there");
    let third = driver.on_chunk(b"data: [DONE]\n");
    assert_eq!(third.progress, Progress::Completed);
    events.extend(third.events);
    assert_eq!(events, vec![token("Hi"), token(" there"), done("Hi there")]);
    assert_eq!(driver.phase(), Phase::Finished);
    assert_eq!(driver.content(), "Hi there");
}

#[test]
fn only_a_comment_then_end_of_stream_gives_an_empty_done() {
    let mut driver = streaming();
    let out = driver.on_chunk(b": keep-alive\n");
    assert_eq!(out, StepOutput { events: Vec::new(), progress: Progress::Continue });
    let end = driver.on_end_of_stream();
    assert_eq!(end, StepOutput { events: vec![done("")], progress: Progress::Completed });
    assert_eq!(driver.phase(), Phase::Finished);
}

#[test]
fn refused_response_gives_one_error_and_fails() {
    let mut driver = StreamDriver::new();
    let out = driver.on_response(401, "invalid key");
    assert_eq!(
        out,
        StepOutput {
            events: vec![error("API returned 401: invalid key")],
            progress: Progress::Failed,
        }
    );
    assert_eq!(driver.phase(), Phase::Errored);
    let idle = StepOutput { events: Vec::new(), progress: Progress::Failed };
    assert_eq!(driver.on_chunk(&content_frame("x").into_bytes()), idle);
    assert_eq!(driver.on_text("data: [DONE]\n"), idle);
    assert_eq!(driver.on_end_of_stream(), idle);
    assert_eq!(driver.on_response(200, ""), idle);
    assert_eq!(driver.on_transport_failure(), idle);
    assert_eq!(driver.phase(), Phase::Errored);
}

#[test]
fn every_status_outside_the_success_range_is_refused() {
    for status in [100u16, 199, 300, 301, 400, 404, 500, 503, 999] {
        let mut driver = StreamDriver::new();
        let out = driver.on_response(status, "body");
        assert_eq!(out.progress, Progress::Failed);
        assert_eq!(out.events, vec![error(&format!("API returned {}: body", status))]);
        assert_eq!(driver.phase(), Phase::Errored);
    }
    for status in [200u16, 201, 204, 299] {
        let mut driver = StreamDriver::new();
        let out = driver.on_response(status, "ignored");
        assert_eq!(out, StepOutput { events: Vec::new(), progress: Progress::Continue });
        assert_eq!(driver.phase(), Phase::Streaming);
    }
}

#[test]
fn a_partial_line_completed_by_the_next_chunk() {
    let one = content_frame("one");
    let two = content_frame("two");
    let three = content_frame("three");
    let whole = format!("{}{}{}", one, two, three);
    let cut = one.len() + two.len() + 9;
    let (split, _, _) = run_chunks(&[whole[..cut].as_bytes(), whole[cut..].as_bytes()]);
    let (single, _, _) = run_chunks(&[whole.as_bytes()]);
    assert_eq!(split, vec![token("one"), token("two"), token("three"), done("onetwothree")]);
    assert_eq!(single, split);
}

#[test]
fn events_do_not_depend_on_where_the_chunks_are_cut() {
    let text = format!(
        ": hello\r\n{}\r\nevent: ping\n{}data: {{broken\n\n{}data: [DONE]\n{}",
        content_frame("Hel").trim_end(),
        content_frame("lo, "),
        content_frame("world"),
        content_frame("ignored")
    );
    let bytes = text.as_bytes();
    let whole = run_chunks(&[bytes]);
    assert_eq!(
        whole,
        (
            vec![token("Hel"), token("lo, "), token("world"), done("Hello, world")],
            Phase::Finished,
            "Hello, world".to_string()
        )
    );
    for i in 0..=bytes.len() {
        assert_eq!(run_chunks(&[&bytes[..i], &bytes[i..]]), whole, "cut at {}", i);
    }
    let single_bytes: Vec<&[u8]> = bytes.chunks(1).collect();
    assert_eq!(run_chunks(&single_bytes), whole);
    let triples: Vec<&[u8]> = bytes.chunks(3).collect();
    assert_eq!(run_chunks(&triples), whole);
}

#[test]
fn a_character_cut_by_a_chunk_boundary_changes_the_token() {
    let frame = content_frame("caf\u{e9}");
    let bytes = frame.as_bytes();
    let at = frame.find('\u{e9}').unwrap() + 1;
    let (whole, _, _) = run_chunks(&[bytes]);
    assert_eq!(whole, vec![token("caf\u{e9}"), done("caf\u{e9}")]);
    let (cut, _, _) = run_chunks(&[&bytes[..at], &bytes[at..]]);
    assert_eq!(cut, vec![token("caf\u{FFFD}\u{FFFD}"), done("caf\u{FFFD}\u{FFFD}")]);
}

#[test]
fn terminator_gives_exactly_one_done_and_nothing_after() {
    let mut driver = streaming();
    let text = format!("{}data: [DONE]\n{}data: [DONE]\n", content_frame("a"), content_frame("b"));
    let out = driver.on_text(&text);
    assert_eq!(
        out,
        StepOutput { events: vec![token("a"), done("a")], progress: Progress::Completed }
    );
    assert_eq!(driver.phase(), Phase::Finished);
    let idle = StepOutput { events: Vec::new(), progress: Progress::Completed };
    assert_eq!(driver.on_chunk(content_frame("c").as_bytes()), idle);
    assert_eq!(driver.on_text("data: [DONE]\n"), idle);
    assert_eq!(driver.on_end_of_stream(), idle);
    assert_eq!(driver.on_transport_failure(), idle);
    assert_eq!(driver.on_response(500, "late"), idle);
    assert_eq!(driver.phase(), Phase::Finished);
    assert_eq!(driver.content(), "a");
}

#[test]
fn done_carries_the_text_of_every_token() {
    let mut driver = streaming();
    let mut events = Vec::new();
    let frames = [
        content_frame("alpha "),
        "data: {\"choices\":[{\"delta\":{\"content\":\"be\"}},{\"delta\":{\"content\":\"ta\"}}]}\n"
            .to_string(),
        "data: {\"choices\":[{\"delta\":{\"content\":\"\"}},{\"finish_reason\":\"stop\"}]}\n"
            .to_string(),
        content_frame(" gamma"),
    ];
    for frame in &frames {
        events.extend(driver.on_text(frame).events);
    }
    events.extend(driver.on_end_of_stream().events);
    let mut joined = String::new();
    for event in &events[..events.len() - 1] {
        match event {
            StreamEvent::Token(t) => joined.push_str(t),
            other => panic!("unexpected {:?}", other),
        }
    }
    assert_eq!(joined, "alpha beta gamma");
    assert_eq!(events.last(), Some(&done("alpha beta gamma")));
}

#[test]
fn malformed_payload_is_skipped_without_an_error() {
    let mut driver = streaming();
    let text = format!(
        "{}data: {{not json\ndata: {{\"choices\":7}}\ndata: [1,2]\n{}",
        content_frame("a"),
        content_frame("b")
    );
    let out = driver.on_text(&text);
    assert_eq!(
        out,
        StepOutput { events: vec![token("a"), token("b")], progress: Progress::Continue }
    );
    assert_eq!(driver.phase(), Phase::Streaming);
    assert_eq!(driver.content(), "ab");
}

#[test]
fn end_of_stream_without_terminator_gives_done_with_partial_content() {
    let mut driver = streaming();
    let mut events = driver.on_text(&content_frame("partial")).events;
    events.extend(driver.on_text("data: {\"choices\":[{\"delta\":{\"content\":\"lost").events);
    let end = driver.on_end_of_stream();
    assert_eq!(end.progress, Progress::Completed);
    events.extend(end.events);
    assert_eq!(events, vec![token("partial"), done("partial")]);
    assert_eq!(driver.phase(), Phase::Finished);
}

#[test]
fn terminator_without_newline_is_not_a_record_yet() {
    let mut driver = streaming();
    let out = driver.on_text("data: [DONE]");
    assert_eq!(out, StepOutput { events: Vec::new(), progress: Progress::Continue });
    assert_eq!(driver.phase(), Phase::Streaming);
    let out = driver.on_text("\r\n");
    assert_eq!(out, StepOutput { events: vec![done("")], progress: Progress::Completed });
}

#[test]
fn transport_failure_fails_without_an_event() {
    let mut driver = streaming();
    let _ = driver.on_text(&content_frame("a"));
    let out = driver.on_transport_failure();
    assert_eq!(out, StepOutput { events: Vec::new(), progress: Progress::Failed });
    assert_eq!(driver.phase(), Phase::Errored);
    assert_eq!(driver.content(), "a");
    let mut early = StreamDriver::new();
    let out = early.on_transport_failure();
    assert_eq!(out, StepOutput { events: Vec::new(), progress: Progress::Failed });
    assert_eq!(early.phase(), Phase::Errored);
}

#[test]
fn body_inputs_before_the_response_are_ignored() {
    let mut driver = StreamDriver::new();
    let idle = StepOutput { events: Vec::new(), progress: Progress::Continue };
    assert_eq!(driver.on_chunk(content_frame("a").as_bytes()), idle);
    assert_eq!(driver.on_text("data: [DONE]\n"), idle);
    assert_eq!(driver.on_end_of_stream(), idle);
    assert_eq!(driver.phase(), Phase::Requesting);
    assert_eq!(driver.content(), "");
}

#[test]
fn a_second_response_while_streaming_is_ignored() {
    let mut driver = streaming();
    let out = driver.on_response(500, "late");
    assert_eq!(out, StepOutput { events: Vec::new(), progress: Progress::Continue });
    assert_eq!(driver.phase(), Phase::Streaming);
}

#[test]
fn step_dispatches_on_the_input() {
    let mut driver = StreamDriver::new();
    let inputs = vec![
        DriverInput::Response { status: 200, body: String::new() },
        DriverInput::Chunk(content_frame("a").into_bytes()),
        DriverInput::Text(content_frame("b")),
        DriverInput::Chunk(b"data: [DO".to_vec()),
        DriverInput::Text("NE]\n".to_string()),
        DriverInput::EndOfStream,
    ];
    let mut events = Vec::new();
    let mut last = Progress::Continue;
    for input in &inputs {
        let out = driver.step(input);
        events.extend(out.events);
        last = out.progress;
    }
    assert_eq!(events, vec![token("a"), token("b"), done("ab")]);
    assert_eq!(last, Progress::Completed);
    let mut failing = StreamDriver::new();
    let out = failing.step(&DriverInput::TransportFailure);
    assert_eq!(out, StepOutput { events: Vec::new(), progress: Progress::Failed });
    let mut refused = StreamDriver::new();
    let out = refused.step(&DriverInput::Response { status: 403, body: "no".to_string() });
    assert_eq!(out.events, vec![error("API returned 403: no")]);
}

#[test]
fn ill_formed_bytes_in_a_chunk_are_replaced() {
    let mut driver = streaming();
    let out = driver.on_chunk(b"data: {\"choices\":[{\"delta\":{\"content\":\"a\xFFb\"}}]}\n");
    assert_eq!(out.events, vec![token("a\u{FFFD}b")]);
}

#[test]
fn apply_delta_appends_fragments_and_gives_tokens() {
    let chunk = PerplexityStreamChunk {
        choices: vec![
            PerplexityChoice {
                delta: Some(PerplexityDelta { content: Some("x".to_string()) }),
                finish_reason: None,
            },
            PerplexityChoice { delta: None, finish_reason: Some("stop".to_string()) },
            PerplexityChoice {
                delta: Some(PerplexityDelta { content: Some(String::new()) }),
                finish_reason: None,
            },
            PerplexityChoice {
                delta: Some(PerplexityDelta { content: Some("yz".to_string()) }),
                finish_reason: None,
            },
        ],
    };
    let mut content = "so far: ".to_string();
    let events = apply_delta(&mut content, &chunk);
    assert_eq!(events, vec![token("x"), token("yz")]);
    assert_eq!(content, "so far: xyz");
    let empty = PerplexityStreamChunk { choices: Vec::new() };
    assert_eq!(apply_delta(&mut content, &empty), Vec::new());
    assert_eq!(content, "so far: xyz");
}

#[test]
fn carriage_returns_and_blank_lines_between_frames() {
    let mut driver = streaming();
    let text = format!(
        "{}\r\n\r\n{}\r\n\r\ndata: [DONE]\r\n\r\n",
        content_frame("a").trim_end(),
        content_frame("b").trim_end()
    );
    let out = driver.on_chunk(text.as_bytes());
    assert_eq!(out.events, vec![token("a"), token("b"), done("ab")]);
}

#[test]
fn run_takes_a_recorded_exchange() {
    let inputs = vec![
        DriverInput::Response { status: 200, body: String::new() },
        DriverInput::Chunk(b": keep-alive\n\n".to_vec()),
        DriverInput::Chunk(content_frame("Hi").into_bytes()),
        DriverInput::Chunk(content_frame(" there").into_bytes()),
        DriverInput::Chunk(b"data: [DONE]\n".to_vec()),
        DriverInput::Chunk(content_frame("late").into_bytes()),
        DriverInput::EndOfStream,
    ];
    let mut driver = StreamDriver::new();
    let events = driver.run(&inputs);
    assert_eq!(events, vec![token("Hi"), token(" there"), done("Hi there")]);
    assert_eq!(driver.phase(), Phase::Finished);
    assert_eq!(driver.content(), "Hi there");
    assert_eq!(driver.run(&inputs), Vec::new());
}

#[test]
fn run_of_no_input_changes_nothing() {
    let mut driver = StreamDriver::new();
    assert_eq!(driver.run(&Vec::new()), Vec::new());
    assert_eq!(driver.phase(), Phase::Requesting);
}

#[test]
fn run_agrees_with_single_steps() {
    let inputs = vec![
        DriverInput::Response { status: 204, body: "unread".to_string() },
        DriverInput::Text("data: {\"choices\":[{\"delta\":{\"content\":\"a".to_string()),
        DriverInput::Text("b\"}}]}\ndata: x\n".to_string()),
        DriverInput::TransportFailure,
        DriverInput::EndOfStream,
    ];
    let mut whole = StreamDriver::new();
    let events = whole.run(&inputs);
    let mut stepped = StreamDriver::new();
    let mut expected = Vec::new();
    for input in &inputs {
        expected.extend(stepped.step(input).events);
    }
    assert_eq!(events, expected);
    assert_eq!(events, vec![token("ab")]);
    assert_eq!(whole.phase(), Phase::Errored);
    assert_eq!(stepped.phase(), Phase::Errored);
    assert_eq!(whole.content(), stepped.content());
}

#[test]
fn chunks_cut_between_characters_give_the_same_events() {
    let frame = content_frame("na\u{ef}ve caf\u{e9} \u{1F600} \u{4e2d}\u{6587}");
    let (whole, _, _) = run_chunks(&[frame.as_bytes()]);
    assert_eq!(
        whole,
        vec![
            token("na\u{ef}ve caf\u{e9} \u{1F600} \u{4e2d}\u{6587}"),
            done("na\u{ef}ve caf\u{e9} \u{1F600} \u{4e2d}\u{6587}")
        ]
    );
    for (at, _) in frame.char_indices() {
        let (cut, _, _) = run_chunks(&[frame[..at].as_bytes(), frame[at..].as_bytes()]);
        assert_eq!(cut, whole, "cut at {}", at);
    }
    let pieces: Vec<String> = frame.chars().map(|c| c.to_string()).collect();
    let chunks: Vec<&[u8]> = pieces.iter().map(|p| p.as_bytes()).collect();
    assert_eq!(run_chunks(&chunks).0, whole);
}
