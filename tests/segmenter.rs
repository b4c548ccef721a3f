use voice_assistant::coordinator::Status;
use voice_assistant::segmenter::{
    transition, Dst, Event, ParseState, ProcState, ResponseSegmenter, Segment, SegmenterError,
    TokenSegmenter,
};

fn feed_all(seg: &mut TokenSegmenter, tokens: &[&str]) -> Result<Vec<Segment>, SegmenterError> {
    let mut out = Vec::new();
    for t in tokens {
        if let Some(s) = seg.handle(t)? {
            out.push(s);
        }
    }
    Ok(out)
}

fn segments_of(tokens: &[&str]) -> Vec<(Dst, String)> {
    let mut seg = TokenSegmenter::new();
    let out = feed_all(&mut seg, tokens).expect("well-formed stream");
    assert_eq!(seg.state(), ProcState::NotParsing);
    assert!(seg.buffer().is_empty());
    out.into_iter().map(|s| (s.kind, s.content)).collect()
}

#[test]
fn no_tokens_leave_start_state() {
    let seg = TokenSegmenter::new();
    assert_eq!(seg.state(), ProcState::NotParsing);
    assert!(seg.buffer().is_empty());
    assert_eq!(seg.status(), Status::Idle);
}

#[test]
fn split_backticks_then_whole_opening_fence() {
    let out = segments_of(&["`", "``", "```speech", "Hello there", "```"]);
    assert_eq!(out, vec![(Dst::Speech, "Hello there".to_string())]);
}

#[test]
fn opening_one_then_two_backticks_then_tag() {
    let out = segments_of(&["`", "``", "speech", "Hello there", "```"]);
    assert_eq!(out, vec![(Dst::Speech, "Hello there".to_string())]);
}

#[test]
fn whole_fence_after_each_backtick_prefix() {
    let prefixes: Vec<Vec<&str>> =
        vec![vec!["`"], vec!["``"], vec!["```"], vec!["`", "``"], vec!["``", "`"]];
    for p in &prefixes {
        let mut tokens = p.clone();
        tokens.extend(["```json", "[]", "```"]);
        assert_eq!(segments_of(&tokens), vec![(Dst::Actions, "[]".to_string())]);
    }
}

#[test]
fn json_block_closed_two_then_one() {
    let out = segments_of(&["```json", "{\"a\":1}", "``", "`"]);
    assert_eq!(out, vec![(Dst::Actions, "{\"a\":1}".to_string())]);
}

#[test]
fn every_opening_split_gives_one_speech_segment() {
    let openings: Vec<Vec<&str>> = vec![
        vec!["```speech"],
        vec!["```", "speech"],
        vec!["``", "`speech"],
        vec!["``", "`", "speech"],
        vec!["`", "``speech"],
        vec!["`", "``", "speech"],
        vec!["`", "```speech"],
        vec!["``", "```speech"],
        vec!["```", "```speech"],
        vec!["`", "``", "```speech"],
        vec!["``", "`", "```speech"],
    ];
    let closings: Vec<Vec<&str>> = vec![
        vec!["```"],
        vec!["``", "`"],
        vec!["`", "``"],
        vec!["`", "`", "`"],
    ];
    for open in &openings {
        for close in &closings {
            let mut tokens = open.clone();
            tokens.extend(["Hi", ", how", " are\n you?"]);
            tokens.extend(close.iter());
            let out = segments_of(&tokens);
            assert_eq!(out, vec![(Dst::Speech, "Hi, how are\n you?".to_string())]);
        }
    }
}

#[test]
fn body_tokens_concatenate_exactly() {
    let body = ["  two  spaces ", "\ttab", "", "\nline", " end."];
    let mut tokens = vec!["```json"];
    tokens.extend(body);
    tokens.push("```");
    let out = segments_of(&tokens);
    assert_eq!(out, vec![(Dst::Actions, body.concat())]);
}

#[test]
fn unclosed_block_keeps_body_in_buffer() {
    let mut seg = TokenSegmenter::new();
    let out = feed_all(&mut seg, &["``", "`speech", "Hello", " world"]).unwrap();
    assert!(out.is_empty());
    assert_eq!(seg.state(), ProcState::Parsing(ParseState::Speech));
    let gathered: String = seg.buffer().iter().collect();
    assert_eq!(gathered, "Hello world");
    assert_eq!(seg.status(), Status::Busy);
}

#[test]
fn unrecognised_first_token_is_malformed() {
    for t in ["Hello", "````", "```python", " ```speech", "", "``x"] {
        let mut seg = TokenSegmenter::new();
        assert!(matches!(seg.handle(t), Err(SegmenterError::MalformedFence)), "token {:?}", t);
        assert_eq!(seg.state(), ProcState::NotParsing);
    }
}

#[test]
fn opening_tag_prefix_is_accepted() {
    let mut seg = TokenSegmenter::new();
    assert!(matches!(seg.handle("```speechy"), Ok(None)));
    assert_eq!(seg.state(), ProcState::Parsing(ParseState::Speech));
    let mut seg = TokenSegmenter::new();
    assert!(matches!(seg.handle("```json\n"), Ok(None)));
    assert_eq!(seg.state(), ProcState::Parsing(ParseState::Actions));
}

#[test]
fn unknown_continuation_is_malformed() {
    let cases: [(&str, &str); 5] =
        [("`", "`"), ("``", "``"), ("```", "`"), ("`", "``python"), ("``", "```python")];
    for (first, second) in cases {
        let mut seg = TokenSegmenter::new();
        assert!(seg.handle(first).is_ok());
        assert!(matches!(seg.handle(second), Err(SegmenterError::MalformedFence)));
    }
}

#[test]
fn two_backticks_on_empty_buffer_are_content() {
    let out = segments_of(&["```speech", "``", "`"]);
    assert_eq!(out, vec![(Dst::Speech, String::new())]);
}

#[test]
fn backticks_inside_text_stay_content() {
    let out = segments_of(&["```speech", "use ", "`", "x", "``", " here", "```"]);
    assert_eq!(out, vec![(Dst::Speech, "use `x`` here".to_string())]);
}

#[test]
fn closing_with_trailing_newlines() {
    assert_eq!(
        segments_of(&["```json", "[]", "`", "``\n"]),
        vec![(Dst::Actions, "[]".to_string())]
    );
    assert_eq!(
        segments_of(&["```json", "[]", "``", "`\n\n"]),
        vec![(Dst::Actions, "[]".to_string())]
    );
}

#[test]
fn speech_then_action_blocks_in_order() {
    let out = segments_of(&["```speech", "Saving.", "```", "```json", "{}", "```"]);
    assert_eq!(
        out,
        vec![(Dst::Speech, "Saving.".to_string()), (Dst::Actions, "{}".to_string())]
    );
}

#[test]
fn transition_table_examples() {
    assert_eq!(
        transition(ProcState::NotParsing, &[], "``"),
        Ok((ProcState::Parsing(ParseState::Unknown { num_backticks: 2 }), Event::DoNothing))
    );
    assert_eq!(
        transition(ProcState::Parsing(ParseState::Unknown { num_backticks: 2 }), &[], "`json"),
        Ok((ProcState::Parsing(ParseState::Actions), Event::DoNothing))
    );
    assert_eq!(
        transition(ProcState::Parsing(ParseState::Speech), &['a', '`'], "``"),
        Ok((ProcState::NotParsing, Event::Push { dst: Dst::Speech, pop: 1 }))
    );
    assert_eq!(
        transition(ProcState::Parsing(ParseState::Speech), &['`', '`'], "`"),
        Ok((ProcState::NotParsing, Event::Push { dst: Dst::Speech, pop: 2 }))
    );
    assert_eq!(
        transition(ProcState::Parsing(ParseState::Actions), &['a'], "`"),
        Ok((ProcState::Parsing(ParseState::Actions), Event::AddToBuffer))
    );
    assert_eq!(
        transition(ProcState::Parsing(ParseState::Actions), &[], "```"),
        Ok((ProcState::NotParsing, Event::Push { dst: Dst::Actions, pop: 0 }))
    );
    assert_eq!(
        transition(ProcState::Parsing(ParseState::Unknown { num_backticks: 0 }), &[], "```"),
        Err(SegmenterError::MalformedFence)
    );
}

#[test]
fn non_ascii_content_is_kept() {
    let out = segments_of(&["```speech", "héllo ", "wörld ✓", "```"]);
    assert_eq!(out, vec![(Dst::Speech, "héllo wörld ✓".to_string())]);
}

#[test]
fn reset_abandons_response() {
    let mut seg = TokenSegmenter::new();
    feed_all(&mut seg, &["```speech", "partial"]).unwrap();
    seg.reset();
    assert_eq!(seg.state(), ProcState::NotParsing);
    assert!(seg.buffer().is_empty());
}

fn strings(v: &[&str]) -> Vec<String> {
    v.iter().map(|s| s.to_string()).collect()
}

#[test]
fn handle_all_reads_a_whole_response() {
    let mut seg = TokenSegmenter::new();
    let out = seg
        .handle_all(&strings(&["`", "``", "```speech", "Hello there", "```", "```json", "{}", "``", "`"]))
        .unwrap();
    let got: Vec<(Dst, String)> = out.into_iter().map(|s| (s.kind, s.content)).collect();
    assert_eq!(
        got,
        vec![(Dst::Speech, "Hello there".to_string()), (Dst::Actions, "{}".to_string())]
    );
    assert_eq!(seg.state(), ProcState::NotParsing);
    assert!(seg.buffer().is_empty());
}

#[test]
fn handle_all_keeps_an_unclosed_block() {
    let mut seg = TokenSegmenter::new();
    let out = seg.handle_all(&strings(&["```json", "{\"a\":", " 1}"])).unwrap();
    assert!(out.is_empty());
    assert_eq!(seg.state(), ProcState::Parsing(ParseState::Actions));
    assert_eq!(seg.buffer().iter().collect::<String>(), "{\"a\": 1}");
}

#[test]
fn handle_all_abandons_a_malformed_response() {
    let mut seg = TokenSegmenter::new();
    let r = seg.handle_all(&strings(&["```speech", "ok", "```", "oops", "```speech"]));
    assert!(matches!(r, Err(SegmenterError::MalformedFence)));
    assert_eq!(seg.state(), ProcState::NotParsing);
    assert!(seg.buffer().is_empty());
}

#[test]
fn response_segmenter_skips_rest_after_malformed_fence() {
    let mut rs = ResponseSegmenter::new();
    assert!(matches!(rs.read("```speech"), Ok(None)));
    assert!(matches!(rs.read("hi"), Ok(None)));
    assert_eq!(rs.status(), Status::Busy);
    assert!(matches!(rs.read("```"), Ok(Some(_))));
    assert!(matches!(rs.read("garbage"), Err(SegmenterError::MalformedFence)));
    assert!(matches!(rs.read("```speech"), Ok(None)));
    assert!(matches!(rs.read("skipped"), Ok(None)));
    assert!(matches!(rs.read("```"), Ok(None)));
    assert_eq!(rs.state(), ProcState::NotParsing);
    assert_eq!(rs.status(), Status::Idle);
    rs.end_response();
    assert!(matches!(rs.read("```speech"), Ok(None)));
    assert!(matches!(rs.read("next"), Ok(None)));
    match rs.read("```") {
        Ok(Some(s)) => assert_eq!((s.kind, s.content.as_str()), (Dst::Speech, "next")),
        other => panic!("unexpected {:?}", other),
    }
}

#[test]
fn end_of_response_keeps_an_open_block() {
    let mut rs = ResponseSegmenter::new();
    assert!(matches!(rs.read("```json"), Ok(None)));
    rs.end_response();
    assert_eq!(rs.state(), ProcState::Parsing(ParseState::Actions));
}
