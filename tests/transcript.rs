use voice_assistant::stt::{join_segments, transcript, SttAction};

fn strings(v: &[&str]) -> Vec<String> {
    v.iter().map(|s| s.to_string()).collect()
}

#[test]
fn raw_segments_are_trimmed_filtered_and_joined() {
    let segs = strings(&["  Hello there. ", " [BLANK_AUDIO]", "\tHow are you?\n"]);
    assert_eq!(transcript(&segs), "Hello there. How are you?");
}

#[test]
fn only_blank_audio_gives_empty_text() {
    assert_eq!(transcript(&strings(&["[BLANK_AUDIO]", " [BLANK_AUDIO] "])), "");
    assert_eq!(transcript(&Vec::new()), "");
}

#[test]
fn join_keeps_empty_segments_between_spaces() {
    assert_eq!(join_segments(&strings(&["a", "", "b"])), "a  b");
    assert_eq!(join_segments(&strings(&["[BLANK_AUDIO]", "x"])), "x");
    assert_eq!(join_segments(&strings(&[" [BLANK_AUDIO]"])), " [BLANK_AUDIO]");
}

#[test]
fn stt_commands_compare() {
    assert_ne!(SttAction::RecordUntilSilence, SttAction::Pause);
}
