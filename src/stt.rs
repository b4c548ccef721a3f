//! Speech input: the commands the speech-input worker takes, and how the
//! recognizer's text segments become one utterance.

use vstd::prelude::*;
use vstd::string::StringExecFns;

verus! {

/// A command for the speech-input worker.
#[derive(Clone, Copy, Debug, PartialEq, Eq, Structural)]
pub enum SttAction {
    /// Record until the speaker falls silent, then transcribe.
    RecordUntilSilence,
    /// Stop listening.
    Pause,
}

/// A source of spoken input: records one utterance and returns its text.
pub trait GetInput {
    fn record(&mut self) -> String;
}

/// What `str::trim` returns for a text.
pub uninterp spec fn trimmed(s: Seq<char>) -> Seq<char>;

/// Relies on `str::trim` (std): the text without leading and trailing
/// whitespace, which depends on the text alone.
#[verifier::external_body]
fn trim_text(s: &str) -> (r: &str)
    ensures
        r@ == trimmed(s@),
{
    s.trim()
}

/// The text the recognizer gives for a stretch without speech.
pub open spec fn blank_marker() -> Seq<char> {
    seq!['[', 'B', 'L', 'A', 'N', 'K', '_', 'A', 'U', 'D', 'I', 'O', ']']
}

/// The segments that carry speech, in order.
pub open spec fn spoken(segments: Seq<Seq<char>>) -> Seq<Seq<char>>
    decreases segments.len(),
{
    if segments.len() == 0 {
        Seq::empty()
    } else if segments.last() == blank_marker() {
        spoken(segments.drop_last())
    } else {
        spoken(segments.drop_last()).push(segments.last())
    }
}

/// The words joined with one space between each two.
pub open spec fn join_spaced(words: Seq<Seq<char>>) -> Seq<char>
    decreases words.len(),
{
    if words.len() == 0 {
        Seq::empty()
    } else if words.len() == 1 {
        words[0]
    } else {
        join_spaced(words.drop_last()) + seq![' '] + words.last()
    }
}

/// The utterance made of already trimmed segments: the blank-audio markers
/// left out, the rest joined with single spaces.
pub fn join_segments(segments: &Vec<String>) -> (r: String)
    ensures
        r@ == join_spaced(spoken(segments@.map_values(|s: String| s@))),
{
    let ghost segs = segments@.map_values(|s: String| s@);
    let marker = String::from_str("[BLANK_AUDIO]");
    let space = " ";
    proof {
        reveal_strlit("[BLANK_AUDIO]");
        reveal_strlit(" ");
        assert(marker@ =~= blank_marker());
        assert(space@ =~= seq![' ']);
    }
    let mut out = String::new();
    let mut any = false;
    let mut i: usize = 0;
    while i < segments.len()
        invariant
            i <= segments@.len(),
            segs == segments@.map_values(|s: String| s@),
            marker@ == blank_marker(),
            space@ == seq![' '],
            out@ == join_spaced(spoken(segs.subrange(0, i as int))),
            any == (spoken(segs.subrange(0, i as int)).len() > 0),
        decreases segments.len() - i,
    {
        let ghost before = segs.subrange(0, i as int);
        let ghost after = segs.subrange(0, i + 1);
        proof {
            assert(after.drop_last() =~= before);
            assert(after.last() == segments@[i as int]@);
        }
        let s = &segments[i];
        if !(*s == marker) {
            if any {
                out.append(space);
            }
            out.append(s.as_str());
            proof {
                let words = spoken(before);
                assert(spoken(after) == words.push(s@));
                assert(words.push(s@).drop_last() =~= words);
                if words.len() == 0 {
                    assert(out@ =~= join_spaced(words.push(s@)));
                }
            }
            any = true;
        }
        i = i + 1;
    }
    proof {
        assert(segs.subrange(0, segments@.len() as int) =~= segs);
    }
    out
}

/// The utterance made of the recognizer's raw segments: each trimmed, the
/// blank-audio markers left out, the rest joined with single spaces.
pub fn transcript(segments: &Vec<String>) -> (r: String)
    ensures
        r@ == join_spaced(spoken(segments@.map_values(|s: String| trimmed(s@)))),
{
    let mut trimmed_segments: Vec<String> = Vec::new();
    let mut i: usize = 0;
    while i < segments.len()
        invariant
            i <= segments@.len(),
            trimmed_segments@.map_values(|s: String| s@) =~= segments@.subrange(
                0,
                i as int,
            ).map_values(|s: String| trimmed(s@)),
        decreases segments.len() - i,
    {
        let t = trim_text(segments[i].as_str());
        trimmed_segments.push(t.to_owned());
        proof {
            assert(segments@.subrange(0, i + 1).map_values(|s: String| trimmed(s@))
                =~= segments@.subrange(0, i as int).map_values(|s: String| trimmed(s@)).push(
                trimmed(segments@[i as int]@),
            ));
        }
        i = i + 1;
    }
    proof {
        assert(segments@.subrange(0, segments@.len() as int) =~= segments@);
    }
    join_segments(&trimmed_segments)
}

} // verus!
