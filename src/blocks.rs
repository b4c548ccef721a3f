//! What the segmenter does with whole blocks: however an opening or closing
//! fence is split over tokens, a block comes out as one segment whose content
//! is exactly the text between its fences.

use vstd::prelude::*;
use crate::segmenter::{
    backticks, begins_with, closing_tail, ends_with_backticks, feed, is_backticks, is_fence,
    json_tag, parse_state_of, run, run_from, speech_tag, start, step, well_formed, Config, Dst,
    Event, ProcState, SegmenterError,
};

verus! {

/// The fence tag that opens a block bound for `dst`.
pub open spec fn fence_tag(dst: Dst) -> Seq<char> {
    match dst {
        Dst::Speech => speech_tag(),
        Dst::Actions => json_tag(),
    }
}

/// `toks` is the opening fence of a `dst` block (three backticks and the
/// tag), split over one, two or three tokens, or a whole opening fence read
/// after one to three bare backticks.
pub open spec fn opening_split(toks: Seq<Seq<char>>, dst: Dst) -> bool {
    let tag = fence_tag(dst);
    let whole = backticks(3) + tag;
    ||| toks == seq![backticks(1), whole]
    ||| toks == seq![backticks(2), whole]
    ||| toks == seq![backticks(3), whole]
    ||| toks == seq![backticks(1), backticks(2), whole]
    ||| toks == seq![backticks(2), backticks(1), whole]
    ||| toks == seq![backticks(3) + tag]
    ||| toks == seq![backticks(3), tag]
    ||| toks == seq![backticks(2), backticks(1) + tag]
    ||| toks == seq![backticks(2), backticks(1), tag]
    ||| toks == seq![backticks(1), backticks(2) + tag]
    ||| toks == seq![backticks(1), backticks(2), tag]
}

/// `toks` is a closing fence (three backticks), split over one, two or three
/// tokens.
pub open spec fn closing_split(toks: Seq<Seq<char>>) -> bool {
    ||| toks == seq![backticks(3)]
    ||| toks == seq![backticks(2), backticks(1)]
    ||| toks == seq![backticks(1), backticks(2)]
    ||| toks == seq![backticks(1), backticks(1), backticks(1)]
}

/// Inside a block whose content so far is `buf`, token `t` ends it.
pub open spec fn closes(buf: Seq<char>, t: Seq<char>) -> bool {
    ||| is_backticks(t, 3)
    ||| closing_tail(t, 2) && ends_with_backticks(buf, 1)
    ||| closing_tail(t, 1) && ends_with_backticks(buf, 2)
}

/// The tokens concatenated.
pub open spec fn flatten(toks: Seq<Seq<char>>) -> Seq<char>
    decreases toks.len(),
{
    if toks.len() == 0 {
        Seq::empty()
    } else {
        flatten(toks.drop_last()) + toks.last()
    }
}

/// No token of the body ends the block, given the text read before it.
pub open spec fn body_stays_open(body: Seq<Seq<char>>) -> bool {
    forall|i: int|
        0 <= i < body.len() ==> !closes(flatten(body.subrange(0, i)), #[trigger] body[i])
}

/// The body of a well-formed block: no token of it ends the block, and its
/// text does not end with a backtick unless the closing fence comes as one
/// token.
pub open spec fn well_formed_body(body: Seq<Seq<char>>, close: Seq<Seq<char>>) -> bool {
    &&& body_stays_open(body)
    &&& (close == seq![backticks(3)] || !ends_with_backticks(flatten(body), 1))
}

/// Reading `a` and then `b` is reading `a + b`.
pub proof fn lemma_run_concat(c: Config, a: Seq<Seq<char>>, b: Seq<Seq<char>>)
    ensures
        run_from(c, a + b) == match run_from(c, a) {
            Err(e) => Err(e),
            Ok(c2) => run_from(c2, b),
        },
    decreases b.len(),
{
    if b.len() == 0 {
        assert(a + b =~= a);
    } else {
        assert((a + b).drop_last() =~= a + b.drop_last());
        assert((a + b).last() == b.last());
        lemma_run_concat(c, a, b.drop_last());
    }
}

proof fn lemma_run_one(c: Config, x: Seq<char>)
    ensures
        run_from(c, seq![x]) == feed(c, x),
{
    assert(seq![x].drop_last() =~= Seq::<Seq<char>>::empty());
    assert(run_from(c, Seq::<Seq<char>>::empty()) == Ok::<Config, SegmenterError>(c));
}

proof fn lemma_run_two(c: Config, x: Seq<char>, y: Seq<char>)
    ensures
        run_from(c, seq![x, y]) == match feed(c, x) {
            Err(e) => Err(e),
            Ok(c2) => feed(c2, y),
        },
{
    assert(seq![x, y].drop_last() =~= seq![x]);
    lemma_run_one(c, x);
}

proof fn lemma_run_three(c: Config, x: Seq<char>, y: Seq<char>, z: Seq<char>)
    ensures
        run_from(c, seq![x, y, z]) == match feed(c, x) {
            Err(e) => Err(e),
            Ok(c2) => match feed(c2, y) {
                Err(e) => Err(e),
                Ok(c3) => feed(c3, z),
            },
        },
{
    assert(seq![x, y, z].drop_last() =~= seq![x, y]);
    lemma_run_two(c, x, y);
}

/// An opening fence, however split, enters the block with an empty buffer.
proof fn lemma_opening(open: Seq<Seq<char>>, dst: Dst, out: Seq<(Dst, Seq<char>)>)
    requires
        opening_split(open, dst),
    ensures
        run_from((ProcState::NotParsing, Seq::empty(), out), open) == Ok::<Config, SegmenterError>(
            (ProcState::Parsing(parse_state_of(dst)), Seq::<char>::empty(), out),
        ),
{
    let c: Config = (ProcState::NotParsing, Seq::empty(), out);
    let tag = fence_tag(dst);
    let t1 = backticks(1);
    let t2 = backticks(2);
    let t3 = backticks(3);
    assert(is_backticks(t1, 1) && is_backticks(t2, 2) && is_backticks(t3, 3));
    assert(speech_tag().len() == 6 && json_tag().len() == 4);
    assert(speech_tag()[4] != json_tag()[0]);
    let whole = t3 + tag;
    assert(begins_with(whole, 3, tag));
    assert(whole[1] == '`' && whole[2] == '`');
    if dst == Dst::Actions {
        assert(!begins_with(whole, 3, speech_tag()));
        assert(!is_fence(whole, 1, speech_tag()));
    }
    if open == seq![t1, whole] {
        lemma_run_two(c, t1, whole);
    } else if open == seq![t2, whole] {
        lemma_run_two(c, t2, whole);
    } else if open == seq![t3, whole] {
        lemma_run_two(c, t3, whole);
    } else if open == seq![t1, t2, whole] {
        lemma_run_three(c, t1, t2, whole);
    } else if open == seq![t2, t1, whole] {
        lemma_run_three(c, t2, t1, whole);
    } else if open == seq![t3 + tag] {
        lemma_run_one(c, t3 + tag);
        assert(begins_with(t3 + tag, 3, tag));
        if dst == Dst::Actions {
            assert(!begins_with(t3 + tag, 3, speech_tag()));
        }
    } else if open == seq![t3, tag] {
        lemma_run_two(c, t3, tag);
        assert(is_fence(tag, 0, tag));
        if dst == Dst::Actions {
            assert(!is_fence(tag, 0, speech_tag()));
        }
    } else if open == seq![t2, t1 + tag] {
        lemma_run_two(c, t2, t1 + tag);
        assert(is_fence(t1 + tag, 1, tag));
        if dst == Dst::Actions {
            assert(!is_fence(t1 + tag, 1, speech_tag()));
        }
    } else if open == seq![t2, t1, tag] {
        lemma_run_three(c, t2, t1, tag);
        assert(is_fence(tag, 0, tag));
        if dst == Dst::Actions {
            assert(!is_fence(tag, 0, speech_tag()));
        }
    } else if open == seq![t1, t2 + tag] {
        lemma_run_two(c, t1, t2 + tag);
        assert(is_fence(t2 + tag, 2, tag));
        if dst == Dst::Actions {
            assert(!is_fence(t2 + tag, 2, speech_tag()));
        }
    } else {
        lemma_run_three(c, t1, t2, tag);
        assert(is_fence(tag, 0, tag));
        if dst == Dst::Actions {
            assert(!is_fence(tag, 0, speech_tag()));
        }
    }
}

/// Inside a block, tokens that do not end it are appended to the buffer in
/// order.
proof fn lemma_body(dst: Dst, out: Seq<(Dst, Seq<char>)>, body: Seq<Seq<char>>)
    requires
        body_stays_open(body),
    ensures
        run_from((ProcState::Parsing(parse_state_of(dst)), Seq::empty(), out), body) == Ok::<
            Config,
            SegmenterError,
        >((ProcState::Parsing(parse_state_of(dst)), flatten(body), out)),
    decreases body.len(),
{
    if body.len() > 0 {
        let rest = body.drop_last();
        assert forall|i: int| 0 <= i < rest.len() implies !closes(
            flatten(rest.subrange(0, i)),
            #[trigger] rest[i],
        ) by {
            assert(rest.subrange(0, i) =~= body.subrange(0, i));
            assert(rest[i] == body[i]);
        }
        lemma_body(dst, out, rest);
        assert(body.subrange(0, body.len() - 1) =~= rest);
        assert(!closes(flatten(body.subrange(0, body.len() - 1)), body[body.len() - 1]));
    }
}

/// A closing fence, however split, emits the buffer as one segment, provided
/// the buffer's own last character cannot be taken for part of the fence.
proof fn lemma_closing(
    dst: Dst,
    buf: Seq<char>,
    out: Seq<(Dst, Seq<char>)>,
    close: Seq<Seq<char>>,
)
    requires
        closing_split(close),
        close == seq![backticks(3)] || !ends_with_backticks(buf, 1),
    ensures
        run_from((ProcState::Parsing(parse_state_of(dst)), buf, out), close) == Ok::<
            Config,
            SegmenterError,
        >((ProcState::NotParsing, Seq::<char>::empty(), out.push((dst, buf)))),
{
    let c: Config = (ProcState::Parsing(parse_state_of(dst)), buf, out);
    let t1 = backticks(1);
    let t2 = backticks(2);
    let t3 = backticks(3);
    assert(is_backticks(t1, 1) && is_backticks(t2, 2) && is_backticks(t3, 3));
    assert(closing_tail(t1, 1) && closing_tail(t2, 2));
    assert(t2[1] == '`');
    assert(!closing_tail(t2, 1));
    if close == seq![t3] {
        lemma_run_one(c, t3);
        assert(buf.subrange(0, buf.len() - 0) =~= buf);
    } else if close == seq![t2, t1] {
        lemma_run_two(c, t2, t1);
        let b2 = buf + t2;
        assert(ends_with_backticks(b2, 2));
        assert(b2.subrange(0, b2.len() - 2) =~= buf);
    } else if close == seq![t1, t2] {
        lemma_run_two(c, t1, t2);
        assert(!ends_with_backticks(buf, 2));
        let b2 = buf + t1;
        assert(ends_with_backticks(b2, 1));
        assert(b2.subrange(0, b2.len() - 1) =~= buf);
    } else {
        lemma_run_three(c, t1, t1, t1);
        assert(!ends_with_backticks(buf, 2));
        let b2 = buf + t1;
        assert(!ends_with_backticks(b2, 2)) by {
            if buf.len() > 0 {
                assert(b2[b2.len() - 2] == buf[buf.len() - 1]);
            }
        }
        let b3 = b2 + t1;
        assert(ends_with_backticks(b3, 2));
        assert(b3.subrange(0, b3.len() - 2) =~= buf);
    }
}

/// A block's content is its body, exactly: reading an opening fence, a
/// well-formed body and a closing fence, each fence split in any of the ways
/// the segmenter accepts, emits one segment bound for the block's kind whose
/// content is the concatenation of the body's tokens.
pub proof fn lemma_block_round_trip(
    open: Seq<Seq<char>>,
    body: Seq<Seq<char>>,
    close: Seq<Seq<char>>,
    dst: Dst,
)
    requires
        opening_split(open, dst),
        well_formed_body(body, close),
        closing_split(close),
    ensures
        run(open + body + close) == Ok::<Config, SegmenterError>(
            (ProcState::NotParsing, Seq::<char>::empty(), seq![(dst, flatten(body))]),
        ),
{
    let empty_out = Seq::<(Dst, Seq<char>)>::empty();
    let inside: Config = (ProcState::Parsing(parse_state_of(dst)), Seq::empty(), empty_out);
    lemma_run_concat(start(), open + body, close);
    lemma_run_concat(start(), open, body);
    lemma_opening(open, dst, empty_out);
    lemma_body(dst, empty_out, body);
    assert(Seq::<char>::empty() + flatten(body) =~= flatten(body));
    lemma_closing(dst, flatten(body), empty_out, close);
    assert(empty_out.push((dst, flatten(body))) =~= seq![(dst, flatten(body))]);
}

/// A well-formed speech block, with either fence split over tokens in any of
/// the ways the segmenter accepts, yields exactly one speech segment, and
/// its content holds none of the fence's characters: only the body's text.
pub proof fn lemma_speech_block(open: Seq<Seq<char>>, body: Seq<Seq<char>>, close: Seq<Seq<char>>)
    requires
        opening_split(open, Dst::Speech),
        well_formed_body(body, close),
        closing_split(close),
    ensures
        run(open + body + close) is Ok,
        run(open + body + close)->Ok_0.2.len() == 1,
        run(open + body + close)->Ok_0.2[0] == (Dst::Speech, flatten(body)),
        run(open + body + close)->Ok_0.0 == ProcState::NotParsing,
{
    lemma_block_round_trip(open, body, close, Dst::Speech);
}

/// Reading no tokens leaves the segmenter outside any block with an empty
/// buffer, having emitted nothing.
pub proof fn lemma_no_tokens()
    ensures
        run(Seq::empty()) == Ok::<Config, SegmenterError>(start()),
        start().0 == ProcState::NotParsing,
        start().1.len() == 0,
        start().2.len() == 0,
{
}

/// A block that is opened and never closed leaves the segmenter inside it,
/// with the body gathered in the buffer and no segment emitted.
pub proof fn lemma_unclosed_block(open: Seq<Seq<char>>, body: Seq<Seq<char>>, dst: Dst)
    requires
        opening_split(open, dst),
        body_stays_open(body),
    ensures
        run(open + body) == Ok::<Config, SegmenterError>(
            (ProcState::Parsing(parse_state_of(dst)), flatten(body), Seq::empty()),
        ),
        run(open + body)->Ok_0.0 != ProcState::NotParsing,
{
    let empty_out = Seq::<(Dst, Seq<char>)>::empty();
    lemma_run_concat(start(), open, body);
    lemma_opening(open, dst, empty_out);
    lemma_body(dst, empty_out, body);
    assert(Seq::<char>::empty() + flatten(body) =~= flatten(body));
}

/// Outside any block, a token that is neither one to three bare backticks
/// nor an opening fence with a known tag is a malformed fence.
pub proof fn lemma_unrecognized_opening(c: Config, t: Seq<char>)
    requires
        c.0 == ProcState::NotParsing,
        !is_backticks(t, 1),
        !is_backticks(t, 2),
        !is_backticks(t, 3),
        !begins_with(t, 3, speech_tag()),
        !begins_with(t, 3, json_tag()),
    ensures
        step(c.0, c.1, t) == Err::<(ProcState, Event), SegmenterError>(
            SegmenterError::MalformedFence,
        ),
        feed(c, t) == Err::<Config, SegmenterError>(SegmenterError::MalformedFence),
{
}

/// Every token keeps the segmenter's invariant: the buffer holds characters
/// only inside a speech or action block.
pub proof fn lemma_feed_keeps_well_formed(c: Config, t: Seq<char>)
    requires
        well_formed(c.0, c.1),
        feed(c, t) is Ok,
    ensures
        well_formed(feed(c, t)->Ok_0.0, feed(c, t)->Ok_0.1),
{
}

/// A token emits at most one segment and keeps those emitted before. It
/// emits one exactly when it takes the segmenter from inside a block to
/// outside any block, and outside any block the buffer is empty.
pub proof fn lemma_emission_iff_block_ends(c: Config, t: Seq<char>)
    requires
        well_formed(c.0, c.1),
        feed(c, t) is Ok,
    ensures
        feed(c, t)->Ok_0.2.len() == c.2.len() || feed(c, t)->Ok_0.2.len() == c.2.len() + 1,
        feed(c, t)->Ok_0.2.subrange(0, c.2.len() as int) == c.2,
        feed(c, t)->Ok_0.2.len() == c.2.len() + 1 <==> (c.0 != ProcState::NotParsing && feed(
            c,
            t,
        )->Ok_0.0 == ProcState::NotParsing),
        feed(c, t)->Ok_0.0 == ProcState::NotParsing ==> feed(c, t)->Ok_0.1.len() == 0,
{
    let c2 = feed(c, t)->Ok_0;
    if c2.2.len() == c.2.len() {
        assert(c2.2 == c.2);
        assert(c2.2.subrange(0, c.2.len() as int) =~= c.2);
    } else {
        assert(c2.2.subrange(0, c.2.len() as int) =~= c.2);
    }
}

/// The invariant holds after any run that did not fail.
pub proof fn lemma_run_well_formed(tokens: Seq<Seq<char>>)
    requires
        run(tokens) is Ok,
    ensures
        well_formed(run(tokens)->Ok_0.0, run(tokens)->Ok_0.1),
    decreases tokens.len(),
{
    if tokens.len() > 0 {
        let rest = tokens.drop_last();
        assert(run(rest) is Ok);
        lemma_run_well_formed(rest);
        lemma_feed_keeps_well_formed(run(rest)->Ok_0, tokens.last());
    }
}

} // verus!
