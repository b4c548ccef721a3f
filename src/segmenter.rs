//! The streaming response segmenter: a finite-state machine that reads a
//! language model's output token by token and cuts it into speech and action
//! segments delimited by fenced markers (three backticks and a tag to open,
//! three backticks to close), however the fences are split across tokens.

use vstd::prelude::*;
use crate::coordinator::Status;
use crate::blocks::lemma_run_concat;
use crate::text::{chars_of, string_from_chars};

verus! {

/// What the segmenter knows about the block it is inside.
#[derive(Clone, Copy, Debug, PartialEq, Eq, Structural)]
pub enum ParseState {
    Speech,
    Actions,
    /// Some backticks of an opening fence were read; its tag was not.
    Unknown { num_backticks: u8 },
}

#[derive(Clone, Copy, Debug, PartialEq, Eq, Structural)]
pub enum ProcState {
    Parsing(ParseState),
    NotParsing,
}

/// Where a finished segment goes.
#[derive(Clone, Copy, Debug, PartialEq, Eq, Structural)]
pub enum Dst {
    Speech,
    Actions,
}

/// What to do with the buffer after a token.
#[derive(Clone, Copy, Debug, PartialEq, Eq, Structural)]
pub enum Event {
    DoNothing,
    AddToBuffer,
    /// Emit the buffer, without its last `pop` characters, to `dst`, and clear it.
    Push { dst: Dst, pop: usize },
}

#[derive(Clone, Copy, Debug, PartialEq, Eq, Structural)]
pub enum SegmenterError {
    /// The token cannot follow what was read so far under the fence grammar.
    MalformedFence,
}

/// One fully delimited block of output.
#[derive(Debug)]
pub struct Segment {
    pub kind: Dst,
    pub content: String,
}

pub open spec fn speech_tag() -> Seq<char> {
    seq!['s', 'p', 'e', 'e', 'c', 'h']
}

pub open spec fn json_tag() -> Seq<char> {
    seq!['j', 's', 'o', 'n']
}

/// `n` backticks.
pub open spec fn backticks(n: nat) -> Seq<char> {
    Seq::new(n, |_i: int| '`')
}

/// `t` is exactly `n` backticks.
pub open spec fn is_backticks(t: Seq<char>, n: nat) -> bool {
    t.len() == n && forall|i: int| 0 <= i < n ==> t[i] == '`'
}

/// `t` begins with `k` backticks directly followed by `tag`.
pub open spec fn begins_with(t: Seq<char>, k: nat, tag: Seq<char>) -> bool {
    &&& t.len() >= k + tag.len()
    &&& forall|i: int| 0 <= i < k ==> t[i] == '`'
    &&& forall|i: int| 0 <= i < tag.len() ==> t[k + i] == tag[i]
}

/// `t` is exactly `k` backticks followed by `tag`.
pub open spec fn is_fence(t: Seq<char>, k: nat, tag: Seq<char>) -> bool {
    begins_with(t, k, tag) && t.len() == k + tag.len()
}

/// `t` is `n` backticks followed by at most two newlines.
pub open spec fn closing_tail(t: Seq<char>, n: nat) -> bool {
    &&& n <= t.len() <= n + 2
    &&& forall|i: int| 0 <= i < n ==> t[i] == '`'
    &&& forall|i: int| n <= i < t.len() ==> t[i] == '\n'
}

/// The last `m` characters of `s` are backticks.
pub open spec fn ends_with_backticks(s: Seq<char>, m: nat) -> bool {
    s.len() >= m && forall|i: int| s.len() - m <= i < s.len() ==> s[i] == '`'
}

pub open spec fn parse_state_of(dst: Dst) -> ParseState {
    match dst {
        Dst::Speech => ParseState::Speech,
        Dst::Actions => ParseState::Actions,
    }
}

/// A token read outside any block.
pub open spec fn opening_step(t: Seq<char>) -> Result<ProcState, SegmenterError> {
    if is_backticks(t, 1) {
        Ok(ProcState::Parsing(ParseState::Unknown { num_backticks: 1 }))
    } else if is_backticks(t, 2) {
        Ok(ProcState::Parsing(ParseState::Unknown { num_backticks: 2 }))
    } else if is_backticks(t, 3) {
        Ok(ProcState::Parsing(ParseState::Unknown { num_backticks: 3 }))
    } else if begins_with(t, 3, speech_tag()) {
        Ok(ProcState::Parsing(ParseState::Speech))
    } else if begins_with(t, 3, json_tag()) {
        Ok(ProcState::Parsing(ParseState::Actions))
    } else {
        Err(SegmenterError::MalformedFence)
    }
}

/// A token read after `n` backticks of an opening fence: it must bring the
/// count to three, with or without the tag, or be a whole opening fence of
/// its own, which then opens the block.
pub open spec fn resolving_step(n: u8, t: Seq<char>) -> Result<ProcState, SegmenterError> {
    if n < 1 || n > 3 {
        Err(SegmenterError::MalformedFence)
    } else {
        let rest = (3 - n) as nat;
        if n < 3 && is_backticks(t, rest) {
            Ok(ProcState::Parsing(ParseState::Unknown { num_backticks: 3 }))
        } else if is_fence(t, rest, speech_tag()) {
            Ok(ProcState::Parsing(ParseState::Speech))
        } else if is_fence(t, rest, json_tag()) {
            Ok(ProcState::Parsing(ParseState::Actions))
        } else if begins_with(t, 3, speech_tag()) {
            Ok(ProcState::Parsing(ParseState::Speech))
        } else if begins_with(t, 3, json_tag()) {
            Ok(ProcState::Parsing(ParseState::Actions))
        } else {
            Err(SegmenterError::MalformedFence)
        }
    }
}

/// A token read inside a block bound for `dst`, whose content so far is `buf`.
/// A closing fence may be split: a two-backtick token ends the block when the
/// buffer ends with one backtick, a one-backtick token when it ends with two.
pub open spec fn block_step(dst: Dst, buf: Seq<char>, t: Seq<char>) -> (ProcState, Event) {
    if is_backticks(t, 3) {
        (ProcState::NotParsing, Event::Push { dst, pop: 0 })
    } else if closing_tail(t, 2) && ends_with_backticks(buf, 1) {
        (ProcState::NotParsing, Event::Push { dst, pop: 1 })
    } else if closing_tail(t, 1) && ends_with_backticks(buf, 2) {
        (ProcState::NotParsing, Event::Push { dst, pop: 2 })
    } else {
        (ProcState::Parsing(parse_state_of(dst)), Event::AddToBuffer)
    }
}

/// The transition table: next state and effect for a token.
pub open spec fn step(state: ProcState, buf: Seq<char>, t: Seq<char>) -> Result<
    (ProcState, Event),
    SegmenterError,
> {
    match state {
        ProcState::NotParsing => match opening_step(t) {
            Ok(next) => Ok((next, Event::DoNothing)),
            Err(e) => Err(e),
        },
        ProcState::Parsing(ParseState::Unknown { num_backticks }) => match resolving_step(
            num_backticks,
            t,
        ) {
            Ok(next) => Ok((next, Event::DoNothing)),
            Err(e) => Err(e),
        },
        ProcState::Parsing(ParseState::Speech) => Ok(block_step(Dst::Speech, buf, t)),
        ProcState::Parsing(ParseState::Actions) => Ok(block_step(Dst::Actions, buf, t)),
    }
}

fn speech_chars() -> (r: Vec<char>)
    ensures
        r@ == speech_tag(),
{
    let r = vec!['s', 'p', 'e', 'e', 'c', 'h'];
    assert(r@ =~= speech_tag());
    r
}

fn json_chars() -> (r: Vec<char>)
    ensures
        r@ == json_tag(),
{
    let r = vec!['j', 's', 'o', 'n'];
    assert(r@ =~= json_tag());
    r
}

fn begins_with_fence(t: &[char], k: usize, tag: &[char]) -> (r: bool)
    ensures
        r == begins_with(t@, k as nat, tag@),
{
    if t.len() < k || t.len() - k < tag.len() {
        return false;
    }
    let mut i: usize = 0;
    while i < k
        invariant
            i <= k,
            k + tag@.len() <= t@.len(),
            forall|j: int| 0 <= j < i ==> t@[j] == '`',
        decreases k - i,
    {
        if t[i] != '`' {
            return false;
        }
        i = i + 1;
    }
    let len = t.len();
    let mut j: usize = 0;
    while j < tag.len()
        invariant
            len == t@.len(),
            j <= tag@.len(),
            k + tag@.len() <= t@.len(),
            forall|m: int| 0 <= m < k ==> t@[m] == '`',
            forall|m: int| 0 <= m < j ==> t@[k + m] == tag@[m],
        decreases tag.len() - j,
    {
        if t[k + j] != tag[j] {
            return false;
        }
        j = j + 1;
    }
    true
}

fn backticks_exactly(t: &[char], n: usize) -> (r: bool)
    ensures
        r == is_backticks(t@, n as nat),
{
    t.len() == n && begins_with_fence(t, n, &[])
}

fn fence_exactly(t: &[char], k: usize, tag: &[char]) -> (r: bool)
    requires
        k + tag@.len() <= usize::MAX,
    ensures
        r == is_fence(t@, k as nat, tag@),
{
    t.len() == k + tag.len() && begins_with_fence(t, k, tag)
}

fn is_closing_tail(t: &[char], n: usize) -> (r: bool)
    requires
        n <= 3,
    ensures
        r == closing_tail(t@, n as nat),
{
    if t.len() < n || t.len() > n + 2 {
        return false;
    }
    let mut i: usize = 0;
    while i < t.len()
        invariant
            n <= t@.len() <= n + 2,
            i <= t@.len(),
            forall|j: int| 0 <= j < i && j < n ==> t@[j] == '`',
            forall|j: int| n <= j < i ==> t@[j] == '\n',
        decreases t.len() - i,
    {
        if i < n {
            if t[i] != '`' {
                return false;
            }
        } else if t[i] != '\n' {
            return false;
        }
        i = i + 1;
    }
    true
}

fn buffer_ends_with_backticks(s: &[char], m: usize) -> (r: bool)
    ensures
        r == ends_with_backticks(s@, m as nat),
{
    if s.len() < m {
        return false;
    }
    let mut i: usize = s.len() - m;
    while i < s.len()
        invariant
            m <= s@.len(),
            s@.len() - m <= i <= s@.len(),
            forall|j: int| s@.len() - m <= j < i ==> s@[j] == '`',
        decreases s.len() - i,
    {
        if s[i] != '`' {
            return false;
        }
        i = i + 1;
    }
    true
}

fn block_transition(dst: Dst, buf: &[char], t: &[char]) -> (r: (ProcState, Event))
    ensures
        r == block_step(dst, buf@, t@),
{
    if backticks_exactly(t, 3) {
        (ProcState::NotParsing, Event::Push { dst, pop: 0 })
    } else if is_closing_tail(t, 2) && buffer_ends_with_backticks(buf, 1) {
        (ProcState::NotParsing, Event::Push { dst, pop: 1 })
    } else if is_closing_tail(t, 1) && buffer_ends_with_backticks(buf, 2) {
        (ProcState::NotParsing, Event::Push { dst, pop: 2 })
    } else {
        let parse = match dst {
            Dst::Speech => ParseState::Speech,
            Dst::Actions => ParseState::Actions,
        };
        (ProcState::Parsing(parse), Event::AddToBuffer)
    }
}

/// Next state and effect for `token`, read in `current_state` with
/// `current_buffer` gathered so far: the transition table `step`.
pub fn transition(current_state: ProcState, current_buffer: &[char], token: &str) -> (r: Result<
    (ProcState, Event),
    SegmenterError,
>)
    ensures
        r == step(current_state, current_buffer@, token@),
{
    let chars = chars_of(token);
    transition_chars(current_state, current_buffer, chars.as_slice())
}

fn transition_chars(current_state: ProcState, current_buffer: &[char], t: &[char]) -> (r: Result<
    (ProcState, Event),
    SegmenterError,
>)
    ensures
        r == step(current_state, current_buffer@, t@),
{
    let speech = speech_chars();
    let json = json_chars();
    match current_state {
        ProcState::NotParsing => {
            if backticks_exactly(t, 1) {
                Ok((ProcState::Parsing(ParseState::Unknown { num_backticks: 1 }), Event::DoNothing))
            } else if backticks_exactly(t, 2) {
                Ok((ProcState::Parsing(ParseState::Unknown { num_backticks: 2 }), Event::DoNothing))
            } else if backticks_exactly(t, 3) {
                Ok((ProcState::Parsing(ParseState::Unknown { num_backticks: 3 }), Event::DoNothing))
            } else if begins_with_fence(t, 3, speech.as_slice()) {
                Ok((ProcState::Parsing(ParseState::Speech), Event::DoNothing))
            } else if begins_with_fence(t, 3, json.as_slice()) {
                Ok((ProcState::Parsing(ParseState::Actions), Event::DoNothing))
            } else {
                Err(SegmenterError::MalformedFence)
            }
        },
        ProcState::Parsing(ParseState::Unknown { num_backticks }) => {
            if num_backticks < 1 || num_backticks > 3 {
                return Err(SegmenterError::MalformedFence);
            }
            let rest = (3 - num_backticks) as usize;
            if num_backticks < 3 && backticks_exactly(t, rest) {
                Ok((ProcState::Parsing(ParseState::Unknown { num_backticks: 3 }), Event::DoNothing))
            } else if fence_exactly(t, rest, speech.as_slice()) {
                Ok((ProcState::Parsing(ParseState::Speech), Event::DoNothing))
            } else if fence_exactly(t, rest, json.as_slice()) {
                Ok((ProcState::Parsing(ParseState::Actions), Event::DoNothing))
            } else if begins_with_fence(t, 3, speech.as_slice()) {
                Ok((ProcState::Parsing(ParseState::Speech), Event::DoNothing))
            } else if begins_with_fence(t, 3, json.as_slice()) {
                Ok((ProcState::Parsing(ParseState::Actions), Event::DoNothing))
            } else {
                Err(SegmenterError::MalformedFence)
            }
        },
        ProcState::Parsing(ParseState::Speech) => Ok(block_transition(Dst::Speech, current_buffer, t)),
        ProcState::Parsing(ParseState::Actions) => Ok(
            block_transition(Dst::Actions, current_buffer, t),
        ),
    }
}

/// The segmenter as a mathematical value: state, buffer, and the segments
/// emitted so far, each with its destination and content.
pub type Config = (ProcState, Seq<char>, Seq<(Dst, Seq<char>)>);

/// The state in which the segmenter starts: outside any block, nothing read.
pub open spec fn start() -> Config {
    (ProcState::NotParsing, Seq::empty(), Seq::empty())
}

/// The invariant of the segmenter: the buffer holds characters only inside a
/// speech or action block, and a partial opening fence has one to three
/// backticks.
pub open spec fn well_formed(state: ProcState, buf: Seq<char>) -> bool {
    match state {
        ProcState::NotParsing => buf.len() == 0,
        ProcState::Parsing(ParseState::Unknown { num_backticks }) => 1 <= num_backticks <= 3
            && buf.len() == 0,
        _ => true,
    }
}

/// One token read in configuration `c`: the effect of `step` applied.
pub open spec fn feed(c: Config, t: Seq<char>) -> Result<Config, SegmenterError> {
    match step(c.0, c.1, t) {
        Err(e) => Err(e),
        Ok((next, ev)) => Ok(
            match ev {
                Event::DoNothing => (next, c.1, c.2),
                Event::AddToBuffer => (next, c.1 + t, c.2),
                Event::Push { dst, pop } => (
                    next,
                    Seq::empty(),
                    c.2.push((dst, c.1.subrange(0, c.1.len() - pop))),
                ),
            },
        ),
    }
}

/// The tokens read in order from configuration `c`; the first malformed token
/// ends the run with its error.
pub open spec fn run_from(c: Config, tokens: Seq<Seq<char>>) -> Result<Config, SegmenterError>
    decreases tokens.len(),
{
    if tokens.len() == 0 {
        Ok(c)
    } else {
        match run_from(c, tokens.drop_last()) {
            Err(e) => Err(e),
            Ok(c2) => feed(c2, tokens.last()),
        }
    }
}

/// The tokens read in order from the start.
pub open spec fn run(tokens: Seq<Seq<char>>) -> Result<Config, SegmenterError> {
    run_from(start(), tokens)
}

/// `out` is what a single call hands back when it emits `emitted`.
pub open spec fn emits(out: Option<Segment>, emitted: Seq<(Dst, Seq<char>)>) -> bool {
    match out {
        None => emitted.len() == 0,
        Some(seg) => emitted.len() == 1 && emitted[0] == (seg.kind, seg.content@),
    }
}

/// A segment as a mathematical value: destination and content.
pub open spec fn segment_view(s: Segment) -> (Dst, Seq<char>) {
    (s.kind, s.content@)
}

/// The tokens as character sequences.
pub open spec fn token_views(tokens: Seq<String>) -> Seq<Seq<char>> {
    tokens.map_values(|t: String| t@)
}

/// Reading a token after segments were emitted appends what it emits to them.
proof fn lemma_feed_appends(s: ProcState, b: Seq<char>, o: Seq<(Dst, Seq<char>)>, t: Seq<char>)
    ensures
        feed((s, b, o), t) == match feed((s, b, Seq::empty()), t) {
            Err(e) => Err(e),
            Ok(c) => Ok::<Config, SegmenterError>((c.0, c.1, o + c.2)),
        },
{
    match feed((s, b, Seq::empty()), t) {
        Err(_) => {},
        Ok(c) => {
            if c.2.len() == 0 {
                assert(o + c.2 =~= o);
            } else {
                assert(o + c.2 =~= o.push(c.2[0]));
            }
        },
    }
}

/// The segmenter: current state and the content gathered for the open block.
pub struct TokenSegmenter {
    state: ProcState,
    buffer: Vec<char>,
}

impl View for TokenSegmenter {
    type V = (ProcState, Seq<char>);

    closed spec fn view(&self) -> (ProcState, Seq<char>) {
        (self.state, self.buffer@)
    }
}

impl TokenSegmenter {
    /// A segmenter outside any block, with an empty buffer.
    pub fn new() -> (r: Self)
        ensures
            r@ == (start().0, start().1),
            well_formed(r@.0, r@.1),
    {
        TokenSegmenter { state: ProcState::NotParsing, buffer: Vec::new() }
    }

    pub fn state(&self) -> (r: ProcState)
        ensures
            r == self@.0,
    {
        self.state
    }

    /// The content gathered so far for the open block.
    pub fn buffer(&self) -> (r: &[char])
        ensures
            r@ == self@.1,
    {
        self.buffer.as_slice()
    }

    /// Idle when no content is held back, busy while a block is being gathered.
    pub fn status(&self) -> (r: Status)
        ensures
            r == (if self@.1.len() == 0 {
                Status::Idle
            } else {
                Status::Busy
            }),
    {
        if self.buffer.len() == 0 {
            Status::Idle
        } else {
            Status::Busy
        }
    }

    /// Abandons the current response: back outside any block, buffer cleared.
    pub fn reset(&mut self)
        ensures
            final(self)@ == (start().0, start().1),
            well_formed(final(self)@.0, final(self)@.1),
    {
        self.state = ProcState::NotParsing;
        self.buffer.clear();
    }

    /// Reads one token. A token that closes a block returns that block as a
    /// segment; a token that the fence grammar refuses returns
    /// `MalformedFence` and leaves the segmenter as it was.
    pub fn handle(&mut self, token: &str) -> (r: Result<Option<Segment>, SegmenterError>)
        ensures
            well_formed(old(self)@.0, old(self)@.1) ==> well_formed(final(self)@.0, final(self)@.1),
            match feed((old(self)@.0, old(self)@.1, Seq::empty()), token@) {
                Err(e) => r == Err::<Option<Segment>, SegmenterError>(e) && final(self)@ == old(
                    self,
                )@,
                Ok(c) => final(self)@ == (c.0, c.1) && r is Ok && emits(r->Ok_0, c.2),
            },
    {
        let chars = chars_of(token);
        match transition_chars(self.state, self.buffer.as_slice(), chars.as_slice()) {
            Err(e) => Err(e),
            Ok((next, event)) => {
                match event {
                    Event::DoNothing => {
                        self.state = next;
                        Ok(None)
                    },
                    Event::AddToBuffer => {
                        self.buffer.extend_from_slice(chars.as_slice());
                        self.state = next;
                        Ok(None)
                    },
                    Event::Push { dst, pop } => {
                        let keep = self.buffer.len() - pop;
                        self.buffer.truncate(keep);
                        let content = string_from_chars(self.buffer.as_slice());
                        self.buffer.clear();
                        self.state = next;
                        Ok(Some(Segment { kind: dst, content }))
                    },
                }
            },
        }
    }

    /// Reads a whole response, token by token, and returns the segments it
    /// emits in order. The first token that the fence grammar refuses ends
    /// the reading with `MalformedFence` and abandons the response: the
    /// segmenter is then back outside any block with an empty buffer.
    pub fn handle_all(&mut self, tokens: &Vec<String>) -> (r: Result<Vec<Segment>, SegmenterError>)
        ensures
            match run_from((old(self)@.0, old(self)@.1, Seq::empty()), token_views(tokens@)) {
                Err(e) => r == Err::<Vec<Segment>, SegmenterError>(e) && final(self)@ == (
                    start().0,
                    start().1,
                ),
                Ok(c) => r is Ok && final(self)@ == (c.0, c.1) && r->Ok_0@.map_values(
                    |s: Segment| segment_view(s),
                ) == c.2,
            },
    {
        let ghost c0: Config = (self@.0, self@.1, Seq::empty());
        let ghost toks = token_views(tokens@);
        let mut out: Vec<Segment> = Vec::new();
        let mut i: usize = 0;
        proof {
            assert(toks.subrange(0, 0) =~= Seq::<Seq<char>>::empty());
            assert(out@.map_values(|s: Segment| segment_view(s)) =~= Seq::<(Dst, Seq<char>)>::empty());
        }
        while i < tokens.len()
            invariant
                i <= tokens@.len(),
                c0 == (old(self)@.0, old(self)@.1, Seq::<(Dst, Seq<char>)>::empty()),
                toks == token_views(tokens@),
                run_from(c0, toks.subrange(0, i as int)) == Ok::<Config, SegmenterError>(
                    (self@.0, self@.1, out@.map_values(|s: Segment| segment_view(s))),
                ),
            decreases tokens.len() - i,
        {
            let ghost before = toks.subrange(0, i as int);
            let ghost emitted = out@.map_values(|s: Segment| segment_view(s));
            let ghost t = toks[i as int];
            let ghost old_state = self@.0;
            let ghost old_buf = self@.1;
            proof {
                assert(toks.subrange(0, i + 1).drop_last() =~= before);
                assert(toks.subrange(0, i + 1).last() == t);
                assert(t == tokens@[i as int]@);
                lemma_feed_appends(self@.0, self@.1, emitted, t);
            }
            match self.handle(tokens[i].as_str()) {
                Err(e) => {
                    proof {
                        assert(feed((old_state, old_buf, emitted), t) == Err::<Config, SegmenterError>(e));
                        assert(run_from(c0, toks.subrange(0, i + 1)) == Err::<Config, SegmenterError>(e));
                        assert(toks =~= toks.subrange(0, i + 1) + toks.subrange(i + 1, toks.len() as int));
                        lemma_run_concat(c0, toks.subrange(0, i + 1), toks.subrange(i + 1, toks.len() as int));
                    }
                    self.reset();
                    return Err(e);
                },
                Ok(None) => {},
                Ok(Some(seg)) => {
                    let ghost v = segment_view(seg);
                    out.push(seg);
                    proof {
                        assert(out@.map_values(|s: Segment| segment_view(s)) =~= emitted.push(v));
                    }
                },
            }
            i = i + 1;
        }
        proof {
            assert(toks.subrange(0, tokens@.len() as int) =~= toks);
        }
        Ok(out)
    }
}

/// The segmenter over one response at a time: after a malformed fence the
/// rest of that response is skipped, and the next response is read afresh.
pub struct ResponseSegmenter {
    segmenter: TokenSegmenter,
    aborted: bool,
}

impl View for ResponseSegmenter {
    /// State, buffer, and whether the current response was abandoned.
    type V = (ProcState, Seq<char>, bool);

    closed spec fn view(&self) -> (ProcState, Seq<char>, bool) {
        (self.segmenter@.0, self.segmenter@.1, self.aborted)
    }
}

impl ResponseSegmenter {
    pub fn new() -> (r: Self)
        ensures
            r@ == (start().0, start().1, false),
    {
        ResponseSegmenter { segmenter: TokenSegmenter::new(), aborted: false }
    }

    /// Reads one token of the current response. Once the response was
    /// abandoned its tokens are skipped. A malformed fence returns
    /// `MalformedFence` and abandons the response: the segmenter goes back
    /// outside any block with an empty buffer.
    pub fn read(&mut self, token: &str) -> (r: Result<Option<Segment>, SegmenterError>)
        ensures
            old(self)@.2 ==> (r matches Ok(None) && final(self)@ == old(self)@),
            !old(self)@.2 ==> match feed((old(self)@.0, old(self)@.1, Seq::empty()), token@) {
                Err(e) => r == Err::<Option<Segment>, SegmenterError>(e) && final(self)@ == (
                    start().0,
                    start().1,
                    true,
                ),
                Ok(c) => final(self)@ == (c.0, c.1, false) && r is Ok && emits(r->Ok_0, c.2),
            },
    {
        if self.aborted {
            return Ok(None);
        }
        match self.segmenter.handle(token) {
            Err(e) => {
                self.segmenter.reset();
                self.aborted = true;
                Err(e)
            },
            Ok(out) => Ok(out),
        }
    }

    /// Marks the end of the current response: the next token starts a new
    /// one. A block left open stays open.
    pub fn end_response(&mut self)
        ensures
            final(self)@ == (old(self)@.0, old(self)@.1, false),
    {
        self.aborted = false;
    }

    pub fn state(&self) -> (r: ProcState)
        ensures
            r == self@.0,
    {
        self.segmenter.state()
    }

    /// Idle when no content is held back, busy while a block is being gathered.
    pub fn status(&self) -> (r: Status)
        ensures
            r == (if self@.1.len() == 0 {
                Status::Idle
            } else {
                Status::Busy
            }),
    {
        self.segmenter.status()
    }
}

} // verus!
