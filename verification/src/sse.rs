//! Server-sent events to frames.
//!
//! A response is a text of lines. A line `data: {json}` carries a chunk, the line `data: [DONE]`
//! ends the response, any other line is passed over. [`SseState`] takes the text in pieces as
//! they arrive and hands out the frames that report it.

use crate::calls::{acc_models, add_calls, drain_tool_calls, finished_calls, ToolAcc, ToolAccModel};
use crate::chunk::{accumulate, chunk_calls, chunk_text, chunk_usage, usage_in};
use crate::frame::{frame_models, Frame, FrameModel, LlmTokenUsage, MetricsData, MetricsModel};
use crate::json::{no_key_twice, Json, JsonModel};
use crate::parse::{parse_json, parsed_json};
use crate::text::{
    all_white_space, find_char, from_utf8_lossy, is_white_space, law_trimmed,
    law_trimmed_ignores_padding, law_trimmed_leaves_the_rest, lemma_trimmed_end_behind,
    lemma_trimmed_of_trimmed_end, lemma_trimmed_start_prepend, lossy_text, str_eq, strip_prefix,
    trim, trimmed, trimmed_end, trimmed_start,
};
use std::collections::{BTreeMap, VecDeque};
use vstd::prelude::*;
use vstd::utf8::{decode_utf8, valid_utf8};

verus! {

/// One line of the response.
#[derive(Debug, PartialEq)]
pub enum SseEvent {
    /// A `data: {json}` line.
    Chunk(Json),
    /// The terminal `data: [DONE]`.
    Done,
    /// A blank line, a comment or an unrelated line.
    Ignored,
}

/// The model of an [`SseEvent`].
pub enum EventModel {
    Chunk(JsonModel),
    Done,
    Ignored,
}

impl View for SseEvent {
    type V = EventModel;

    open spec fn view(&self) -> EventModel {
        match *self {
            SseEvent::Chunk(chunk) => EventModel::Chunk(chunk@),
            SseEvent::Done => EventModel::Done,
            SseEvent::Ignored => EventModel::Ignored,
        }
    }
}

/// What a line carries after `data:`, without white space around it; `None` for a line that does
/// not start with `data:`.
pub open spec fn line_data(line: Seq<char>) -> Option<Seq<char>> {
    let content = trimmed(line);
    if "data:"@.is_prefix_of(content) {
        Some(trimmed(content.skip("data:"@.len() as int)))
    } else {
        None
    }
}

/// The event of a data line whose content was read as `parsed`: content that is no JSON is passed
/// over.
pub open spec fn data_event(parsed: Option<JsonModel>) -> EventModel {
    match parsed {
        Some(chunk) => EventModel::Chunk(chunk),
        None => EventModel::Ignored,
    }
}

/// The event that a line stands for.
pub open spec fn line_event(line: Seq<char>) -> EventModel {
    match line_data(line) {
        Some(data) => if data == "[DONE]"@ {
            EventModel::Done
        } else {
            data_event(parsed_json(data))
        },
        None => EventModel::Ignored,
    }
}

/// What `line` carries after `data:`, without white space around it.
pub fn sse_data(line: &str) -> (r: Option<&str>)
    ensures
        match r {
            Some(data) => line_data(line@) == Some(data@),
            None => line_data(line@) is None,
        },
{
    match strip_prefix(trim(line), "data:") {
        Some(rest) => Some(trim(rest)),
        None => None,
    }
}

/// The event of a data line whose content was read as `parsed`.
pub fn sse_data_event(parsed: Option<Json>) -> (r: SseEvent)
    ensures
        r@ == data_event(
            match parsed {
                Some(j) => Some(j@),
                None => None,
            },
        ),
{
    match parsed {
        Some(chunk) => SseEvent::Chunk(chunk),
        None => SseEvent::Ignored,
    }
}

/// Reads one line of the response.
pub fn parse_sse_line(line: &str) -> (r: SseEvent)
    ensures
        r@ == line_event(line@),
        r@ matches EventModel::Chunk(chunk) ==> no_key_twice(chunk),
{
    match sse_data(line) {
        Some(data) => if str_eq(data, "[DONE]") {
            SseEvent::Done
        } else {
            sse_data_event(parse_json(data))
        },
        None => SseEvent::Ignored,
    }
}

/// The state carried along a response.
#[derive(Debug)]
pub struct SseState {
    /// The text after the last complete line.
    buf: String,
    /// Whether the response has begun.
    started: bool,
    /// Whether the response is over.
    finished: bool,
    /// The frames that wait to be handed out.
    pending: VecDeque<Frame>,
    /// The function calls under assembly.
    tool_acc: BTreeMap<u64, ToolAcc>,
    /// The model's name, which goes into the usage metric.
    model: String,
    /// The token usage that has been reported.
    usage: Option<LlmTokenUsage>,
}

/// The model of an [`SseState`].
pub struct SseModel {
    pub buf: Seq<char>,
    pub started: bool,
    pub finished: bool,
    pub pending: Seq<FrameModel>,
    pub tool_acc: Map<u64, ToolAccModel>,
    pub model: Seq<char>,
    pub usage: Option<LlmTokenUsage>,
}

impl View for SseState {
    type V = SseModel;

    closed spec fn view(&self) -> SseModel {
        SseModel {
            buf: self.buf@,
            started: self.started,
            finished: self.finished,
            pending: frame_models(self.pending@),
            tool_acc: acc_models(self.tool_acc@),
            model: self.model@,
            usage: self.usage,
        }
    }
}

/// The state before any text has arrived.
pub open spec fn initial_state(model: Seq<char>) -> SseModel {
    SseModel {
        buf: Seq::empty(),
        started: false,
        finished: false,
        pending: Seq::empty(),
        tool_acc: Map::empty(),
        model,
        usage: None,
    }
}

/// The frame that opens a response, where it has not been opened.
pub open spec fn opening(started: bool) -> Seq<FrameModel> {
    if started {
        Seq::empty()
    } else {
        seq![FrameModel::LlmResponseStart]
    }
}

/// The frame that reports the assembled calls, where there are any.
pub open spec fn calls_report(acc: Map<u64, ToolAccModel>) -> Seq<FrameModel> {
    if acc.is_empty() {
        Seq::empty()
    } else {
        seq![FrameModel::FunctionCallsStarted(finished_calls(acc))]
    }
}

/// The frame that reports the token usage, where there is one.
pub open spec fn usage_report(model: Seq<char>, usage: Option<LlmTokenUsage>) -> Seq<FrameModel> {
    match usage {
        Some(tokens) => seq![
            FrameModel::Metrics(
                seq![MetricsModel::LlmUsage { processor: "openai"@, model: Some(model), tokens }],
            ),
        ],
        None => Seq::empty(),
    }
}

/// `st` after the response has ended: the closing frames are added, once.
pub open spec fn after_finish(st: SseModel) -> SseModel {
    if st.finished {
        st
    } else {
        SseModel {
            started: true,
            finished: true,
            pending: st.pending + opening(st.started) + calls_report(st.tool_acc) + usage_report(
                st.model,
                st.usage,
            ) + seq![FrameModel::LlmResponseEnd],
            tool_acc: Map::empty(),
            usage: None,
            ..st
        }
    }
}

/// `st` after an event. The end of the response is final: nothing that follows it counts.
pub open spec fn after_event(st: SseModel, event: EventModel) -> SseModel {
    match event {
        EventModel::Chunk(chunk) => if st.finished {
            st
        } else {
            SseModel {
                started: true,
                pending: st.pending + opening(st.started) + chunk_text(chunk),
                tool_acc: add_calls(st.tool_acc, chunk_calls(chunk)),
                usage: match chunk_usage(chunk) {
                    Some(usage) => Some(usage),
                    None => st.usage,
                },
                ..st
            }
        },
        EventModel::Done => after_finish(st),
        EventModel::Ignored => st,
    }
}

/// The length of the first line of `s`: the position of its first line feed, or the length of `s`
/// where there is none.
pub open spec fn line_len(s: Seq<char>) -> nat
    decreases s.len(),
{
    if s.len() == 0 || s[0] == '\n' {
        0
    } else {
        1 + line_len(s.drop_first())
    }
}

/// `st` after the complete lines in its text, in their order.
pub open spec fn after_lines(st: SseModel) -> SseModel
    decreases st.buf.len(),
{
    let n = line_len(st.buf) as int;
    if n < st.buf.len() {
        let rest = SseModel { buf: st.buf.skip(n + 1), ..st };
        after_lines(after_event(rest, line_event(st.buf.take(n))))
    } else {
        st
    }
}

/// `st` after more text has arrived.
pub open spec fn after_text(st: SseModel, text: Seq<char>) -> SseModel {
    after_lines(SseModel { buf: st.buf + text, ..st })
}

/// What is to be done next.
#[derive(Debug, PartialEq)]
pub enum SseStep {
    /// Hand this frame out.
    Emit(Frame),
    /// Read more of the response.
    Read,
    /// Stop: every frame has been handed out.
    End,
}

/// `line_len` is told by the first line feed.
pub proof fn lemma_line_len(s: Seq<char>, n: int)
    requires
        0 <= n <= s.len(),
        forall|j: int| 0 <= j < n ==> s[j] != '\n',
        n < s.len() ==> s[n] == '\n',
    ensures
        line_len(s) == n,
    decreases s.len(),
{
    if n > 0 {
        lemma_line_len(s.drop_first(), n - 1);
    }
}

/// White space round a line does not count, so lines may end in CR LF as well as in LF.
pub proof fn law_line_padding(before: Seq<char>, line: Seq<char>, behind: Seq<char>)
    requires
        all_white_space(before),
        all_white_space(behind),
    ensures
        line_event(before + line + behind) == line_event(line),
{
    law_trimmed_ignores_padding(before, line, behind);
}

/// A line that starts with `data:`, behind white space or not, carries the rest of it, trimmed.
proof fn lemma_line_data(before: Seq<char>, rest: Seq<char>)
    requires
        all_white_space(before),
    ensures
        line_data(before + "data:"@ + rest) == Some(trimmed(rest)),
{
    reveal_strlit("data:");
    let content = "data:"@ + rest;
    assert(before + "data:"@ + rest =~= before + content);
    lemma_trimmed_start_prepend(before, content);
    assert(content[0] == 'd');
    assert(trimmed_start(content) == content);
    lemma_trimmed_end_behind("data:"@, rest);
    let kept = "data:"@ + trimmed_end(rest);
    assert(trimmed(before + content) == kept);
    assert("data:"@.is_prefix_of(kept));
    assert(kept.skip("data:"@.len() as int) =~= trimmed_end(rest));
    lemma_trimmed_of_trimmed_end(rest);
}

/// White space does not count in a data line, be it before `data:`, between `data:` and the
/// payload, or behind the payload.
pub proof fn law_data_padding(
    before: Seq<char>,
    gap: Seq<char>,
    payload: Seq<char>,
    behind: Seq<char>,
)
    requires
        all_white_space(before),
        all_white_space(gap),
        all_white_space(behind),
    ensures
        line_event(before + "data:"@ + gap + payload + behind) == line_event("data:"@ + payload),
{
    assert(before + "data:"@ + gap + payload + behind =~= before + "data:"@ + (gap + payload
        + behind));
    lemma_line_data(before, gap + payload + behind);
    law_trimmed_ignores_padding(gap, payload, behind);
    lemma_line_data(Seq::empty(), payload);
    assert(Seq::<char>::empty() + "data:"@ + payload =~= "data:"@ + payload);
}

/// The frames that close a response are added once: ending it again changes nothing.
pub proof fn law_finish_once(st: SseModel)
    ensures
        after_finish(after_finish(st)) == after_finish(st),
        after_finish(st).finished,
{
}

impl SseState {
    /// The state before any text of a response of `model` has arrived.
    pub fn new(model: String) -> (r: SseState)
        ensures
            r@ == initial_state(model@),
    {
        let r = SseState {
            buf: String::new(),
            started: false,
            finished: false,
            pending: VecDeque::new(),
            tool_acc: BTreeMap::new(),
            model,
            usage: None,
        };
        assert(r@.pending =~= Seq::<FrameModel>::empty());
        assert(r@.tool_acc =~= Map::<u64, ToolAccModel>::empty());
        r
    }

    /// Opens the response, where it has not been opened.
    fn open(&mut self)
        ensures
            final(self)@ == (SseModel {
                started: true,
                pending: old(self)@.pending + opening(old(self)@.started),
                ..old(self)@
            }),
    {
        if !self.started {
            self.started = true;
            self.pending.push_back(Frame::LlmResponseStart);
        }
        assert(self@.pending =~= old(self)@.pending + opening(old(self)@.started));
    }

    /// Ends the response: the frames that close it join the pending ones, once.
    pub fn finish(&mut self)
        ensures
            final(self)@ == after_finish(old(self)@),
    {
        if self.finished {
            return;
        }
        self.finished = true;
        self.open();
        let ghost opened = self@.pending;
        if let Some(frame) = drain_tool_calls(&mut self.tool_acc) {
            self.pending.push_back(frame);
        }
        let ghost called = self@.pending;
        assert(called =~= opened + calls_report(old(self)@.tool_acc));
        if let Some(tokens) = self.usage.take() {
            let mut items: Vec<MetricsData> = Vec::new();
            items.push(
                MetricsData::LlmUsage {
                    processor: "openai".to_owned(),
                    model: Some(self.model.clone()),
                    tokens,
                },
            );
            assert(items@.map_values(|m: MetricsData| m@) =~= seq![
                MetricsModel::LlmUsage {
                    processor: "openai"@,
                    model: Some(old(self)@.model),
                    tokens,
                },
            ]);
            self.pending.push_back(Frame::Metrics(items));
        }
        assert(self@.pending =~= called + usage_report(old(self)@.model, old(self)@.usage));
        let ghost metered = self@.pending;
        self.pending.push_back(Frame::LlmResponseEnd);
        assert(self@.pending =~= metered + seq![FrameModel::LlmResponseEnd]);
        assert(self@.tool_acc =~= Map::<u64, ToolAccModel>::empty());
    }

    /// Takes one event in.
    pub fn on_event(&mut self, event: SseEvent)
        ensures
            final(self)@ == after_event(old(self)@, event@),
    {
        match event {
            SseEvent::Ignored => {},
            SseEvent::Done => self.finish(),
            SseEvent::Chunk(chunk) => {
                if self.finished {
                    return;
                }
                self.open();
                if let Some(usage) = usage_in(&chunk) {
                    self.usage = Some(usage);
                }
                accumulate(&chunk, &mut self.tool_acc, &mut self.pending);
            },
        }
    }

    /// Takes more text in and works off the lines that it completes.
    pub fn feed_text(&mut self, text: &str)
        ensures
            final(self)@ == after_text(old(self)@, text@),
    {
        self.buf.append(text);
        let ghost fed = self@;
        loop
            invariant
                after_lines(self@) == after_lines(fed),
            ensures
                self@ == after_lines(fed),
            decreases self.buf@.len(),
        {
            let ghost before = self@;
            let n: usize = match find_char(self.buf.as_str(), '\n') {
                Some(n) => n,
                None => {
                    proof {
                        lemma_line_len(before.buf, before.buf.len() as int);
                    }
                    break;
                },
            };
            let len: usize = self.buf.as_str().unicode_len();
            let event = parse_sse_line(self.buf.as_str().substring_char(0, n));
            self.buf = self.buf.as_str().substring_char(n + 1, len).to_owned();
            proof {
                lemma_line_len(before.buf, n as int);
                assert(self@.buf =~= before.buf.skip(n + 1));
                assert(before.buf.subrange(0, n as int) =~= before.buf.take(n as int));
            }
            self.on_event(event);
        }
    }

    /// Takes more bytes in.
    pub fn feed(&mut self, bytes: &[u8])
        ensures
            final(self)@ == after_text(old(self)@, lossy_text(bytes@)),
            valid_utf8(bytes@) ==> final(self)@ == after_text(old(self)@, decode_utf8(bytes@)),
    {
        let text = from_utf8_lossy(bytes);
        self.feed_text(text.as_str());
    }

    /// Says what is to be done next; a frame that is to be handed out leaves the pending ones.
    pub fn next_step(&mut self) -> (r: SseStep)
        ensures
            match r {
                SseStep::Emit(frame) => old(self)@.pending.len() > 0 && frame@
                    == old(self)@.pending[0] && final(self)@ == (SseModel {
                    pending: old(self)@.pending.drop_first(),
                    ..old(self)@
                }),
                SseStep::Read => old(self)@.pending.len() == 0 && !old(self)@.finished
                    && final(self)@ == old(self)@,
                SseStep::End => old(self)@.pending.len() == 0 && old(self)@.finished
                    && final(self)@ == old(self)@,
            },
    {
        match self.pending.pop_front() {
            Some(frame) => {
                assert(self@.pending =~= old(self)@.pending.drop_first());
                SseStep::Emit(frame)
            },
            None => if self.finished {
                SseStep::End
            } else {
                SseStep::Read
            },
        }
    }
}

/// A line is `data:` and a payload, with white space round either or none. The payload `[DONE]`
/// ends the response. Any other payload that is JSON is a chunk, the value that it is read as,
/// whatever that holds; one that is no JSON is passed over.
pub proof fn law_data_line(
    before: Seq<char>,
    gap: Seq<char>,
    payload: Seq<char>,
    behind: Seq<char>,
)
    requires
        forall|i: int| 0 <= i < before.len() ==> is_white_space(#[trigger] before[i]),
        forall|i: int| 0 <= i < gap.len() ==> is_white_space(#[trigger] gap[i]),
        forall|i: int| 0 <= i < behind.len() ==> is_white_space(#[trigger] behind[i]),
        payload.len() > 0 ==> !is_white_space(payload[0]) && !is_white_space(payload.last()),
    ensures
        ({
            let line = before + "data:"@ + gap + payload + behind;
            &&& line_data(line) == Some(payload)
            &&& payload == "[DONE]"@ ==> line_event(line) == EventModel::Done
            &&& payload != "[DONE]"@ ==> (parsed_json(payload) matches Some(value) ==> line_event(
                line,
            ) == EventModel::Chunk(value))
            &&& payload != "[DONE]"@ && parsed_json(payload) is None ==> line_event(line)
                == EventModel::Ignored
        }),
{
    let line = before + "data:"@ + gap + payload + behind;
    assert(line =~= before + "data:"@ + (gap + payload + behind));
    lemma_line_data(before, gap + payload + behind);
    law_trimmed_ignores_padding(gap, payload, behind);
    law_trimmed_leaves_the_rest(payload);
}

/// No other line counts. One that carries data, ends the response or is a chunk consists of white
/// space, `data:`, white space, the payload and white space, in this order; the payload of the
/// line that ends the response is `[DONE]`, and that of a chunk is another, which is read as the
/// chunk. These are the parts: what stands before, the gap, the payload, what stands behind.
pub proof fn law_only_data_lines_count(line: Seq<char>) -> (parts: (
    Seq<char>,
    Seq<char>,
    Seq<char>,
    Seq<char>,
))
    requires
        line_data(line) is Some || line_event(line) != EventModel::Ignored,
    ensures
        line == parts.0 + "data:"@ + parts.1 + parts.2 + parts.3,
        forall|i: int| 0 <= i < parts.0.len() ==> is_white_space(#[trigger] parts.0[i]),
        forall|i: int| 0 <= i < parts.1.len() ==> is_white_space(#[trigger] parts.1[i]),
        forall|i: int| 0 <= i < parts.3.len() ==> is_white_space(#[trigger] parts.3[i]),
        parts.2.len() > 0 ==> !is_white_space(parts.2[0]) && !is_white_space(parts.2.last()),
        line_data(line) == Some(parts.2),
        line_event(line) == EventModel::Done <==> parts.2 == "[DONE]"@,
        line_event(line) matches EventModel::Chunk(value) ==> parts.2 != "[DONE]"@ && parsed_json(
            parts.2,
        ) == Some(value),
{
    reveal_strlit("data:");
    let r = law_trimmed(line);
    let content = line.subrange(r.0, r.1);
    let rest = content.skip(5);
    let q = law_trimmed(rest);
    let before = line.take(r.0);
    let gap = rest.take(q.0);
    let payload = rest.subrange(q.0, q.1);
    let behind = rest.skip(q.1) + line.skip(r.1);
    assert("data:"@.len() == 5);
    assert(content =~= "data:"@ + rest) by {
        assert("data:"@ =~= content.take(5));
    }
    assert(rest =~= gap + payload + rest.skip(q.1));
    assert(line =~= before + content + line.skip(r.1));
    assert(line =~= before + "data:"@ + gap + payload + behind);
    assert forall|i: int| 0 <= i < behind.len() implies is_white_space(#[trigger] behind[i]) by {
        if i < rest.len() - q.1 {
            assert(behind[i] == rest[i + q.1]);
        } else {
            assert(behind[i] == line[i - (rest.len() - q.1) + r.1]);
        }
    }
    if payload.len() > 0 {
        assert(payload[0] == rest[q.0] && payload.last() == rest[q.1 - 1]);
    }
    (before, gap, payload, behind)
}

/// A payload that was read as a value is a chunk, that value, whatever it holds; one that was read
/// as none is passed over.
pub proof fn law_every_value_is_a_chunk(value: JsonModel)
    ensures
        data_event(Some(value)) == EventModel::Chunk(value),
        data_event(None) == EventModel::Ignored,
{
}

/// The model of an event tells its kind and holds its chunk.
pub proof fn law_model_keeps_the_event(event: SseEvent)
    ensures
        match event {
            SseEvent::Chunk(chunk) => event@ == EventModel::Chunk(chunk@),
            SseEvent::Done => event@ == EventModel::Done,
            SseEvent::Ignored => event@ == EventModel::Ignored,
        },
{
}

/// A chunk opens the response where it is not open, adds its text behind the frames that wait and
/// its fragments to the calls under assembly; the usage that it brings, if any, replaces the one
/// before. It touches nothing else, and it does not end the response, whatever it holds.
pub proof fn law_chunk_is_folded_in(st: SseModel, chunk: JsonModel)
    requires
        !st.finished,
    ensures
        ({
            let next = after_event(st, EventModel::Chunk(chunk));
            &&& next.started
            &&& !next.finished
            &&& next.buf == st.buf
            &&& next.model == st.model
            &&& st.started ==> next.pending == st.pending + chunk_text(chunk)
            &&& !st.started ==> next.pending == st.pending.push(FrameModel::LlmResponseStart)
                + chunk_text(chunk)
            &&& next.tool_acc == add_calls(st.tool_acc, chunk_calls(chunk))
            &&& chunk_usage(chunk) is Some ==> next.usage == chunk_usage(chunk)
            &&& chunk_usage(chunk) is None ==> next.usage == st.usage
        }),
{
    let next = after_event(st, EventModel::Chunk(chunk));
    if st.started {
        assert(st.pending + opening(true) =~= st.pending);
    } else {
        assert(st.pending + opening(false) =~= st.pending.push(FrameModel::LlmResponseStart));
    }
}

/// The end closes the response: behind the frames that wait come its start where it was not open,
/// the report of all assembled calls where there are any, the report of the usage where there is
/// one, under the model's name, and the end, which is always the last. Nothing is left over to be
/// reported again.
pub proof fn law_end_closes_the_response(st: SseModel)
    requires
        !st.finished,
    ensures
        after_event(st, EventModel::Done) == after_finish(st),
        ({
            let next = after_finish(st);
            let opened = if st.started {
                st.pending
            } else {
                st.pending.push(FrameModel::LlmResponseStart)
            };
            let called = if st.tool_acc.dom() == Set::<u64>::empty() {
                opened
            } else {
                opened.push(FrameModel::FunctionCallsStarted(finished_calls(st.tool_acc)))
            };
            &&& next.started && next.finished
            &&& next.buf == st.buf && next.model == st.model
            &&& next.tool_acc == Map::<u64, ToolAccModel>::empty() && next.usage is None
            &&& st.usage is None ==> next.pending == called.push(FrameModel::LlmResponseEnd)
            &&& st.usage matches Some(tokens) ==> next.pending == called.push(
                FrameModel::Metrics(
                    seq![
                        MetricsModel::LlmUsage {
                            processor: "openai"@,
                            model: Some(st.model),
                            tokens,
                        },
                    ],
                ),
            ).push(FrameModel::LlmResponseEnd)
        }),
{
    let next = after_finish(st);
    let opened = st.pending + opening(st.started);
    let called = opened + calls_report(st.tool_acc);
    assert(opened =~= if st.started {
        st.pending
    } else {
        st.pending.push(FrameModel::LlmResponseStart)
    });
    assert(st.tool_acc.is_empty() <==> st.tool_acc.dom() =~= Set::<u64>::empty());
    assert(called =~= if st.tool_acc.dom() == Set::<u64>::empty() {
        opened
    } else {
        opened.push(FrameModel::FunctionCallsStarted(finished_calls(st.tool_acc)))
    });
    match st.usage {
        None => {
            assert(next.pending =~= called.push(FrameModel::LlmResponseEnd));
        },
        Some(tokens) => {
            let metric = FrameModel::Metrics(
                seq![
                    MetricsModel::LlmUsage { processor: "openai"@, model: Some(st.model), tokens },
                ],
            );
            assert(next.pending =~= called.push(metric).push(FrameModel::LlmResponseEnd));
        },
    }
}

/// A line that is passed over changes nothing, and once the response is over no event does.
pub proof fn law_events_without_effect(st: SseModel, event: EventModel)
    ensures
        after_event(st, EventModel::Ignored) == st,
        st.finished ==> after_event(st, event) == st,
        st.finished ==> after_finish(st) == st,
{
}

/// A line counts when its line feed has arrived: with the text that waited before it, it is one
/// line, and what follows it is taken as if it had arrived later.
pub proof fn law_complete_line_counts(st: SseModel, line: Seq<char>, more: Seq<char>)
    requires
        forall|i: int| 0 <= i < st.buf.len() ==> st.buf[i] != '\n',
        forall|i: int| 0 <= i < line.len() ==> line[i] != '\n',
    ensures
        after_text(st, line + seq!['\n'] + more) == after_text(
            after_event(SseModel { buf: Seq::empty(), ..st }, line_event(st.buf + line)),
            more,
        ),
{
    let first = st.buf + line;
    let buf = st.buf + (line + seq!['\n'] + more);
    let n = first.len() as int;
    assert forall|j: int| 0 <= j < n implies buf[j] != '\n' by {
        if j < st.buf.len() {
            assert(buf[j] == st.buf[j]);
        } else {
            assert(buf[j] == line[j - st.buf.len()]);
        }
    }
    assert(buf[n] == '\n');
    lemma_line_len(buf, n);
    assert(buf.take(n) =~= first);
    assert(buf.skip(n + 1) =~= more);
    let event = line_event(first);
    let empty = SseModel { buf: Seq::empty(), ..st };
    let next = after_event(empty, event);
    assert(next.buf == Seq::<char>::empty());
    assert(next.buf + more =~= more);
    assert(SseModel { buf: next.buf + more, ..next } == after_event(
        SseModel { buf: more, ..st },
        event,
    ));
}

/// Text without a line feed waits: nothing else changes.
pub proof fn law_incomplete_line_waits(st: SseModel, text: Seq<char>)
    requires
        forall|i: int| 0 <= i < st.buf.len() ==> st.buf[i] != '\n',
        forall|i: int| 0 <= i < text.len() ==> text[i] != '\n',
    ensures
        after_text(st, text) == (SseModel { buf: st.buf + text, ..st }),
{
    let buf = st.buf + text;
    assert forall|j: int| 0 <= j < buf.len() implies buf[j] != '\n' by {
        if j < st.buf.len() {
            assert(buf[j] == st.buf[j]);
        } else {
            assert(buf[j] == text[j - st.buf.len()]);
        }
    }
    lemma_line_len(buf, buf.len() as int);
}

/// Before any text has arrived, nothing waits, nothing is under assembly and nothing was reported.
pub proof fn law_initial_state(model: Seq<char>)
    ensures
        ({
            let st = initial_state(model);
            &&& st.buf == Seq::<char>::empty()
            &&& !st.started && !st.finished
            &&& st.pending == Seq::<FrameModel>::empty()
            &&& st.tool_acc == Map::<u64, ToolAccModel>::empty()
            &&& st.model == model
            &&& st.usage is None
        }),
{
}

} // verus!
