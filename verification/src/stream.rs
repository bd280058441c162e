//! A response as a whole.
//!
//! The frames of a response are a function of its text: they do not depend on how the text was
//! cut into pieces on its way, and nothing after the end of the response counts.

use crate::calls::{
    add_calls, call_index, finished_calls, in_order, law_assembly, law_calls_in_index_order,
    lemma_add_calls_append,
};
use crate::chunk::{chunk_calls, chunk_delta, chunk_text, chunk_usage};
use crate::frame::{frame_models, Frame, FrameModel, LlmTokenUsage, MetricsModel};
use crate::json::JsonModel;
use crate::parse::parsed_json;
use crate::sse::{
    after_event, after_finish, after_lines, after_text, calls_report, initial_state, law_data_line,
    law_only_data_lines_count, lemma_line_len, line_event, line_len, opening, usage_report,
    EventModel, SseModel, SseState, SseStep,
};
use crate::text::{is_white_space, lossy_text};
use vstd::prelude::*;
use vstd::utf8::{decode_utf8, pop_first_scalar, valid_utf8, valid_utf8_concat};

verus! {

/// The chunks in the complete lines of `text`, up to the end of the response.
pub open spec fn chunks_of(text: Seq<char>) -> Seq<JsonModel>
    decreases text.len(),
{
    let n = line_len(text) as int;
    if n < text.len() {
        match line_event(text.take(n)) {
            EventModel::Chunk(chunk) => seq![chunk] + chunks_of(text.skip(n + 1)),
            EventModel::Done => Seq::empty(),
            EventModel::Ignored => chunks_of(text.skip(n + 1)),
        }
    } else {
        Seq::empty()
    }
}

/// The text frames of `chunks`, in order.
pub open spec fn all_text(chunks: Seq<JsonModel>) -> Seq<FrameModel>
    decreases chunks.len(),
{
    if chunks.len() == 0 {
        Seq::empty()
    } else {
        chunk_text(chunks[0]) + all_text(chunks.drop_first())
    }
}

/// The fragments of function calls in `chunks`, in order.
pub open spec fn all_calls(chunks: Seq<JsonModel>) -> Seq<JsonModel>
    decreases chunks.len(),
{
    if chunks.len() == 0 {
        Seq::empty()
    } else {
        chunk_calls(chunks[0]) + all_calls(chunks.drop_first())
    }
}

/// The token usage that `chunks` report last.
pub open spec fn last_usage(chunks: Seq<JsonModel>) -> Option<LlmTokenUsage>
    decreases chunks.len(),
{
    if chunks.len() == 0 {
        None
    } else {
        match last_usage(chunks.drop_first()) {
            Some(usage) => Some(usage),
            None => chunk_usage(chunks[0]),
        }
    }
}

/// The frames of a response of `model` that consists of `chunks`: the start, the text, the
/// function calls if there are any, the token usage if it was reported, the end.
pub open spec fn framed(model: Seq<char>, chunks: Seq<JsonModel>) -> Seq<FrameModel> {
    seq![FrameModel::LlmResponseStart] + all_text(chunks) + calls_report(
        add_calls(Map::empty(), all_calls(chunks)),
    ) + usage_report(model, last_usage(chunks)) + seq![FrameModel::LlmResponseEnd]
}

/// The frames that `st` still has to hand out when `text` is all that is to come.
pub open spec fn frames_left(st: SseModel, text: Seq<char>) -> Seq<FrameModel> {
    after_finish(after_text(st, text)).pending
}

/// Whether every complete line of the state's text has been worked off.
pub open spec fn settled(st: SseModel) -> bool {
    line_len(st.buf) == st.buf.len()
}

proof fn lemma_line_len_bound(s: Seq<char>)
    ensures
        line_len(s) <= s.len(),
    decreases s.len(),
{
    if s.len() > 0 && s[0] != '\n' {
        lemma_line_len_bound(s.drop_first());
    }
}

/// More text leaves a complete first line as it was.
proof fn lemma_line_len_append(s: Seq<char>, t: Seq<char>)
    requires
        line_len(s) < s.len(),
    ensures
        line_len(s + t) == line_len(s),
    decreases s.len(),
{
    if s[0] != '\n' {
        assert((s + t).drop_first() =~= s.drop_first() + t);
        lemma_line_len_append(s.drop_first(), t);
    }
}

/// An event does not touch the text that waits.
proof fn lemma_event_buf(st: SseModel, event: EventModel, buf: Seq<char>)
    ensures
        after_event(SseModel { buf, ..st }, event) == (SseModel { buf, ..after_event(st, event) }),
        after_event(st, event).buf == st.buf,
{
}

proof fn lemma_settles(st: SseModel)
    ensures
        settled(after_lines(st)),
    decreases st.buf.len(),
{
    lemma_line_len_bound(st.buf);
    let n = line_len(st.buf) as int;
    if n < st.buf.len() {
        let rest = SseModel { buf: st.buf.skip(n + 1), ..st };
        lemma_settles(after_event(rest, line_event(st.buf.take(n))));
    }
}

/// Working lines off early, before `text` arrives, comes to the same as working them off late.
proof fn lemma_lines_append(st: SseModel, text: Seq<char>)
    ensures
        after_text(after_lines(st), text) == after_text(st, text),
    decreases st.buf.len(),
{
    let n = line_len(st.buf) as int;
    if n < st.buf.len() {
        let event = line_event(st.buf.take(n));
        let rest = SseModel { buf: st.buf.skip(n + 1), ..st };
        let next = after_event(rest, event);
        lemma_lines_append(next, text);
        let whole = SseModel { buf: st.buf + text, ..st };
        lemma_line_len_append(st.buf, text);
        assert(whole.buf.take(n) =~= st.buf.take(n));
        assert(whole.buf.skip(n + 1) =~= rest.buf + text);
        lemma_event_buf(rest, event, rest.buf + text);
        assert(SseModel { buf: whole.buf.skip(n + 1), ..whole } == (SseModel {
            buf: rest.buf + text,
            ..rest
        }));
    }
}

/// Text may arrive in any pieces: one piece after the other brings the state where their
/// concatenation brings it.
pub proof fn law_pieces_join(st: SseModel, a: Seq<char>, b: Seq<char>)
    ensures
        after_text(after_text(st, a), b) == after_text(st, a + b),
{
    let fed = SseModel { buf: st.buf + a, ..st };
    lemma_lines_append(fed, b);
    assert(fed.buf + b =~= st.buf + (a + b));
}

/// Once the response is over, text that arrives changes nothing but the text that waits.
pub proof fn law_nothing_after_end(st: SseModel, text: Seq<char>)
    requires
        st.finished,
    ensures
        after_text(st, text) == (SseModel { buf: after_text(st, text).buf, ..st }),
        frames_left(st, text) == st.pending,
{
    lemma_finished_lines(SseModel { buf: st.buf + text, ..st });
}

proof fn lemma_finished_lines(st: SseModel)
    requires
        st.finished,
    ensures
        after_lines(st) == (SseModel { buf: after_lines(st).buf, ..st }),
    decreases st.buf.len(),
{
    let n = line_len(st.buf) as int;
    if n < st.buf.len() {
        let rest = SseModel { buf: st.buf.skip(n + 1), ..st };
        assert(after_event(rest, line_event(st.buf.take(n))) == rest);
        lemma_finished_lines(rest);
    }
}

/// The usage that stands after `chunks`, where `usage` stood before.
pub open spec fn usage_after(
    usage: Option<LlmTokenUsage>,
    chunks: Seq<JsonModel>,
) -> Option<LlmTokenUsage> {
    match last_usage(chunks) {
        Some(last) => Some(last),
        None => usage,
    }
}

/// What the complete lines in the state's text and the end of the response add to the pending
/// frames.
pub open spec fn closing(st: SseModel) -> Seq<FrameModel> {
    let chunks = chunks_of(st.buf);
    opening(st.started) + all_text(chunks) + calls_report(
        add_calls(st.tool_acc, all_calls(chunks)),
    ) + usage_report(st.model, usage_after(st.usage, chunks)) + seq![FrameModel::LlmResponseEnd]
}

proof fn lemma_regroup(
    p: Seq<FrameModel>,
    o: Seq<FrameModel>,
    t: Seq<FrameModel>,
    later: Seq<FrameModel>,
    c: Seq<FrameModel>,
    u: Seq<FrameModel>,
    e: Seq<FrameModel>,
)
    ensures
        (p + o + t) + (Seq::<FrameModel>::empty() + later + c + u + e) == p + (o + (t + later) + c
            + u + e),
        p + o + c + u + e == p + (o + Seq::<FrameModel>::empty() + c + u + e),
{
    assert((p + o + t) + (Seq::<FrameModel>::empty() + later + c + u + e) =~= p + (o + (t + later)
        + c + u + e));
    assert(p + o + c + u + e =~= p + (o + Seq::<FrameModel>::empty() + c + u + e));
}

/// Where no chunk is left, the closing frames are those that the end itself adds.
proof fn lemma_closing_end(st: SseModel)
    requires
        !st.finished,
        chunks_of(st.buf).len() == 0,
    ensures
        after_finish(st).pending == st.pending + closing(st),
{
    let end = seq![FrameModel::LlmResponseEnd];
    let chunks = chunks_of(st.buf);
    assert(add_calls(st.tool_acc, all_calls(chunks)) == st.tool_acc);
    assert(all_text(chunks) == Seq::<FrameModel>::empty());
    let c = calls_report(st.tool_acc);
    let u = usage_report(st.model, st.usage);
    lemma_regroup(st.pending, opening(st.started), Seq::empty(), Seq::empty(), c, u, end);
}

/// A chunk adds its text in front of what follows it.
proof fn lemma_closing_chunk(st: SseModel, rest: SseModel, chunk: JsonModel)
    requires
        !st.finished,
        rest == (SseModel { buf: rest.buf, ..st }),
        chunks_of(st.buf) == seq![chunk] + chunks_of(rest.buf),
    ensures
        ({
            let next = after_event(rest, EventModel::Chunk(chunk));
            next.pending + closing(next) == st.pending + closing(st)
        }),
{
    let next = after_event(rest, EventModel::Chunk(chunk));
    let chunks = chunks_of(st.buf);
    let later = chunks_of(rest.buf);
    assert(chunks.drop_first() =~= later);
    assert(chunks[0] == chunk);
    lemma_add_calls_append(st.tool_acc, chunk_calls(chunk), all_calls(later));
    let c = calls_report(add_calls(st.tool_acc, all_calls(chunks)));
    let u = usage_report(st.model, usage_after(st.usage, chunks));
    assert(usage_after(next.usage, later) == usage_after(st.usage, chunks));
    lemma_regroup(
        st.pending,
        opening(st.started),
        chunk_text(chunk),
        all_text(later),
        c,
        u,
        seq![FrameModel::LlmResponseEnd],
    );
}

/// Working the complete lines off and ending the response adds the closing frames.
proof fn lemma_closing(st: SseModel)
    requires
        !st.finished,
    ensures
        after_finish(after_lines(st)).pending == st.pending + closing(st),
    decreases st.buf.len(),
{
    let n = line_len(st.buf) as int;
    if n < st.buf.len() {
        let event = line_event(st.buf.take(n));
        let rest = SseModel { buf: st.buf.skip(n + 1), ..st };
        let next = after_event(rest, event);
        match event {
            EventModel::Done => {
                lemma_finished_lines(next);
                lemma_closing_end(st);
            },
            EventModel::Ignored => {
                lemma_closing(next);
            },
            EventModel::Chunk(chunk) => {
                lemma_closing(next);
                lemma_closing_chunk(st, rest, chunk);
            },
        }
    } else {
        lemma_closing_end(st);
    }
}

/// The frames of a response are those of the chunks that its text carries up to its end.
pub proof fn law_response(model: Seq<char>, text: Seq<char>)
    ensures
        frames_left(initial_state(model), text) == framed(model, chunks_of(text)),
{
    let st = SseModel { buf: Seq::<char>::empty() + text, ..initial_state(model) };
    assert(st.buf =~= text);
    lemma_closing(st);
    assert(st.pending + closing(st) =~= framed(model, chunks_of(text)));
}

/// A frame that waits is handed out before all that is still to come.
proof fn lemma_hand_out(st: SseModel, text: Seq<char>)
    requires
        st.pending.len() > 0,
    ensures
        frames_left(st, text) == seq![st.pending[0]] + frames_left(
            SseModel { pending: st.pending.drop_first(), ..st },
            text,
        ),
{
    let next = SseModel { pending: st.pending.drop_first(), ..st };
    if st.finished {
        law_nothing_after_end(st, text);
        law_nothing_after_end(next, text);
        assert(st.pending =~= seq![st.pending[0]] + next.pending);
    } else {
        let fed = SseModel { buf: st.buf + text, ..st };
        let next_fed = SseModel { buf: st.buf + text, ..next };
        lemma_closing(fed);
        lemma_closing(next_fed);
        assert(fed.pending + closing(fed) =~= seq![st.pending[0]] + (next_fed.pending + closing(
            next_fed,
        )));
    }
}

/// The place of a frame in a response.
pub open spec fn place(frame: FrameModel) -> int {
    match frame {
        FrameModel::LlmResponseStart => 0,
        FrameModel::LlmText(_) => 1,
        FrameModel::FunctionCallsStarted(_) => 2,
        FrameModel::Metrics(_) => 3,
        FrameModel::LlmResponseEnd => 4,
    }
}

proof fn lemma_all_text(chunks: Seq<JsonModel>)
    ensures
        forall|i: int|
            0 <= i < all_text(chunks).len() ==> {
                &&& (#[trigger] all_text(chunks)[i]) is LlmText
                &&& all_text(chunks)[i]->LlmText_0.len() > 0
            },
    decreases chunks.len(),
{
    if chunks.len() > 0 {
        lemma_all_text(chunks.drop_first());
    }
}

/// A response is framed by its start and its end. Between them stand the pieces of its text, none
/// of them empty, then at most one report of function calls, then at most one of metrics.
pub proof fn law_framing(model: Seq<char>, chunks: Seq<JsonModel>)
    ensures
        ({
            let frames = framed(model, chunks);
            &&& frames.len() >= 2
            &&& frames[0] is LlmResponseStart
            &&& frames.last() is LlmResponseEnd
            &&& forall|i: int, j: int|
                0 <= i < j < frames.len() ==> place(#[trigger] frames[i]) < place(
                    #[trigger] frames[j],
                ) || (frames[i] is LlmText && frames[j] is LlmText)
            &&& forall|i: int|
                0 <= i < frames.len() && (#[trigger] frames[i]) is LlmText
                    ==> frames[i]->LlmText_0.len() > 0
        }),
{
    lemma_all_text(chunks);
}

/// The text that a sequence of frames carries.
pub open spec fn text_of(frames: Seq<FrameModel>) -> Seq<char>
    decreases frames.len(),
{
    if frames.len() == 0 {
        Seq::empty()
    } else {
        text_of(frames.drop_last()) + match frames.last() {
            FrameModel::LlmText(text) => text,
            _ => Seq::empty(),
        }
    }
}

/// The text in the delta of `chunk`.
pub open spec fn delta_text(chunk: JsonModel) -> Seq<char> {
    match chunk_delta(chunk) {
        Some(delta) => match delta.get_str("content"@) {
            Some(text) => text,
            None => Seq::empty(),
        },
        None => Seq::empty(),
    }
}

/// The text in the deltas of `chunks`, in order.
pub open spec fn delta_texts(chunks: Seq<JsonModel>) -> Seq<char>
    decreases chunks.len(),
{
    if chunks.len() == 0 {
        Seq::empty()
    } else {
        delta_text(chunks[0]) + delta_texts(chunks.drop_first())
    }
}

proof fn lemma_text_of_append(a: Seq<FrameModel>, b: Seq<FrameModel>)
    ensures
        text_of(a + b) == text_of(a) + text_of(b),
    decreases b.len(),
{
    if b.len() == 0 {
        assert(a + b =~= a);
        assert(text_of(a) + text_of(b) =~= text_of(a));
    } else {
        lemma_text_of_append(a, b.drop_last());
        assert((a + b).drop_last() =~= a + b.drop_last());
        assert(text_of(a + b) =~= text_of(a) + text_of(b));
    }
}

proof fn lemma_text_of_one(frame: FrameModel)
    ensures
        text_of(seq![frame]) == (match frame {
            FrameModel::LlmText(text) => text,
            _ => Seq::empty(),
        }),
{
    let one = seq![frame];
    assert(one.drop_last() =~= Seq::<FrameModel>::empty());
    assert(text_of(one.drop_last()) =~= Seq::<char>::empty());
    assert(text_of(one) =~= match frame {
        FrameModel::LlmText(text) => text,
        _ => Seq::empty(),
    });
}

proof fn lemma_text_of_all_text(chunks: Seq<JsonModel>)
    ensures
        text_of(all_text(chunks)) == delta_texts(chunks),
    decreases chunks.len(),
{
    if chunks.len() > 0 {
        lemma_text_of_all_text(chunks.drop_first());
        lemma_text_of_append(chunk_text(chunks[0]), all_text(chunks.drop_first()));
        lemma_text_of_one(FrameModel::LlmText(delta_text(chunks[0])));
        assert(text_of(chunk_text(chunks[0])) =~= delta_text(chunks[0]));
    }
}

/// The text that the frames of a response carry is the text of its deltas, put together in order.
pub proof fn law_text_is_kept(model: Seq<char>, chunks: Seq<JsonModel>)
    ensures
        text_of(framed(model, chunks)) == delta_texts(chunks),
{
    let start = seq![FrameModel::LlmResponseStart];
    let texts = all_text(chunks);
    let calls = calls_report(add_calls(Map::empty(), all_calls(chunks)));
    let usage = usage_report(model, last_usage(chunks));
    let end = seq![FrameModel::LlmResponseEnd];
    lemma_text_of_all_text(chunks);
    lemma_text_of_append(start, texts);
    lemma_text_of_append(start + texts, calls);
    lemma_text_of_append(start + texts + calls, usage);
    lemma_text_of_append(start + texts + calls + usage, end);
    lemma_text_of_one(FrameModel::LlmResponseStart);
    lemma_text_of_one(FrameModel::LlmResponseEnd);
    if calls.len() > 0 {
        lemma_text_of_one(calls[0]);
        assert(calls =~= seq![calls[0]]);
    }
    if usage.len() > 0 {
        lemma_text_of_one(usage[0]);
        assert(usage =~= seq![usage[0]]);
    }
    assert(text_of(framed(model, chunks)) =~= delta_texts(chunks));
}

/// Function calls are reported where a fragment of one has arrived, and only then; a report lists
/// at least one call.
pub proof fn law_calls_are_reported(calls: Seq<JsonModel>)
    ensures
        ({
            let acc = add_calls(Map::empty(), calls);
            &&& calls_report(acc).len() == (if calls.len() > 0 {
                1int
            } else {
                0
            })
            &&& calls.len() > 0 ==> finished_calls(acc).len() > 0
        }),
{
    if calls.len() > 0 {
        let acc = add_calls(Map::empty(), calls);
        let index = call_index(calls[0]);
        law_assembly(calls, index);
        assert(acc.dom().contains(index));
        law_calls_in_index_order(acc);
        assert(in_order(acc.dom()).contains(index));
    }
}

/// The usage that is reported at the end is the last that a chunk brought; none is reported where
/// no chunk brought one.
pub proof fn law_last_usage(chunks: Seq<JsonModel>)
    ensures
        match last_usage(chunks) {
            Some(usage) => exists|i: int|
                0 <= i < chunks.len() && #[trigger] chunk_usage(chunks[i]) == Some(usage) && (
                forall|j: int|
                    i < j < chunks.len() ==> #[trigger] chunk_usage(chunks[j]) is None),
            None => forall|i: int|
                0 <= i < chunks.len() ==> #[trigger] chunk_usage(chunks[i]) is None,
        },
    decreases chunks.len(),
{
    if chunks.len() > 0 {
        let rest = chunks.drop_first();
        law_last_usage(rest);
        match last_usage(rest) {
            Some(usage) => {
                let i = choose|i: int|
                    0 <= i < rest.len() && #[trigger] chunk_usage(rest[i]) == Some(usage) && (
                    forall|j: int|
                        i < j < rest.len() ==> #[trigger] chunk_usage(rest[j]) is None);
                assert(rest[i] == chunks[i + 1]);
                assert forall|j: int| i + 1 < j < chunks.len() implies #[trigger] chunk_usage(
                    chunks[j],
                ) is None by {
                    assert(chunks[j] == rest[j - 1]);
                }
                assert(chunk_usage(chunks[i + 1]) == Some(usage));
            },
            None => {
                assert forall|j: int| 0 < j < chunks.len() implies #[trigger] chunk_usage(
                    chunks[j],
                ) is None by {
                    assert(chunks[j] == rest[j - 1]);
                }
                assert(chunk_usage(chunks[0]) == last_usage(chunks));
            },
        }
    }
}

/// A response that breaks off behind a complete line has the frames that it has when the terminal
/// line follows there, whatever comes after that.
pub proof fn law_breaking_off_is_ending(text: Seq<char>, line: Seq<char>, more: Seq<char>)
    requires
        text.len() == 0 || text.last() == '\n',
        !line.contains('\n'),
        line_event(line) is Done,
    ensures
        chunks_of(text + line + seq!['\n'] + more) == chunks_of(text),
    decreases text.len(),
{
    let whole = text + line + seq!['\n'] + more;
    if text.len() == 0 {
        let n = line.len() as int;
        assert forall|j: int| 0 <= j < n implies whole[j] != '\n' by {
            assert(whole[j] == line[j]);
            assert(line.contains(line[j]));
        }
        lemma_line_len(whole, n);
        assert(whole.take(n) =~= line);
    } else {
        let n = line_len(text) as int;
        lemma_line_len_ends(text);
        lemma_line_len_append(text, line + seq!['\n'] + more);
        assert(whole =~= text + (line + seq!['\n'] + more));
        let rest = text.skip(n + 1);
        assert(whole.take(n) =~= text.take(n));
        assert(whole.skip(n + 1) =~= rest + line + seq!['\n'] + more);
        assert(rest.len() > 0 ==> rest.last() == text.last());
        law_breaking_off_is_ending(rest, line, more);
    }
}

/// Text that ends in a line feed has a complete first line.
proof fn lemma_line_len_ends(s: Seq<char>)
    requires
        s.len() > 0,
        s.last() == '\n',
    ensures
        line_len(s) < s.len(),
    decreases s.len(),
{
    if s[0] != '\n' {
        assert(s.drop_first().last() == s.last());
        lemma_line_len_ends(s.drop_first());
    }
}

proof fn lemma_decode_concat(a: Seq<u8>, b: Seq<u8>)
    requires
        valid_utf8(a),
        valid_utf8(b),
    ensures
        valid_utf8(a + b),
        decode_utf8(a + b) == decode_utf8(a) + decode_utf8(b),
    decreases a.len(),
{
    valid_utf8_concat(a, b);
    if a.len() == 0 {
        assert(a + b =~= b);
        assert(decode_utf8(a) + decode_utf8(b) =~= decode_utf8(b));
    } else {
        let rest = pop_first_scalar(a);
        assert(pop_first_scalar(a + b) =~= rest + b);
        lemma_decode_concat(rest, b);
        assert(decode_utf8(a + b) =~= decode_utf8(a) + decode_utf8(b));
    }
}

/// Bytes that are UTF-8 piece by piece bring the state where their concatenation brings it.
pub proof fn law_utf8_pieces_join(st: SseModel, a: Seq<u8>, b: Seq<u8>)
    requires
        valid_utf8(a),
        valid_utf8(b),
    ensures
        valid_utf8(a + b),
        after_text(after_text(st, decode_utf8(a)), decode_utf8(b)) == after_text(
            st,
            decode_utf8(a + b),
        ),
{
    lemma_decode_concat(a, b);
    law_pieces_join(st, decode_utf8(a), decode_utf8(b));
}

/// The text that arrives in `pieces` before the first that reports an error.
pub open spec fn received<E>(pieces: Seq<Result<Vec<u8>, E>>) -> Seq<char>
    decreases pieces.len(),
{
    if pieces.len() == 0 {
        Seq::empty()
    } else {
        match pieces[0] {
            Ok(bytes) => lossy_text(bytes@) + received(pieces.drop_first()),
            Err(_) => Seq::empty(),
        }
    }
}

/// The bytes that arrive in `pieces` before the first that reports an error.
pub open spec fn received_bytes<E>(pieces: Seq<Result<Vec<u8>, E>>) -> Seq<u8>
    decreases pieces.len(),
{
    if pieces.len() == 0 {
        Seq::empty()
    } else {
        match pieces[0] {
            Ok(bytes) => bytes@ + received_bytes(pieces.drop_first()),
            Err(_) => Seq::empty(),
        }
    }
}

/// Whether each of `pieces` is UTF-8, so that no character is cut in two.
pub open spec fn all_utf8<E>(pieces: Seq<Result<Vec<u8>, E>>) -> bool {
    forall|i: int|
        0 <= i < pieces.len() ==> ((#[trigger] pieces[i]) matches Ok(bytes) ==> valid_utf8(bytes@))
}

proof fn lemma_received_utf8<E>(pieces: Seq<Result<Vec<u8>, E>>)
    requires
        all_utf8(pieces),
    ensures
        valid_utf8(received_bytes(pieces)),
        pieces.len() > 0 ==> match pieces[0] {
            Ok(bytes) => decode_utf8(received_bytes(pieces)) == decode_utf8(bytes@) + decode_utf8(
                received_bytes(pieces.drop_first()),
            ),
            Err(_) => true,
        },
    decreases pieces.len(),
{
    if pieces.len() > 0 {
        let rest = pieces.drop_first();
        assert(all_utf8(rest)) by {
            assert forall|i: int| 0 <= i < rest.len() implies ((#[trigger] rest[i]) matches Ok(
                bytes,
            ) ==> valid_utf8(bytes@)) by {
                assert(rest[i] == pieces[i + 1]);
            }
        }
        lemma_received_utf8(rest);
        if let Ok(bytes) = pieces[0] {
            lemma_decode_concat(bytes@, received_bytes(rest));
        }
    }
}

/// Turns the pieces in which a response of `model` arrives into its frames. The response ends
/// with its terminal line, or else with the last piece or with a piece that reports an error.
pub fn sse_to_frames<E>(pieces: &Vec<Result<Vec<u8>, E>>, model: String) -> (r: Vec<Frame>)
    ensures
        frame_models(r@) == framed(model@, chunks_of(received(pieces@))),
        all_utf8(pieces@) ==> frame_models(r@) == framed(
            model@,
            chunks_of(decode_utf8(received_bytes(pieces@))),
        ),
{
    let ghost whole = framed(model@, chunks_of(received(pieces@)));
    let ghost utf8 = all_utf8(pieces@);
    let ghost whole_utf8 = framed(model@, chunks_of(decode_utf8(received_bytes(pieces@))));
    let mut st = SseState::new(model);
    let mut frames: Vec<Frame> = Vec::new();
    let mut i: usize = 0;
    proof {
        law_response(model@, received(pieces@));
        law_response(model@, decode_utf8(received_bytes(pieces@)));
        assert(pieces@.skip(0) =~= pieces@);
        assert(frame_models(frames@) + whole =~= whole);
        assert(frame_models(frames@) + whole_utf8 =~= whole_utf8);
    }
    loop
        invariant
            i <= pieces@.len(),
            settled(st@),
            utf8 == all_utf8(pieces@),
            frame_models(frames@) + frames_left(st@, received(pieces@.skip(i as int))) == whole,
            utf8 ==> frame_models(frames@) + frames_left(
                st@,
                decode_utf8(received_bytes(pieces@.skip(i as int))),
            ) == whole_utf8,
        ensures
            frame_models(frames@) == whole,
            utf8 ==> frame_models(frames@) == whole_utf8,
        decreases
                pieces@.len() - i,
                if st@.finished {
                    0nat
                } else {
                    1nat
                },
                st@.pending.len(),
    {
        let ghost before = st@;
        let ghost left = pieces@.skip(i as int);
        let ghost text = received(left);
        let ghost text_utf8 = decode_utf8(received_bytes(left));
        proof {
            if utf8 {
                assert(all_utf8(left)) by {
                    assert forall|j: int| 0 <= j < left.len() implies ((
                    #[trigger] left[j]) matches Ok(bytes) ==> valid_utf8(bytes@)) by {
                        assert(left[j] == pieces@[i + j]);
                    }
                }
                lemma_received_utf8(left);
            }
        }
        match st.next_step() {
            SseStep::Emit(frame) => {
                let ghost out = frame_models(frames@);
                let ghost one = seq![before.pending[0]];
                proof {
                    lemma_hand_out(before, text);
                    lemma_hand_out(before, text_utf8);
                }
                frames.push(frame);
                assert(frame_models(frames@) =~= out + one);
                assert(out + (one + frames_left(st@, text)) =~= frame_models(frames@)
                    + frames_left(st@, text));
                assert(out + (one + frames_left(st@, text_utf8)) =~= frame_models(frames@)
                    + frames_left(st@, text_utf8));
            },
            SseStep::End => {
                proof {
                    law_nothing_after_end(before, text);
                    law_nothing_after_end(before, text_utf8);
                    assert(frame_models(frames@) + before.pending =~= frame_models(frames@));
                }
                break;
            },
            SseStep::Read => {
                let mut ended = true;
                if i < pieces.len() {
                    if let Ok(bytes) = &pieces[i] {
                        ended = false;
                        st.feed(bytes.as_slice());
                        proof {
                            let rest = pieces@.skip(i + 1);
                            assert(left[0] == pieces@[i as int]);
                            assert(left.drop_first() =~= rest);
                            law_pieces_join(before, lossy_text(bytes@), received(rest));
                            law_pieces_join(
                                before,
                                decode_utf8(bytes@),
                                decode_utf8(received_bytes(rest)),
                            );
                            lemma_settles(
                                SseModel { buf: before.buf + lossy_text(bytes@), ..before },
                            );
                        }
                        i = i + 1;
                    }
                }
                if ended {
                    proof {
                        assert(left.len() > 0 ==> left[0] == pieces@[i as int]);
                        assert(text =~= Seq::<char>::empty());
                        assert(text_utf8 =~= Seq::<char>::empty());
                        assert(before.buf + Seq::<char>::empty() =~= before.buf);
                    }
                    st.finish();
                    proof {
                        law_nothing_after_end(st@, text);
                    }
                }
            },
        }
    }
    frames
}

/// Each complete line of a response counts for itself: a chunk joins the chunks behind it, the
/// terminal line ends them, any other line is passed over.
pub proof fn law_lines_make_the_chunks(line: Seq<char>, more: Seq<char>)
    requires
        forall|i: int| 0 <= i < line.len() ==> line[i] != '\n',
    ensures
        ({
            let chunks = chunks_of(line + seq!['\n'] + more);
            &&& line_event(line) matches EventModel::Chunk(chunk) ==> chunks == seq![chunk]
                + chunks_of(more)
            &&& line_event(line) == EventModel::Done ==> chunks == Seq::<JsonModel>::empty()
            &&& line_event(line) == EventModel::Ignored ==> chunks == chunks_of(more)
        }),
{
    let text = line + seq!['\n'] + more;
    let n = line.len() as int;
    assert forall|j: int| 0 <= j < n implies text[j] != '\n' by {
        assert(text[j] == line[j]);
    }
    assert(text[n] == '\n');
    lemma_line_len(text, n);
    assert(text.take(n) =~= line);
    assert(text.skip(n + 1) =~= more);
}

/// A line that was not completed is no chunk.
pub proof fn law_incomplete_line_is_no_chunk(text: Seq<char>)
    requires
        forall|i: int| 0 <= i < text.len() ==> text[i] != '\n',
    ensures
        chunks_of(text) == Seq::<JsonModel>::empty(),
{
    lemma_line_len(text, text.len() as int);
}

/// A blank line is passed over.
proof fn lemma_blank_line()
    ensures
        line_event(Seq::empty()) == EventModel::Ignored,
{
    if line_event(Seq::empty()) != EventModel::Ignored {
        let parts = law_only_data_lines_count(Seq::empty());
        reveal_strlit("data:");
        assert((parts.0 + "data:"@ + parts.1 + parts.2 + parts.3).len() >= 5);
    }
}

/// A response in its usual form, a line `data: ` with a payload and a blank line for each chunk
/// and `data: [DONE]` at the end, has just the values that its payloads are read as for its
/// chunks: all of them, in order, whatever they hold. What follows the terminal line does not
/// count.
pub proof fn law_payloads_are_the_chunks(
    payloads: Seq<Seq<char>>,
    chunks: Seq<JsonModel>,
    more: Seq<char>,
)
    requires
        payloads.len() == chunks.len(),
        forall|i: int|
            0 <= i < payloads.len() ==> parsed_json(#[trigger] payloads[i]) == Some(chunks[i]),
        forall|i: int| 0 <= i < payloads.len() ==> #[trigger] payloads[i] != "[DONE]"@,
        forall|i: int|
            0 <= i < payloads.len() && (#[trigger] payloads[i]).len() > 0 ==> !is_white_space(
                payloads[i][0],
            ) && !is_white_space(payloads[i].last()),
        forall|i: int, j: int|
            0 <= i < payloads.len() && 0 <= j < payloads[i].len() ==> #[trigger] payloads[i][j]
                != '\n',
    ensures
        chunks_of(
            payloads.map_values(|p: Seq<char>| "data: "@ + p + "\n\n"@).flatten()
                + "data: [DONE]\n"@ + more,
        ) == chunks,
    decreases payloads.len(),
{
    let form = |p: Seq<char>| "data: "@ + p + "\n\n"@;
    let lines = payloads.map_values(form);
    let nothing = Seq::<char>::empty();
    let space = seq![' '];
    let feed = seq!['\n'];
    reveal_strlit("data:");
    reveal_strlit("data: ");
    reveal_strlit("\n\n");
    reveal_strlit("[DONE]");
    reveal_strlit("data: [DONE]\n");
    assert("data: "@ =~= "data:"@ + space);
    assert("\n\n"@ =~= feed + feed);
    let whole = lines.flatten() + "data: [DONE]\n"@ + more;
    if payloads.len() == 0 {
        let line = nothing + "data:"@ + space + "[DONE]"@ + nothing;
        assert("data: [DONE]\n"@ =~= line + feed);
        assert(whole =~= line + feed + more);
        assert("[DONE]"@[0] == '[' && "[DONE]"@.last() == ']');
        law_data_line(nothing, space, "[DONE]"@, nothing);
        law_lines_make_the_chunks(line, more);
        assert(chunks =~= Seq::<JsonModel>::empty());
    } else {
        let payload = payloads[0];
        let line = nothing + "data:"@ + space + payload + nothing;
        let rest = payloads.drop_first();
        let later = rest.map_values(form).flatten() + "data: [DONE]\n"@ + more;
        assert(lines.drop_first() =~= rest.map_values(form));
        assert(lines.first() =~= line + feed + feed);
        assert(whole =~= line + feed + (nothing + feed + later));
        assert forall|i: int| 0 <= i < line.len() implies line[i] != '\n' by {
            if i >= 6 {
                assert(line[i] == payloads[0][i - 6]);
            }
        }
        assert forall|i: int, j: int|
            0 <= i < rest.len() && 0 <= j < rest[i].len() implies #[trigger] rest[i][j] != '\n' by {
            assert(rest[i] == payloads[i + 1]);
            assert(payloads[i + 1][j] != '\n');
        }
        assert forall|i: int| 0 <= i < rest.len() implies parsed_json(#[trigger] rest[i]) == Some(
            chunks.drop_first()[i],
        ) by {
            assert(rest[i] == payloads[i + 1]);
        }
        assert forall|i: int| 0 <= i < rest.len() implies #[trigger] rest[i] != "[DONE]"@ by {
            assert(rest[i] == payloads[i + 1]);
        }
        assert forall|i: int| 0 <= i < rest.len() && (#[trigger] rest[i]).len() > 0 implies
            !is_white_space(rest[i][0]) && !is_white_space(rest[i].last()) by {
            assert(rest[i] == payloads[i + 1]);
        }
        law_data_line(nothing, space, payload, nothing);
        law_lines_make_the_chunks(line, nothing + feed + later);
        lemma_blank_line();
        law_lines_make_the_chunks(nothing, later);
        law_payloads_are_the_chunks(rest, chunks.drop_first(), more);
        assert(chunks =~= seq![chunks[0]] + chunks.drop_first());
    }
}

proof fn lemma_all_text_flat(chunks: Seq<JsonModel>)
    ensures
        all_text(chunks) == chunks.map_values(|c: JsonModel| chunk_text(c)).flatten(),
        all_calls(chunks) == chunks.map_values(|c: JsonModel| chunk_calls(c)).flatten(),
    decreases chunks.len(),
{
    if chunks.len() > 0 {
        let rest = chunks.drop_first();
        lemma_all_text_flat(rest);
        assert(chunks.map_values(|c: JsonModel| chunk_text(c)).drop_first() =~= rest.map_values(
            |c: JsonModel| chunk_text(c),
        ));
        assert(chunks.map_values(|c: JsonModel| chunk_calls(c)).drop_first() =~= rest.map_values(
            |c: JsonModel| chunk_calls(c),
        ));
    }
}

/// The usage that a chunk brings stands where no later chunk brings one.
proof fn lemma_last_usage_at(chunks: Seq<JsonModel>, i: int)
    requires
        0 <= i < chunks.len(),
        chunk_usage(chunks[i]) is Some,
        forall|j: int| i < j < chunks.len() ==> chunk_usage(#[trigger] chunks[j]) is None,
    ensures
        last_usage(chunks) == chunk_usage(chunks[i]),
{
    law_last_usage(chunks);
    if last_usage(chunks) is Some {
        let usage = last_usage(chunks)->0;
        let k = choose|k: int|
            0 <= k < chunks.len() && #[trigger] chunk_usage(chunks[k]) == Some(usage) && (forall|
                j: int,
            |
                k < j < chunks.len() ==> #[trigger] chunk_usage(chunks[j]) is None);
        if k < i {
            assert(chunk_usage(chunks[i]) is None);
        }
    } else {
        assert(chunk_usage(chunks[i]) is None);
    }
}

/// The frames of a response: its start, the text of each of its chunks in their order, one report
/// of the calls put together from all its fragments where there are any, the usage that was
/// brought last, the one in the chunk `i`, where one was brought, and its end.
pub proof fn law_frames_of_the_chunks(model: Seq<char>, chunks: Seq<JsonModel>, i: int)
    requires
        i < chunks.len(),
        0 <= i ==> chunk_usage(chunks[i]) is Some,
        forall|j: int|
            0 <= j < chunks.len() && i < j ==> chunk_usage(#[trigger] chunks[j]) is None,
    ensures
        ({
            let texts = chunks.map_values(|c: JsonModel| chunk_text(c)).flatten();
            let calls = chunks.map_values(|c: JsonModel| chunk_calls(c)).flatten();
            let opened = seq![FrameModel::LlmResponseStart] + texts;
            let called = if calls.len() == 0 {
                opened
            } else {
                opened.push(
                    FrameModel::FunctionCallsStarted(
                        finished_calls(add_calls(Map::empty(), calls)),
                    ),
                )
            };
            &&& i < 0 ==> framed(model, chunks) == called.push(FrameModel::LlmResponseEnd)
            &&& 0 <= i ==> framed(model, chunks) == called.push(
                FrameModel::Metrics(
                    seq![
                        MetricsModel::LlmUsage {
                            processor: "openai"@,
                            model: Some(model),
                            tokens: chunk_usage(chunks[i])->0,
                        },
                    ],
                ),
            ).push(FrameModel::LlmResponseEnd)
        }),
{
    lemma_all_text_flat(chunks);
    let calls = all_calls(chunks);
    let acc = add_calls(Map::empty(), calls);
    law_calls_are_reported(calls);
    let opened = seq![FrameModel::LlmResponseStart] + all_text(chunks);
    let called = opened + calls_report(acc);
    if calls.len() == 0 {
        assert(called =~= opened);
    } else {
        assert(called =~= opened.push(FrameModel::FunctionCallsStarted(finished_calls(acc))));
    }
    let end = FrameModel::LlmResponseEnd;
    if 0 <= i {
        lemma_last_usage_at(chunks, i);
        let metric = FrameModel::Metrics(
            seq![
                MetricsModel::LlmUsage {
                    processor: "openai"@,
                    model: Some(model),
                    tokens: chunk_usage(chunks[i])->0,
                },
            ],
        );
        assert(usage_report(model, last_usage(chunks)) =~= seq![metric]);
        assert(framed(model, chunks) =~= called.push(metric).push(end));
    } else {
        law_last_usage(chunks);
        if last_usage(chunks) is Some {
            let usage = last_usage(chunks)->0;
            let k = choose|k: int|
                0 <= k < chunks.len() && #[trigger] chunk_usage(chunks[k]) == Some(usage);
            assert(chunk_usage(chunks[k]) is None);
        }
        assert(framed(model, chunks) =~= called.push(end));
    }
}

/// What is received of a response is what its pieces hold, one behind the other, up to the first
/// that reports an error; of that one and of what follows it, nothing.
pub proof fn law_pieces_are_received<E>(pieces: Seq<Result<Vec<u8>, E>>, n: nat)
    requires
        n <= pieces.len(),
        forall|i: int| 0 <= i < n ==> (#[trigger] pieces[i]) is Ok,
        n < pieces.len() ==> pieces[n as int] is Err,
    ensures
        received(pieces) == Seq::new(n, |i: int| lossy_text(pieces[i]->Ok_0@)).flatten(),
        received_bytes(pieces) == Seq::new(n, |i: int| pieces[i]->Ok_0@).flatten(),
    decreases n,
{
    let texts = Seq::new(n, |i: int| lossy_text(pieces[i]->Ok_0@));
    let bytes = Seq::new(n, |i: int| pieces[i]->Ok_0@);
    if n > 0 {
        let rest = pieces.drop_first();
        let m = (n - 1) as nat;
        law_pieces_are_received(rest, m);
        assert(texts.drop_first() =~= Seq::new(m, |i: int| lossy_text(rest[i]->Ok_0@)));
        assert(bytes.drop_first() =~= Seq::new(m, |i: int| rest[i]->Ok_0@));
        assert(pieces[0] is Ok);
    } else {
        assert(texts.flatten() =~= Seq::<char>::empty());
        assert(bytes.flatten() =~= Seq::<u8>::empty());
    }
}

} // verus!
