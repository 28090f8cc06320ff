//! Stream orchestration: the one-way state machine `Streaming -> Terminated`
//! that turns decoded events into outbound records. It owns the single
//! source of truth for "have we terminated": at most one terminal record is
//! ever emitted, it is the last record, and nothing is emitted after it,
//! even if the upstream repeats its sentinel or keeps sending deltas.

use vstd::prelude::*;
use vstd::string::*;

use crate::decode::{
    decode_event, decode_unit, event_units, lemma_units_snoc, unit_of_frame, units_of_frames,
    utf8_lossy, DecodedEvent, EventSpec,
};
use crate::encode::{OutboundRecord, RecAbs, ResponseShape};
use crate::frame::{find_delim, lemma_tail_bytes_no_delim, raw_frames, tail_bytes, FrameBuffer};
use crate::text::trim_str;

verus! {

/// Per-request stream state: whether the terminal record has been emitted.
/// One orchestrator owns one state; it is never shared across requests.
pub struct StreamState {
    pub terminated: bool,
}

/// What the state machine produced: the records to emit, in order, and the
/// state afterwards.
pub struct MachineOut {
    pub recs: Seq<RecAbs>,
    pub terminated: bool,
}

/// One transition: while streaming, a delta emits a `done:false` record, the
/// terminal sentinel emits the one `done:true` record and terminates, and an
/// ignorable event emits nothing; once terminated, every event is discarded.
pub open spec fn step_event(shape: ResponseShape, terminated: bool, ev: EventSpec) -> MachineOut {
    if terminated {
        MachineOut { recs: Seq::empty(), terminated: true }
    } else {
        match ev {
            EventSpec::Delta(c) => MachineOut {
                recs: seq![RecAbs { done: false, shape, content: c }],
                terminated: false,
            },
            EventSpec::Terminal => MachineOut {
                recs: seq![RecAbs { done: true, shape, content: Seq::empty() }],
                terminated: true,
            },
            EventSpec::Ignorable => MachineOut { recs: Seq::empty(), terminated: false },
        }
    }
}

/// The machine run over a sequence of events.
pub open spec fn run_events(shape: ResponseShape, terminated: bool, evs: Seq<EventSpec>)
    -> MachineOut
    decreases evs.len(),
{
    if evs.len() == 0 {
        MachineOut { recs: Seq::empty(), terminated }
    } else {
        let first = step_event(shape, terminated, evs[0]);
        let rest = run_events(shape, first.terminated, evs.skip(1));
        MachineOut { recs: first.recs + rest.recs, terminated: rest.terminated }
    }
}

/// The decoded classification of each event unit, in order.
pub open spec fn decoded_events(units: Seq<Seq<char>>) -> Seq<EventSpec> {
    units.map_values(|u: Seq<char>| decode_unit(u))
}

/// The machine run over the decoded events of a sequence of units.
pub open spec fn run_units(shape: ResponseShape, terminated: bool, units: Seq<Seq<char>>)
    -> MachineOut {
    run_events(shape, terminated, decoded_events(units))
}

/// The abstract contents of a sequence of outbound records.
pub open spec fn abs_of(recs: Seq<OutboundRecord>) -> Seq<RecAbs> {
    recs.map_values(|r: OutboundRecord| r.abs())
}

/// Running the machine is compositional over event concatenation.
pub proof fn lemma_run_events_concat(
    shape: ResponseShape,
    terminated: bool,
    a: Seq<EventSpec>,
    b: Seq<EventSpec>,
)
    ensures
        ({
            let first = run_events(shape, terminated, a);
            let whole = run_events(shape, terminated, a + b);
            let rest = run_events(shape, first.terminated, b);
            whole.recs == first.recs + rest.recs && whole.terminated == rest.terminated
        }),
    decreases a.len(),
{
    if a.len() == 0 {
        assert(a + b =~= b);
        assert(run_events(shape, terminated, a).recs + run_events(shape, terminated, b).recs
            =~= run_events(shape, terminated, b).recs);
    } else {
        assert((a + b)[0] == a[0]);
        assert((a + b).skip(1) =~= a.skip(1) + b);
        let first = step_event(shape, terminated, a[0]);
        lemma_run_events_concat(shape, first.terminated, a.skip(1), b);
        let ra = run_events(shape, first.terminated, a.skip(1));
        let rb = run_events(shape, run_events(shape, terminated, a).terminated, b);
        assert(first.recs + (ra.recs + rb.recs) =~= (first.recs + ra.recs) + rb.recs);
    }
}

/// Appending one event appends its step's records.
pub proof fn lemma_run_events_snoc(
    shape: ResponseShape,
    terminated: bool,
    evs: Seq<EventSpec>,
    ev: EventSpec,
)
    ensures
        ({
            let prev = run_events(shape, terminated, evs);
            let last = step_event(shape, prev.terminated, ev);
            let whole = run_events(shape, terminated, evs.push(ev));
            whole.recs == prev.recs + last.recs && whole.terminated == last.terminated
        }),
{
    assert(evs.push(ev) =~= evs + seq![ev]);
    lemma_run_events_concat(shape, terminated, evs, seq![ev]);
    let prev = run_events(shape, terminated, evs);
    assert(seq![ev].skip(1) =~= Seq::<EventSpec>::empty());
    let last = step_event(shape, prev.terminated, ev);
    assert(run_events(shape, last.terminated, seq![ev].skip(1)).recs == Seq::<RecAbs>::empty());
    assert(run_events(shape, prev.terminated, seq![ev]).recs =~= last.recs);
}

/// No emission after terminal: a terminated machine emits nothing, whatever
/// arrives, and stays terminated.
pub proof fn lemma_no_emission_after_terminal(shape: ResponseShape, evs: Seq<EventSpec>)
    ensures
        run_events(shape, true, evs).recs == Seq::<RecAbs>::empty(),
        run_events(shape, true, evs).terminated,
    decreases evs.len(),
{
    if evs.len() > 0 {
        lemma_no_emission_after_terminal(shape, evs.skip(1));
        assert(Seq::<RecAbs>::empty() + Seq::<RecAbs>::empty() =~= Seq::<RecAbs>::empty());
    }
}

/// Content deltas arriving after the terminal sentinel are never encoded:
/// everything past the first terminal event leaves the output unchanged.
pub proof fn lemma_deltas_after_terminal_dropped(
    shape: ResponseShape,
    before: Seq<EventSpec>,
    after: Seq<EventSpec>,
)
    ensures
        run_events(shape, false, before + seq![EventSpec::Terminal] + after).recs == run_events(
            shape,
            false,
            before + seq![EventSpec::Terminal],
        ).recs,
{
    let upto = before + seq![EventSpec::Terminal];
    assert(upto + after =~= before + seq![EventSpec::Terminal] + after);
    lemma_run_events_concat(shape, false, upto, after);
    assert(upto =~= before.push(EventSpec::Terminal));
    lemma_run_events_snoc(shape, false, before, EventSpec::Terminal);
    assert(run_events(shape, false, upto).terminated);
    lemma_no_emission_after_terminal(shape, after);
    assert(run_events(shape, false, upto).recs + Seq::<RecAbs>::empty() =~= run_events(
        shape,
        false,
        upto,
    ).recs);
}

/// At most one terminal: a run emits at most one `done:true` record, it can
/// only be the last record emitted, and it is emitted exactly when the run
/// ends terminated (having started in the streaming state).
pub proof fn lemma_at_most_one_terminal(shape: ResponseShape, terminated: bool, evs: Seq<EventSpec>)
    ensures
        ({
            let out = run_events(shape, terminated, evs);
            &&& forall|i: int| 0 <= i < out.recs.len() && out.recs[i].done ==> i == out.recs.len()
                - 1
            &&& !out.terminated ==> forall|i: int| 0 <= i < out.recs.len() ==> !out.recs[i].done
            &&& terminated ==> out.terminated
        }),
    decreases evs.len(),
{
    if evs.len() > 0 {
        let first = step_event(shape, terminated, evs[0]);
        lemma_at_most_one_terminal(shape, first.terminated, evs.skip(1));
        let rest = run_events(shape, first.terminated, evs.skip(1));
        if first.terminated && !terminated {
            lemma_no_emission_after_terminal(shape, evs.skip(1));
        }
    }
}

/// When the upstream hangs up without ever sending its terminal sentinel,
/// the run stays in the streaming state and no `done:true` record exists:
/// the stream just ends, distinguishable from a completed one only by the
/// absence of a final terminal record.
pub proof fn lemma_no_terminal_no_done(shape: ResponseShape, evs: Seq<EventSpec>)
    requires
        forall|j: int| 0 <= j < evs.len() ==> !(#[trigger] evs[j] is Terminal),
    ensures
        !run_events(shape, false, evs).terminated,
        forall|i: int|
            0 <= i < run_events(shape, false, evs).recs.len() ==> !run_events(
                shape,
                false,
                evs,
            ).recs[i].done,
    decreases evs.len(),
{
    if evs.len() > 0 {
        assert(forall|j: int| 0 <= j < evs.skip(1).len() ==> evs.skip(1)[j] == evs[j + 1]);
        lemma_no_terminal_no_done(shape, evs.skip(1));
        assert(!(evs[0] is Terminal));
    }
}

/// Shape fidelity: every record a run emits carries the run's configured
/// response shape; chat-shape streams never emit generate-shape records and
/// conversely.
pub proof fn lemma_shape_fidelity(shape: ResponseShape, terminated: bool, evs: Seq<EventSpec>)
    ensures
        forall|i: int|
            0 <= i < run_events(shape, terminated, evs).recs.len() ==> run_events(
                shape,
                terminated,
                evs,
            ).recs[i].shape == shape,
    decreases evs.len(),
{
    if evs.len() > 0 {
        let first = step_event(shape, terminated, evs[0]);
        lemma_shape_fidelity(shape, first.terminated, evs.skip(1));
    }
}

/// Empty-delta suppression, at the machine level: every `done:false` record
/// a run over decoded units emits has non-empty content.
pub proof fn lemma_emitted_deltas_nonempty(
    shape: ResponseShape,
    terminated: bool,
    units: Seq<Seq<char>>,
)
    ensures
        forall|i: int|
            0 <= i < run_units(shape, terminated, units).recs.len() && !run_units(
                shape,
                terminated,
                units,
            ).recs[i].done ==> run_units(shape, terminated, units).recs[i].content.len() > 0,
{
    let evs = decoded_events(units);
    assert(forall|j: int| 0 <= j < evs.len() ==> delta_nonempty(#[trigger] evs[j]));
    lemma_run_deltas_nonempty(shape, terminated, evs);
}

/// A delta event carries non-empty content (trivially true of the others).
pub open spec fn delta_nonempty(ev: EventSpec) -> bool {
    match ev {
        EventSpec::Delta(c) => c.len() > 0,
        _ => true,
    }
}

/// Helper: when every delta event carries non-empty content, so does every
/// `done:false` record of the run.
proof fn lemma_run_deltas_nonempty(shape: ResponseShape, terminated: bool, evs: Seq<EventSpec>)
    requires
        forall|j: int| 0 <= j < evs.len() ==> delta_nonempty(#[trigger] evs[j]),
    ensures
        forall|i: int|
            0 <= i < run_events(shape, terminated, evs).recs.len() && !run_events(
                shape,
                terminated,
                evs,
            ).recs[i].done ==> run_events(shape, terminated, evs).recs[i].content.len() > 0,
    decreases evs.len(),
{
    if evs.len() > 0 {
        let first = step_event(shape, terminated, evs[0]);
        assert(forall|j: int|
            0 <= j < evs.skip(1).len() ==> evs.skip(1)[j] == evs[j + 1]);
        lemma_run_deltas_nonempty(shape, first.terminated, evs.skip(1));
        assert(delta_nonempty(evs[0]));
    }
}

/// Relies on chrono::Utc::now and DateTime::to_rfc3339 for the emission
/// timestamp; the value depends on the clock, so nothing is assumed of it.
#[verifier::external_body]
pub(crate) fn now_rfc3339() -> String {
    chrono::Utc::now().to_rfc3339()
}

/// The event unit of one raw frame: its text, lossily decoded and trimmed.
fn frame_unit(f: &Vec<u8>) -> (u: String)
    ensures
        u@ == unit_of_frame(f@),
{
    let text = utf8_lossy(f.as_slice());
    trim_str(text.as_str())
}

/// One per-request orchestrator: reassembles chunks into frames, decodes
/// them, runs the state machine and builds the outbound records.
pub struct StreamOrchestrator {
    model: String,
    shape: ResponseShape,
    state: StreamState,
    frames: FrameBuffer,
}

impl StreamOrchestrator {
    /// The model name threaded unchanged into every record.
    pub closed spec fn model_view(&self) -> Seq<char> {
        self.model@
    }

    /// The response shape, fixed for the request's lifetime.
    pub closed spec fn shape(&self) -> ResponseShape {
        self.shape
    }

    /// Whether the terminal record has been emitted.
    pub closed spec fn terminated(&self) -> bool {
        self.state.terminated
    }

    /// The unterminated bytes still buffered.
    pub closed spec fn buffered(&self) -> Seq<u8> {
        self.frames@
    }

    /// A fresh orchestrator in the streaming state with an empty buffer.
    pub fn new(model: String, shape: ResponseShape) -> (o: StreamOrchestrator)
        ensures
            o.model_view() == model@,
            o.shape() == shape,
            !o.terminated(),
            o.buffered() == Seq::<u8>::empty(),
    {
        StreamOrchestrator {
            model,
            shape,
            state: StreamState { terminated: false },
            frames: FrameBuffer::new(),
        }
    }

    /// Consumes one transport chunk and returns the records it completes, in
    /// order: exactly the machine run over the decoded units of the newly
    /// completed frames. Every record carries this request's model name and
    /// shape; the timestamps come from the clock and are not constrained.
    pub fn push_chunk(&mut self, chunk: &[u8]) -> (out: Vec<OutboundRecord>)
        ensures
            final(self).model_view() == old(self).model_view(),
            final(self).shape() == old(self).shape(),
            final(self).buffered() == tail_bytes(old(self).buffered() + chunk@),
            ({
                let res = run_units(
                    old(self).shape(),
                    old(self).terminated(),
                    event_units(old(self).buffered() + chunk@),
                );
                abs_of(out@) == res.recs && final(self).terminated() == res.terminated
            }),
            forall|i: int| 0 <= i < out@.len() ==> out@[i].model@ == old(self).model_view(),
    {
        let frames = self.frames.push_chunk(chunk);
        let ghost fseq: Seq<Seq<u8>> = frames@.map_values(|f: Vec<u8>| f@);
        let ghost shape0 = self.shape;
        let ghost t0 = self.state.terminated;
        let ghost model0 = self.model@;

        let mut out: Vec<OutboundRecord> = Vec::new();
        assert(abs_of(out@) =~= run_units(shape0, t0, units_of_frames(fseq.take(0))).recs);
        assert(fseq.take(0) =~= Seq::<Seq<u8>>::empty());

        let n = frames.len();
        let mut idx: usize = 0;
        while idx < n
            invariant
                n == frames.len(),
                idx <= n,
                fseq == frames@.map_values(|f: Vec<u8>| f@),
                self.model@ == model0,
                self.shape == shape0,
                self.frames@ == tail_bytes(old(self).buffered() + chunk@),
                abs_of(out@) == run_units(shape0, t0, units_of_frames(fseq.take(idx as int))).recs,
                self.state.terminated == run_units(
                    shape0,
                    t0,
                    units_of_frames(fseq.take(idx as int)),
                ).terminated,
                forall|i: int| 0 <= i < out@.len() ==> out@[i].model@ == model0,
            decreases n - idx,
        {
            let ghost units_prev = units_of_frames(fseq.take(idx as int));
            let ghost evs_prev = decoded_events(units_prev);
            let unit = frame_unit(&frames[idx]);
            proof {
                assert(fseq[idx as int] == frames@[idx as int]@);
                assert(fseq.take(idx + 1) =~= fseq.take(idx as int).push(fseq[idx as int]));
                lemma_units_snoc(fseq.take(idx as int), fseq[idx as int]);
            }
            if unit.as_str().is_empty() {
                proof {
                    assert(units_of_frames(fseq.take(idx + 1)) =~= units_prev);
                }
            } else {
                let ghost u = unit@;
                proof {
                    assert(units_of_frames(fseq.take(idx + 1)) =~= units_prev.push(u));
                    assert(decoded_events(units_prev.push(u)) =~= evs_prev.push(decode_unit(u)));
                    lemma_run_events_snoc(shape0, t0, evs_prev, decode_unit(u));
                }
                let ev = decode_event(unit.as_str());
                let ghost prev = run_events(shape0, t0, evs_prev);
                match ev {
                    DecodedEvent::ContentDelta(text) => {
                        if !self.state.terminated {
                            let created = now_rfc3339();
                            let rec = OutboundRecord {
                                model: self.model.clone(),
                                created_at: created,
                                shape: self.shape,
                                done: false,
                                content: text,
                            };
                            proof {
                                assert(abs_of(out@.push(rec)) =~= abs_of(out@).push(rec.abs()));
                                assert(prev.recs.push(rec.abs()) =~= prev.recs + step_event(
                                    shape0,
                                    prev.terminated,
                                    decode_unit(u),
                                ).recs);
                            }
                            out.push(rec);
                        } else {
                            proof {
                                assert(prev.recs + step_event(
                                    shape0,
                                    prev.terminated,
                                    decode_unit(u),
                                ).recs =~= prev.recs);
                            }
                        }
                    },
                    DecodedEvent::Terminal => {
                        if !self.state.terminated {
                            let created = now_rfc3339();
                            let rec = OutboundRecord {
                                model: self.model.clone(),
                                created_at: created,
                                shape: self.shape,
                                done: true,
                                content: String::new(),
                            };
                            proof {
                                assert(abs_of(out@.push(rec)) =~= abs_of(out@).push(rec.abs()));
                                assert(prev.recs.push(rec.abs()) =~= prev.recs + step_event(
                                    shape0,
                                    prev.terminated,
                                    decode_unit(u),
                                ).recs);
                            }
                            out.push(rec);
                            self.state.terminated = true;
                        } else {
                            proof {
                                assert(prev.recs + step_event(
                                    shape0,
                                    prev.terminated,
                                    decode_unit(u),
                                ).recs =~= prev.recs);
                            }
                        }
                    },
                    DecodedEvent::Ignorable => {
                        proof {
                            assert(prev.recs + step_event(
                                shape0,
                                prev.terminated,
                                decode_unit(u),
                            ).recs =~= prev.recs);
                        }
                    },
                }
            }
            idx = idx + 1;
        }
        proof {
            assert(fseq.take(n as int) =~= fseq);
        }
        out
    }
}

/// The records of a whole session, had the byte stream arrived in one piece.
pub open spec fn session_records(shape: ResponseShape, bytes: Seq<u8>) -> Seq<RecAbs> {
    run_units(shape, false, event_units(bytes)).recs
}

/// At most one terminal, for a whole byte stream: however the upstream
/// framed its events, the session's records carry at most one `done:true`,
/// and only as the last record.
pub proof fn lemma_session_at_most_one_terminal(shape: ResponseShape, bytes: Seq<u8>)
    ensures
        forall|i: int|
            0 <= i < session_records(shape, bytes).len() && session_records(
                shape,
                bytes,
            )[i].done ==> i == session_records(shape, bytes).len() - 1,
{
    lemma_at_most_one_terminal(shape, false, decoded_events(event_units(bytes)));
}

/// The machine output of pushing a sequence of chunks one at a time through
/// an orchestrator whose buffer starts as `rest`.
pub open spec fn orchestrated(
    shape: ResponseShape,
    rest: Seq<u8>,
    terminated: bool,
    chunks: Seq<Seq<u8>>,
) -> MachineOut
    decreases chunks.len(),
{
    if chunks.len() == 0 {
        MachineOut { recs: Seq::empty(), terminated }
    } else {
        let first = run_units(shape, terminated, event_units(rest + chunks[0]));
        let rest_out = orchestrated(
            shape,
            tail_bytes(rest + chunks[0]),
            first.terminated,
            chunks.skip(1),
        );
        MachineOut { recs: first.recs + rest_out.recs, terminated: rest_out.terminated }
    }
}

/// The whole pipeline is chunk-boundary invariant: pushing chunks one at a
/// time emits exactly the records of the concatenated byte stream. Together
/// with the laws above, at-most-one-terminal and no-emission-after-terminal
/// hold across an entire multi-chunk session.
pub proof fn lemma_session_invariance(
    shape: ResponseShape,
    rest: Seq<u8>,
    terminated: bool,
    chunks: Seq<Seq<u8>>,
)
    requires
        find_delim(rest) is None,
    ensures
        ({
            let whole = run_units(shape, terminated, event_units(rest + chunks.flatten()));
            orchestrated(shape, rest, terminated, chunks).recs == whole.recs && orchestrated(
                shape,
                rest,
                terminated,
                chunks,
            ).terminated == whole.terminated
        }),
    decreases chunks.len(),
{
    if chunks.len() == 0 {
        assert(chunks.flatten() =~= Seq::<u8>::empty());
        assert(rest + chunks.flatten() =~= rest);
        assert(raw_frames(rest) == Seq::<Seq<u8>>::empty());
        assert(units_of_frames(Seq::<Seq<u8>>::empty()) == Seq::<Seq<char>>::empty());
        assert(decoded_events(Seq::<Seq<char>>::empty()) =~= Seq::<EventSpec>::empty());
    } else {
        assert(chunks.flatten() =~= chunks[0] + chunks.skip(1).flatten()) by {
            assert(chunks =~= seq![chunks[0]] + chunks.skip(1));
            vstd::seq_lib::lemma_flatten_concat(seq![chunks[0]], chunks.skip(1));
            assert(seq![chunks[0]].flatten() =~= chunks[0] + Seq::<u8>::empty());
        }
        assert(rest + chunks.flatten() =~= (rest + chunks[0]) + chunks.skip(1).flatten());
        crate::frame::lemma_frames_compose(rest + chunks[0], chunks.skip(1).flatten());
        crate::decode::lemma_units_concat(
            raw_frames(rest + chunks[0]),
            raw_frames(tail_bytes(rest + chunks[0]) + chunks.skip(1).flatten()),
        );
        let ua = units_of_frames(raw_frames(rest + chunks[0]));
        let ub = units_of_frames(
            raw_frames(tail_bytes(rest + chunks[0]) + chunks.skip(1).flatten()),
        );
        assert(decoded_events(ua + ub) =~= decoded_events(ua) + decoded_events(ub));
        lemma_run_events_concat(shape, terminated, decoded_events(ua), decoded_events(ub));
        lemma_tail_bytes_no_delim(rest + chunks[0]);
        lemma_session_invariance(
            shape,
            tail_bytes(rest + chunks[0]),
            run_units(shape, terminated, ua).terminated,
            chunks.skip(1),
        );
    }
}

} // verus!
