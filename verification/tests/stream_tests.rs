//! End-to-end tests of the streaming core: reassembly, decoding, and the
//! orchestrator's state machine, fed byte chunks split at awkward places.

use lumos::encode::{OutboundRecord, ResponseShape};
use lumos::orchestrate::StreamOrchestrator;

fn drive(shape: ResponseShape, chunks: &[&[u8]]) -> Vec<OutboundRecord> {
    let mut orch = StreamOrchestrator::new(String::from("deepseek-chat"), shape);
    let mut out: Vec<OutboundRecord> = Vec::new();
    for chunk in chunks {
        let mut recs = orch.push_chunk(chunk);
        out.append(&mut recs);
    }
    out
}

const STREAM: &str = "data: {\"choices\":[{\"delta\":{\"content\":\"Bei\"}}]}\n\ndata: {\"choices\":[{\"delta\":{\"content\":\"jing\"}}]}\n\ndata: [DONE]\n\n";

#[test]
fn three_records_single_chunk() {
    let recs = drive(ResponseShape::Generate, &[STREAM.as_bytes()]);
    assert_eq!(recs.len(), 3);
    assert!(!recs[0].done);
    assert_eq!(recs[0].content, "Bei");
    assert!(!recs[1].done);
    assert_eq!(recs[1].content, "jing");
    assert!(recs[2].done);
    assert_eq!(recs[2].content, "");
    for rec in &recs {
        assert_eq!(rec.model, "deepseek-chat");
        assert!(!rec.created_at.is_empty());
    }
}

#[test]
fn three_records_arbitrary_splits() {
    let bytes = STREAM.as_bytes();
    for first in [1usize, 7, 20, 48, 50] {
        for second in [first + 1, first + 3, bytes.len() - 2] {
            if second <= first || second >= bytes.len() {
                continue;
            }
            let chunks: [&[u8]; 3] = [&bytes[..first], &bytes[first..second], &bytes[second..]];
            let recs = drive(ResponseShape::Generate, &chunks);
            assert_eq!(recs.len(), 3, "split at {} and {}", first, second);
            assert_eq!(recs[0].content, "Bei");
            assert_eq!(recs[1].content, "jing");
            assert!(recs[2].done);
        }
    }
}

#[test]
fn byte_by_byte_delivery() {
    let bytes = STREAM.as_bytes();
    let chunks: Vec<&[u8]> = bytes.chunks(1).collect();
    let recs = drive(ResponseShape::Chat, &chunks);
    assert_eq!(recs.len(), 3);
    assert_eq!(recs[0].content, "Bei");
    assert_eq!(recs[1].content, "jing");
    assert!(recs[2].done);
}

#[test]
fn delimiter_split_across_chunks() {
    let a = b"data: {\"choices\":[{\"delta\":{\"content\":\"hello\"}}]}\n";
    let b = b"\ndata: [DONE]\n\n";
    let recs = drive(ResponseShape::Generate, &[a, b]);
    assert_eq!(recs.len(), 2);
    assert_eq!(recs[0].content, "hello");
    assert!(!recs[0].done);
    assert!(recs[1].done);
}

#[test]
fn upstream_hangs_up_without_done() {
    let only_delta = b"data: {\"choices\":[{\"delta\":{\"content\":\"partial\"}}]}\n\n";
    let recs = drive(ResponseShape::Generate, &[only_delta.as_slice()]);
    assert_eq!(recs.len(), 1);
    assert!(!recs[0].done);
    assert_eq!(recs[0].content, "partial");
    // the stream simply ends: no terminal record was ever produced
}

#[test]
fn trailing_partial_frame_is_discarded() {
    let recs = drive(
        ResponseShape::Generate,
        &[b"data: {\"choices\":[{\"delta\":{\"content\":\"whole\"}}]}\n\ndata: {\"choi".as_slice()],
    );
    assert_eq!(recs.len(), 1);
    assert_eq!(recs[0].content, "whole");
}

#[test]
fn duplicate_terminals_emit_one_done_record() {
    let recs = drive(
        ResponseShape::Chat,
        &[b"data: [DONE]\n\ndata: [DONE]\n\ndata: [DONE]\n\n".as_slice()],
    );
    assert_eq!(recs.len(), 1);
    assert!(recs[0].done);
}

#[test]
fn no_emission_after_terminal() {
    let recs = drive(
        ResponseShape::Chat,
        &[
            b"data: [DONE]\n\n".as_slice(),
            b"data: {\"choices\":[{\"delta\":{\"content\":\"late\"}}]}\n\n".as_slice(),
        ],
    );
    assert_eq!(recs.len(), 1);
    assert!(recs[0].done);
}

#[test]
fn done_record_is_always_last() {
    let mixed =
        b"data: {\"choices\":[{\"delta\":{\"content\":\"a\"}}]}\n\ndata: [DONE]\n\ndata: {\"choices\":[{\"delta\":{\"content\":\"b\"}}]}\n\n";
    let recs = drive(ResponseShape::Generate, &[mixed.as_slice()]);
    assert_eq!(recs.len(), 2);
    assert!(!recs[0].done);
    assert!(recs[1].done);
    for (i, rec) in recs.iter().enumerate() {
        if rec.done {
            assert_eq!(i, recs.len() - 1);
        }
    }
}

#[test]
fn empty_and_missing_deltas_are_suppressed() {
    let input = b"data: {\"choices\":[{\"delta\":{\"content\":\"\"}}]}\n\ndata: {\"choices\":[{\"delta\":{}}]}\n\ndata: {\"choices\":[]}\n\ndata: [DONE]\n\n";
    let recs = drive(ResponseShape::Generate, &[input.as_slice()]);
    assert_eq!(recs.len(), 1);
    assert!(recs[0].done);
}

#[test]
fn malformed_json_and_comments_are_ignored() {
    let input = b"data: {not json\n\n: keep-alive comment\n\n\n\ndata: {\"choices\":[{\"delta\":{\"content\":\"ok\"}}]}\n\n";
    let recs = drive(ResponseShape::Generate, &[input.as_slice()]);
    assert_eq!(recs.len(), 1);
    assert_eq!(recs[0].content, "ok");
}

#[test]
fn shape_fidelity_in_emitted_records() {
    let bytes = b"data: {\"choices\":[{\"delta\":{\"content\":\"x\"}}]}\n\ndata: [DONE]\n\n";
    let chat = drive(ResponseShape::Chat, &[bytes.as_slice()]);
    for rec in &chat {
        assert_eq!(rec.shape, ResponseShape::Chat);
        let line = rec.render();
        assert!(line.contains("\"message\""));
        assert!(!line.contains("\"response\""));
    }
    let generate = drive(ResponseShape::Generate, &[bytes.as_slice()]);
    for rec in &generate {
        assert_eq!(rec.shape, ResponseShape::Generate);
        let line = rec.render();
        assert!(line.contains("\"response\""));
        assert!(!line.contains("\"message\""));
    }
}

#[test]
fn rendered_stream_is_well_formed_ndjson() {
    let recs = drive(ResponseShape::Chat, &[STREAM.as_bytes()]);
    for rec in recs {
        let line = rec.render();
        assert!(line.ends_with('\n'));
        assert_eq!(line.matches('\n').count(), 1);
        let parsed: serde_json::Value = serde_json::from_str(line.trim_end()).unwrap();
        assert_eq!(parsed["model"].as_str().unwrap(), "deepseek-chat");
        if rec.done {
            assert_eq!(parsed["done"], serde_json::Value::Bool(true));
            assert_eq!(parsed["eval_count"].as_i64().unwrap(), 259);
        } else {
            assert_eq!(parsed["done"], serde_json::Value::Bool(false));
            assert_eq!(
                parsed["message"]["content"].as_str().unwrap(),
                rec.content.as_str()
            );
        }
    }
}

#[test]
fn invalid_utf8_bytes_do_not_abort_the_stream() {
    let mut input: Vec<u8> = Vec::new();
    input.extend_from_slice(&[0xff, 0xfe, 0x0a, 0x0a]);
    input.extend_from_slice(b"data: {\"choices\":[{\"delta\":{\"content\":\"after\"}}]}\n\n");
    let recs = drive(ResponseShape::Generate, &[input.as_slice()]);
    assert_eq!(recs.len(), 1);
    assert_eq!(recs[0].content, "after");
}
