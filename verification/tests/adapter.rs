// The adapter state machine, driven the way the runtime glue drives it: the
// in-memory writer here is the adapter's own `Vec<u8>` writer, and each
// "partial write" appends some prefix of the pending item's suffix to it
// before reporting the count back through `poll_flush_buffer`.

use tokio_into_sink::{Action, ByteData, IntoSink, IntoSinkExt};

/// One cooperative partial write: the writer accepts exactly `n` bytes of
/// the pending item's unwritten suffix.
fn accept_some(sink: &mut IntoSink<Vec<u8>, Vec<u8>>, n: usize) -> bool {
    let chunk: Vec<u8> = {
        let cursor = sink.buffer.as_ref().expect("an item must be pending");
        let rest = cursor.remaining();
        assert!(n <= rest.len());
        rest[..n].to_vec()
    };
    sink.writer.extend_from_slice(&chunk);
    sink.poll_flush_buffer(n)
}

/// Drain the pending item, if any, with a fully cooperative writer, the way
/// a ready check does.
fn drain_fully(sink: &mut IntoSink<Vec<u8>, Vec<u8>>) {
    while sink.has_pending() {
        let len: usize = {
            let cursor = sink.buffer.as_ref().expect("an item must be pending");
            cursor.remaining().len()
        };
        accept_some(sink, len);
    }
}

#[test]
fn test() {
    let v: Vec<u8> = Vec::new();
    let mut sink: IntoSink<Vec<u8>, Vec<u8>> = v.into_sink();
    for word in ["hello", "world"] {
        drain_fully(&mut sink);
        assert!(!sink.has_pending());
        sink.start_send(word.as_bytes().to_vec());
    }
    drain_fully(&mut sink);
    assert!(matches!(sink.close_step(), Action::Shutdown));
    assert_eq!(sink.writer, b"helloworld".to_vec());
}

#[test]
fn fresh_adapter_is_empty() {
    let sink: IntoSink<Vec<u8>, Vec<u8>> = vec![9u8].into_sink();
    assert!(!sink.has_pending());
    assert_eq!(sink.writer, vec![9u8]);
    assert!(matches!(sink.ready_step(), Action::Accept));
}

#[test]
fn partial_write_resumes_at_offset() {
    let mut sink: IntoSink<Vec<u8>, Vec<u8>> = Vec::new().into_sink();
    sink.start_send(b"abcdef".to_vec());

    let drained = accept_some(&mut sink, 2);
    assert!(!drained);
    let cursor = sink.buffer.as_ref().expect("still pending");
    assert_eq!(cursor.offset, 2);
    assert_eq!(cursor.remaining(), b"cdef");

    let drained = accept_some(&mut sink, 3);
    assert!(!drained);
    assert_eq!(sink.buffer.as_ref().expect("still pending").remaining(), b"f");

    let drained = accept_some(&mut sink, 1);
    assert!(drained);
    assert!(!sink.has_pending());
    assert_eq!(sink.writer, b"abcdef".to_vec());
}

#[test]
fn zero_byte_write_changes_nothing() {
    let mut sink: IntoSink<Vec<u8>, Vec<u8>> = Vec::new().into_sink();
    sink.start_send(b"xy".to_vec());
    let drained = accept_some(&mut sink, 0);
    assert!(!drained);
    let cursor = sink.buffer.as_ref().expect("still pending");
    assert_eq!(cursor.offset, 0);
    assert_eq!(cursor.remaining(), b"xy");
    assert!(sink.writer.is_empty());
}

#[test]
fn empty_item_drains_on_empty_write() {
    let mut sink: IntoSink<Vec<u8>, Vec<u8>> = Vec::new().into_sink();
    sink.start_send(Vec::new());
    assert!(sink.has_pending());
    assert_eq!(sink.buffer.as_ref().expect("pending").remaining(), b"");
    let drained = accept_some(&mut sink, 0);
    assert!(drained);
    assert!(sink.writer.is_empty());
}

#[test]
fn drain_comes_before_flush_and_shutdown() {
    let mut sink: IntoSink<Vec<u8>, Vec<u8>> = Vec::new().into_sink();
    assert!(matches!(sink.flush_step(), Action::Flush));
    assert!(matches!(sink.close_step(), Action::Shutdown));
    sink.start_send(b"data".to_vec());
    assert!(matches!(sink.ready_step(), Action::Write));
    assert!(matches!(sink.flush_step(), Action::Write));
    assert!(matches!(sink.close_step(), Action::Write));
    drain_fully(&mut sink);
    assert!(matches!(sink.flush_step(), Action::Flush));
    assert!(matches!(sink.close_step(), Action::Shutdown));
    assert_eq!(sink.writer, b"data".to_vec());
}

#[test]
fn writer_failure_leaves_pending_item_resumable() {
    let mut sink: IntoSink<Vec<u8>, Vec<u8>> = Vec::new().into_sink();
    sink.start_send(b"abcde".to_vec());
    accept_some(&mut sink, 3);
    // The writer now fails: the glue propagates the error without touching
    // the adapter, so the offset still counts only confirmed bytes.
    let cursor = sink.buffer.as_ref().expect("item kept after a failure");
    assert_eq!(cursor.offset, 3);
    assert_eq!(cursor.remaining(), b"de");
    assert_eq!(sink.writer, b"abc".to_vec());
    // A later retry resumes exactly where the writer left off.
    drain_fully(&mut sink);
    assert_eq!(sink.writer, b"abcde".to_vec());
}

#[test]
fn bytes_view_of_vec_is_its_content() {
    let item: Vec<u8> = vec![1u8, 2u8, 3u8];
    assert_eq!(item.bytes(), &[1u8, 2u8, 3u8]);
}
