use p2p::framing::{FrameBuffer, OutBuffer};

#[test]
fn no_delimiter_yields_no_frame() {
    let mut buf = FrameBuffer::new();
    let frames = buf.feed(b"partial frame without end");
    assert!(frames.is_empty());
    assert_eq!(buf.pending_len(), 25);
}

#[test]
fn bytes_after_last_delimiter_survive_across_reads() {
    let mut buf = FrameBuffer::new();
    let frames = buf.feed(b"first\nsecond half ");
    assert_eq!(frames.len(), 1);
    assert_eq!(frames[0], b"first".to_vec());
    // the tail is retained and completed by the next read
    let frames = buf.feed(b"done\n");
    assert_eq!(frames.len(), 1);
    assert_eq!(frames[0], b"second half done".to_vec());
    assert_eq!(buf.pending_len(), 0);
}

#[test]
fn several_frames_in_one_read_come_out_in_order() {
    let mut buf = FrameBuffer::new();
    let frames = buf.feed(b"a\nbb\nccc\nrest");
    assert_eq!(frames.len(), 3);
    assert_eq!(frames[0], b"a".to_vec());
    assert_eq!(frames[1], b"bb".to_vec());
    assert_eq!(frames[2], b"ccc".to_vec());
    assert_eq!(buf.pending_len(), 4);
}

#[test]
fn empty_frames_are_possible() {
    let mut buf = FrameBuffer::new();
    let frames = buf.feed(b"\n\nx\n");
    assert_eq!(frames.len(), 3);
    assert!(frames[0].is_empty());
    assert!(frames[1].is_empty());
    assert_eq!(frames[2], b"x".to_vec());
}

#[test]
fn byte_by_byte_feeding_reassembles_the_frame() {
    let mut buf = FrameBuffer::new();
    let wire = b"hello world\n";
    let mut all = Vec::new();
    for b in wire {
        let mut frames = buf.feed(&[*b]);
        all.append(&mut frames);
    }
    assert_eq!(all.len(), 1);
    assert_eq!(all[0], b"hello world".to_vec());
}

#[test]
fn outbound_buffer_appends_and_pops_a_prefix() {
    let mut out = OutBuffer::new();
    assert!(out.is_empty());
    out.queue(b"abc");
    out.queue(b"def");
    assert_eq!(out.pending(), b"abcdef");
    out.mark_written(2);
    assert_eq!(out.pending(), b"cdef");
    out.mark_written(4);
    assert!(out.is_empty());
}
