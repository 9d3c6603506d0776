use wayland_core::net::{MessageBuffer, NetClient, NetError, DATA_BUFFER_SIZE};
use wayland_core::wire::{MessageHeader, RawMessage};

#[test]
fn buffer_overflow_with_pending_partial_frame() {
    let mut c = NetClient::new();
    // a partial frame sits buffered
    c.receive(&[1, 0, 0, 0, 1, 0], &[]).unwrap();
    // an arrival that would overflow the bound is refused whole
    let big = vec![0u8; DATA_BUFFER_SIZE];
    match c.receive(&big, &[]) {
        Err(NetError::BufferFull) => {},
        _ => panic!("expected BufferFull"),
    }
    // the partial frame is still there, untouched
    assert_eq!(c.in_buffer.data.len(), 6);
}

#[test]
fn extract_waits_for_a_complete_frame() {
    let mut c = NetClient::new();
    c.receive(&[1, 0, 0, 0, 1, 0, 12, 0], &[]).unwrap();
    // header promises 12 bytes; only 8 arrived
    assert!(matches!(c.try_extract(0), Ok(None)));
    c.receive(&[2, 0, 0, 0], &[]).unwrap();
    let m = c.try_extract(0).unwrap().unwrap();
    assert_eq!(m.header, MessageHeader { sender: 1, opcode: 1, msg_size: 12 });
    assert!(m.header.msg_size >= 8);
    assert_eq!(m.data.len(), (m.header.msg_size - 8) as usize);
    assert_eq!(m.data, vec![2, 0, 0, 0]);
}

#[test]
fn undersized_frame_is_invalid() {
    let mut c = NetClient::new();
    // size=4 undercuts its own header
    c.receive(&[1, 0, 0, 0, 0, 0, 4, 0], &[]).unwrap();
    match c.try_extract(0) {
        Err(NetError::InvalidMessage) => {},
        _ => panic!("expected InvalidMessage"),
    }
}

#[test]
fn extract_waits_for_descriptors() {
    let mut c = NetClient::new();
    c.receive(&[1, 0, 0, 0, 0, 0, 8, 0], &[]).unwrap();
    assert!(matches!(c.try_extract(1), Ok(None)));
    c.receive(&[], &[7]).unwrap();
    let m = c.try_extract(1).unwrap().unwrap();
    assert_eq!(m.fds, vec![7]);
}

#[test]
fn outbound_queue_is_bounded() {
    let mut c = NetClient::new();
    let frame = RawMessage {
        header: MessageHeader { sender: 1, opcode: 0, msg_size: 8 },
        data: vec![0u8; DATA_BUFFER_SIZE],
        fds: vec![],
    };
    match c.queue_message(frame) {
        Err(NetError::BufferFull) => {},
        _ => panic!("expected BufferFull"),
    }
    let small = RawMessage {
        header: MessageHeader { sender: 1, opcode: 0, msg_size: 8 },
        data: vec![],
        fds: vec![],
    };
    c.queue_message(small).unwrap();
    let got = c.take_outgoing().unwrap();
    assert_eq!(got.header.sender, 1);
    assert!(c.take_outgoing().is_none());
}

#[test]
fn buffer_advance_keeps_the_rest() {
    let mut b = MessageBuffer::new();
    b.append(&[1, 2, 3, 4, 5], &[9, 8]).unwrap();
    let (head, fds) = b.advance(3, 1);
    assert_eq!(head, vec![1, 2, 3]);
    assert_eq!(fds, vec![9]);
    assert_eq!(b.data, vec![4, 5]);
    assert_eq!(b.fds, vec![8]);
}

#[test]
fn outbound_descriptors_are_bounded() {
    let mut c = NetClient::new();
    let frame = RawMessage {
        header: MessageHeader { sender: 1, opcode: 0, msg_size: 8 },
        data: vec![],
        fds: vec![0; 17],
    };
    match c.queue_message(frame) {
        Err(NetError::BufferFull) => {},
        _ => panic!("expected BufferFull"),
    }
}

#[test]
fn partial_sends_keep_the_tail_staged() {
    let mut c = NetClient::new();
    let frame = RawMessage {
        header: MessageHeader { sender: 1, opcode: 0, msg_size: 12 },
        data: vec![9, 8, 7, 6],
        fds: vec![5],
    };
    c.queue_message(frame).unwrap();
    assert!(c.stage_outgoing());
    // the staged bytes are the header followed by the payload
    assert_eq!(c.pending.data.len(), 12);
    assert_eq!(&c.pending.data[8..], &[9, 8, 7, 6]);
    assert_eq!(c.pending.fds, vec![5]);
    // a partial send of 5 bytes leaves the 7-byte tail staged
    c.consume_sent(5, 1);
    assert_eq!(c.pending.data.len(), 7);
    assert!(c.stage_outgoing());
    assert_eq!(c.pending.data.len(), 7);
    c.consume_sent(7, 0);
    assert!(!c.stage_outgoing());
}
