use wayland_core::interface::InterfaceTitle;
use wayland_core::wire::{
    ArgumentDesc, ArgumentType, DynArgument, DynArgumentReader, DynMessage, MessageHeader,
    ParseRawError, RawMessage, RawMessageReader, SerializeRawError,
};

fn desc(t: ArgumentType, iface: Option<&str>, null: bool) -> ArgumentDesc {
    ArgumentDesc { arg_type: t, interface: iface.map(String::from), allow_null: null }
}

#[test]
fn header_round_trip() {
    let h = MessageHeader { sender: 1, opcode: 1, msg_size: 12 };
    let b = h.to_bytes();
    assert_eq!(b, vec![1, 0, 0, 0, 1, 0, 12, 0]);
    let h2 = MessageHeader::from_bytes(&b).unwrap();
    assert_eq!(h, h2);
    assert!(MessageHeader::from_bytes(&b[..7]).is_err());
}

#[test]
fn encode_then_decode_identity() {
    let descs = vec![
        desc(ArgumentType::Int, None, false),
        desc(ArgumentType::Uint, None, false),
        desc(ArgumentType::String, None, false),
        desc(ArgumentType::Object, None, true),
        desc(ArgumentType::Array, None, false),
        desc(ArgumentType::Fd, None, false),
        desc(ArgumentType::NewId, Some("wl_surface"), false),
        desc(ArgumentType::NewId, None, false),
    ];
    let args = vec![
        DynArgument::Int(-5),
        DynArgument::Uint(7),
        DynArgument::String(Some(b"hi\0".to_vec())),
        DynArgument::Object(None),
        DynArgument::Array(vec![1, 2, 3]),
        DynArgument::Fd(42),
        DynArgument::NewId(9, None),
        DynArgument::NewId(4, Some(InterfaceTitle::new(String::from("wl_shm"), 1))),
    ];
    let (data, fds) = DynMessage::serialize_raw_args(&args).unwrap();
    assert_eq!(fds, vec![42]);
    let raw = RawMessage {
        header: MessageHeader { sender: 3, opcode: 0, msg_size: (data.len() + 8) as u16 },
        data: data.clone(),
        fds,
    };
    let reader = RawMessageReader::new(&raw);
    let parsed = DynMessage::parse_dyn_args(&descs, reader).unwrap();
    assert_eq!(parsed.len(), args.len());
    match &parsed[0] {
        DynArgument::Int(v) => assert_eq!(*v, -5),
        _ => panic!("wrong kind"),
    }
    match &parsed[2] {
        DynArgument::String(Some(v)) => assert_eq!(v, b"hi\0"),
        _ => panic!("wrong kind"),
    }
    match &parsed[7] {
        DynArgument::NewId(id, Some(t)) => {
            assert_eq!(*id, 4);
            assert_eq!(t.name, "wl_shm");
            assert_eq!(t.version, 1);
        },
        _ => panic!("wrong kind"),
    }
    // decode-then-encode reproduces the payload exactly
    let (data2, fds2) = DynMessage::serialize_raw_args(&parsed).unwrap();
    assert_eq!(data2, data);
    assert_eq!(fds2, vec![42]);
}

#[test]
fn message_too_long_is_rejected() {
    let args = vec![DynArgument::Array(vec![0u8; 70000])];
    let msg = DynMessage::new(1, 0, args);
    match msg.into_raw() {
        Err(SerializeRawError::MessageTooLong) => {},
        _ => panic!("expected MessageTooLong"),
    }
}

#[test]
fn string_without_nul_is_refused() {
    let raw = RawMessage {
        header: MessageHeader { sender: 1, opcode: 0, msg_size: 16 },
        data: vec![2, 0, 0, 0, b'h', b'i', 0xAA, 0xAA],
        fds: vec![],
    };
    let mut reader = RawMessageReader::new(&raw);
    match reader.next_string() {
        Err(ParseRawError::StringNotNulTerminated) => {},
        _ => panic!("expected StringNotNulTerminated"),
    }
}

#[test]
fn short_payload_and_frame_errors() {
    let raw = RawMessage {
        header: MessageHeader { sender: 1, opcode: 0, msg_size: 10 },
        data: vec![1, 0],
        fds: vec![],
    };
    let mut reader = RawMessageReader::new(&raw);
    match reader.next_uint() {
        Err(ParseRawError::ShortPayload) => {},
        _ => panic!("expected ShortPayload"),
    }
    let raw2 = RawMessage {
        header: MessageHeader { sender: 1, opcode: 0, msg_size: 12 },
        data: vec![200, 0, 0, 0],
        fds: vec![],
    };
    let mut r2 = RawMessageReader::new(&raw2);
    match r2.next_array() {
        Err(ParseRawError::LengthExceedsFrame) => {},
        _ => panic!("expected LengthExceedsFrame"),
    }
    let mut r3 = RawMessageReader::new(&raw2);
    match r3.next_fd() {
        Err(ParseRawError::MissingFd) => {},
        _ => panic!("expected MissingFd"),
    }
}

#[test]
fn fd_queue_is_consumed_in_schema_order() {
    let descs = vec![
        desc(ArgumentType::Fd, None, false),
        desc(ArgumentType::Uint, None, false),
        desc(ArgumentType::Fd, None, false),
    ];
    let raw = RawMessage {
        header: MessageHeader { sender: 1, opcode: 0, msg_size: 12 },
        data: vec![9, 0, 0, 0],
        fds: vec![5, 6],
    };
    let reader = RawMessageReader::new(&raw);
    let parsed = DynMessage::parse_dyn_args(&descs, reader).unwrap();
    match (&parsed[0], &parsed[2]) {
        (DynArgument::Fd(a), DynArgument::Fd(b)) => {
            assert_eq!(*a, 5);
            assert_eq!(*b, 6);
        },
        _ => panic!("wrong kinds"),
    }
}

#[test]
fn argument_type_names_round_trip() {
    let all = [
        ArgumentType::Int,
        ArgumentType::Uint,
        ArgumentType::Fixed,
        ArgumentType::String,
        ArgumentType::Object,
        ArgumentType::NewId,
        ArgumentType::Array,
        ArgumentType::Fd,
    ];
    for t in all {
        assert_eq!(ArgumentType::from_str(t.to_string()), Some(t));
    }
    assert_eq!(ArgumentType::from_str("bogus"), None);
    assert_eq!(ArgumentType::from_bytes(b"new_id"), Some(ArgumentType::NewId));
}

#[test]
fn dyn_argument_reader_checks_kinds() {
    let mut r = DynArgumentReader::from_args(vec![DynArgument::Uint(3)]);
    assert!(r.next_int().is_err());
    let mut r2 = DynArgumentReader::from_args(vec![]);
    assert!(r2.next_uint().is_err());
    let mut r3 = DynArgumentReader::from_args(vec![DynArgument::Uint(3)]);
    assert_eq!(r3.next_uint().unwrap(), 3);
}

#[test]
fn fixed_values_keep_their_raw_word() {
    let descs = vec![desc(ArgumentType::Fixed, None, false)];
    let args = vec![DynArgument::Fixed(wayland_core::wire::Fixed(0x0001_8040))];
    let (data, _fds) = DynMessage::serialize_raw_args(&args).unwrap();
    let raw = RawMessage {
        header: MessageHeader { sender: 1, opcode: 0, msg_size: 12 },
        data,
        fds: vec![],
    };
    let parsed = DynMessage::parse_dyn_args(&descs, RawMessageReader::new(&raw)).unwrap();
    match &parsed[0] {
        DynArgument::Fixed(f) => assert_eq!(f.0, 0x0001_8040),
        _ => panic!("wrong kind"),
    }
}

#[test]
fn interface_names_on_the_wire_must_be_well_formed() {
    // a dynamic new id whose name carries an embedded NUL is refused
    let mut data = vec![6, 0, 0, 0];
    data.extend_from_slice(b"a\0b\0");
    data.extend_from_slice(&[0, 0]); // padding to 32 bits
    data.extend_from_slice(&1u32.to_le_bytes());
    data.extend_from_slice(&9u32.to_le_bytes());
    let raw = RawMessage {
        header: MessageHeader { sender: 1, opcode: 0, msg_size: (data.len() + 8) as u16 },
        data,
        fds: vec![],
    };
    let mut reader = RawMessageReader::new(&raw);
    match reader.next_new_id_anonymous() {
        Err(ParseRawError::InvalidString) => {},
        _ => panic!("expected InvalidString"),
    }
}
