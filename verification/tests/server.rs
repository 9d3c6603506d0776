use wayland_core::interface::DynInterface;
use wayland_core::server::{Client, DispatchAction, GlobalInfo, Server, ServerError};
use wayland_core::wire::{ArgumentDesc, ArgumentType, DynArgument, MessageHeader, RawMessage};

// a small shared-memory-style interface: one request taking a new id, a
// descriptor and a size, and one event carrying a format word
fn wl_shm_like() -> DynInterface {
    let create_pool = vec![
        ArgumentDesc {
            arg_type: ArgumentType::NewId,
            interface: Some(String::from("wl_shm_pool")),
            allow_null: false,
        },
        ArgumentDesc { arg_type: ArgumentType::Fd, interface: None, allow_null: false },
        ArgumentDesc { arg_type: ArgumentType::Int, interface: None, allow_null: false },
    ];
    let format = vec![ArgumentDesc {
        arg_type: ArgumentType::Uint,
        interface: None,
        allow_null: false,
    }];
    DynInterface::new(String::from("wl_shm"), 1, vec![create_pool], vec![format])
}

// build a frame with the given sender/opcode and payload words
fn frame(sender: u32, opcode: u16, payload: Vec<u8>) -> RawMessage {
    RawMessage {
        header: MessageHeader { sender, opcode, msg_size: (payload.len() + 8) as u16 },
        data: payload,
        fds: vec![],
    }
}

fn le32(v: u32) -> Vec<u8> {
    v.to_le_bytes().to_vec()
}

#[test]
fn bootstrap_get_registry_advertises_every_global() {
    let mut server: Server<u32> = Server::new(0);
    let name = server.register_global(wl_shm_like());
    assert_eq!(name, 1);
    let idx = server.accept_client();
    // inbound: sender=1, opcode=1 (get_registry), new_id=2
    let raw = frame(1, 1, le32(2));
    let action = server.handle_client_message(idx, &raw).unwrap();
    assert!(matches!(action, DispatchAction::Handled));
    let c = &server.clients[idx];
    assert_eq!(c.registry_id, Some(2));
    assert_eq!(c.net.out_queue.len(), 1);
    let ev = &c.net.out_queue[0];
    assert_eq!(ev.header.sender, 2);
    assert_eq!(ev.header.opcode, 0);
    // name, then the interface string (length-prefixed, NUL, padded), then version
    let mut expect = le32(1);
    expect.extend_from_slice(&le32(7));
    expect.extend_from_slice(b"wl_shm\0");
    expect.push(0);
    expect.extend_from_slice(&le32(1));
    assert_eq!(ev.data, expect);
}

#[test]
fn globals_registered_after_connect_are_advertised_too() {
    let mut server: Server<u32> = Server::new(0);
    let idx = server.accept_client();
    let raw = frame(1, 1, le32(2));
    server.handle_client_message(idx, &raw).unwrap();
    assert_eq!(server.clients[idx].net.out_queue.len(), 0);
    server.register_global(wl_shm_like());
    assert_eq!(server.clients[idx].net.out_queue.len(), 1);
}

#[test]
fn sync_creates_callback_emits_done_and_retires_it() {
    let mut server: Server<u32> = Server::new(0);
    let idx = server.accept_client();
    // sender=1, opcode=0 (sync), new_id=3
    let raw = frame(1, 0, le32(3));
    let action = server.handle_client_message(idx, &raw).unwrap();
    assert!(matches!(action, DispatchAction::Handled));
    {
        let c = &server.clients[idx];
        assert_eq!(c.net.out_queue.len(), 1);
        let done = &c.net.out_queue[0];
        assert_eq!(done.header.sender, 3);
        assert_eq!(done.header.opcode, 0);
        assert_eq!(done.data, le32(1));
    }
    let (reaped, err) = server.sweep_client(idx);
    assert!(err.is_none());
    assert_eq!(reaped.len(), 1);
    assert_eq!(reaped[0].id, 3);
    let c = &server.clients[idx];
    assert_eq!(c.net.out_queue.len(), 2);
    let del = &c.net.out_queue[1];
    assert_eq!(del.header.sender, 1);
    assert_eq!(del.header.opcode, 1);
    assert_eq!(del.data, le32(3));
    // the slot is freed: only the display remains
    assert_eq!(c.objects.objects.len(), 1);
}

#[test]
fn bind_resolves_the_global_and_installs_the_object() {
    let mut server: Server<u32> = Server::new(0);
    let name = server.register_global(wl_shm_like());
    let idx = server.accept_client();
    server.handle_client_message(idx, &frame(1, 1, le32(2))).unwrap();
    // bind: name, interface string, version, id
    let mut payload = le32(name);
    payload.extend_from_slice(&le32(7));
    payload.extend_from_slice(b"wl_shm\0");
    payload.push(0);
    payload.extend_from_slice(&le32(1));
    payload.extend_from_slice(&le32(4));
    let action = server.handle_client_message(idx, &frame(2, 0, payload)).unwrap();
    match action {
        DispatchAction::BindGlobal { name: n, id, interface } => {
            assert_eq!(n, name);
            assert_eq!(id, 4);
            assert_eq!(interface, "wl_shm");
        },
        _ => panic!("expected BindGlobal"),
    }
    // a request on the bound object reaches the embedder, fd attached
    let mut pool = le32(5);
    pool.extend_from_slice(&le32(4096));
    let mut raw = frame(4, 0, pool);
    raw.fds = vec![11];
    let action = server.handle_client_message(idx, &raw).unwrap();
    match action {
        DispatchAction::CallHandler { object, interface, opcode, args } => {
            assert_eq!(object, 4);
            assert_eq!(interface, "wl_shm");
            assert_eq!(opcode, 0);
            assert_eq!(args.len(), 3);
            assert!(matches!(args[1], DynArgument::Fd(11)));
        },
        _ => panic!("expected CallHandler"),
    }
}

#[test]
fn client_chosen_ids_in_the_server_range_are_refused() {
    let mut server: Server<u32> = Server::new(0);
    let idx = server.accept_client();
    let raw = frame(1, 0, le32(0xFF000001));
    match server.handle_client_message(idx, &raw) {
        Err(ServerError::InvalidId) => {},
        _ => panic!("expected InvalidId"),
    }
}

#[test]
fn unknown_sender_and_unknown_opcode_are_refused() {
    let mut server: Server<u32> = Server::new(0);
    let idx = server.accept_client();
    match server.handle_client_message(idx, &frame(9, 0, le32(2))) {
        Err(ServerError::RequestReceiverDoesntExist) => {},
        _ => panic!("expected RequestReceiverDoesntExist"),
    }
    match server.handle_client_message(idx, &frame(1, 5, le32(2))) {
        Err(ServerError::UnknownOpcode(5)) => {},
        _ => panic!("expected UnknownOpcode"),
    }
}

#[test]
fn destroy_is_idempotent_one_acknowledgement() {
    let mut client = Client::new(1);
    // create a callback via sync so there is something to destroy
    let globals: Vec<GlobalInfo> = vec![];
    let raw = frame(1, 0, le32(3));
    client.handle_message(&raw, &globals, 7).unwrap();
    // the sync already marked id 3; marking it again changes nothing
    client.destroy(3);
    client.destroy(3);
    let (reaped, err) = client.sweep();
    assert!(err.is_none());
    assert_eq!(reaped.len(), 1);
    // one done event, then exactly one delete_id
    assert_eq!(client.net.out_queue.len(), 2);
    assert_eq!(client.net.out_queue[1].data, le32(3));
    // sweeping again does nothing
    let (again, _) = client.sweep();
    assert_eq!(again.len(), 0);
    assert_eq!(client.net.out_queue.len(), 2);
}

#[test]
fn ids_are_never_doubled_up() {
    let mut client = Client::new(1);
    let globals: Vec<GlobalInfo> = vec![];
    client.handle_message(&frame(1, 0, le32(3)), &globals, 7).unwrap();
    // a second new_id with the same id is refused
    match client.handle_message(&frame(1, 0, le32(3)), &globals, 8) {
        Err(ServerError::InvalidId) => {},
        _ => panic!("expected the id to be refused"),
    }
}

#[test]
fn retired_ids_never_come_back() {
    let mut client = Client::new(1);
    let globals: Vec<GlobalInfo> = vec![];
    client.handle_message(&frame(1, 0, le32(3)), &globals, 7).unwrap();
    let (reaped, err) = client.sweep();
    assert!(err.is_none());
    assert_eq!(reaped.len(), 1);
    // id 3 is retired now: even though no live object bears it, it is gone
    match client.handle_message(&frame(1, 0, le32(3)), &globals, 8) {
        Err(ServerError::InvalidId) => {},
        _ => panic!("expected the retired id to be refused"),
    }
}

#[test]
fn events_sent_before_destroy_precede_the_acknowledgement() {
    let mut client = Client::new(1);
    let globals: Vec<GlobalInfo> = vec![];
    client.handle_message(&frame(1, 0, le32(3)), &globals, 7).unwrap();
    // a handler-sent event while id 3 is destroy-pending
    client.net.queue_message(frame(3, 0, le32(99))).unwrap();
    let (_, sweep_err) = client.sweep();
    assert!(sweep_err.is_none());
    let q = &client.net.out_queue;
    assert_eq!(q.len(), 3);
    assert_eq!(q[1].data, le32(99));
    assert_eq!(q[2].header.opcode, 1);
    assert_eq!(q[2].data, le32(3));
}

#[test]
fn one_client_fault_does_not_touch_another() {
    let mut server: Server<u32> = Server::new(0);
    let a = server.accept_client();
    let b = server.accept_client();
    // client a speaks garbage: a frame whose size undercuts the header
    let bad = server.clients[a].net.receive(&[1, 0, 0, 0, 0, 0, 4, 0], &[]);
    assert!(bad.is_ok());
    {
        let ca = &mut server.clients[a];
        assert!(matches!(
            ca.net.try_extract(0),
            Err(wayland_core::net::NetError::InvalidMessage)
        ));
    }
    let dropped = server.handle_client_disconnect(a);
    assert_eq!(dropped.len(), 1);
    // client b still works
    let idx = b - 1;
    let action = server.handle_client_message(idx, &frame(1, 1, le32(2))).unwrap();
    assert!(matches!(action, DispatchAction::Handled));
}

#[test]
fn disconnect_hands_back_every_object() {
    let mut server: Server<u32> = Server::new(0);
    let idx = server.accept_client();
    server.handle_client_message(idx, &frame(1, 1, le32(2))).unwrap();
    let objs = server.handle_client_disconnect(idx);
    assert_eq!(objs.len(), 2);
    assert_eq!(server.clients.len(), 0);
}

#[test]
fn serials_count_up() {
    let mut server: Server<u32> = Server::new(0);
    assert_eq!(server.next_serial(), 1);
    assert_eq!(server.next_serial(), 2);
    let idx = server.accept_client();
    server.handle_client_message(idx, &frame(1, 0, le32(3))).unwrap();
    // the sync spent serial 3
    assert_eq!(server.next_serial(), 4);
}
