use vstd::prelude::*;

use crate::interface::{DynInterface, InterfaceTitleView};
use crate::net::{NetClient, NetError};
use crate::object::{find_idx, object_map_wf, Object, ObjectMap};
use vstd::bytes::spec_u32_to_le_bytes;

use crate::wire::{
    args_writable, parse_list, ser_arg, ser_args, ArgumentDesc, ArgumentType, DynArgument,
    DynArgumentView, DynMessage, MessageHeader, ParseRawError, RawMessage, RawMessageReader,
    ReaderState,
};

verus! {

/// The embedder's own state, carried into every handler.
pub struct State<S> {
    pub inner: S,
}

impl<S> State<S> {
    pub fn new(state: S) -> (r: Self)
        ensures
            r.inner == state,
    {
        State { inner: state }
    }

    pub fn get(&self) -> (r: &S)
        ensures
            *r == self.inner,
    {
        &self.inner
    }

    pub fn get_mut(&mut self) -> (r: &mut S)
        ensures
            *final(r) == final(self).inner,
    {
        &mut self.inner
    }
}

/// A registered global: its monotonically assigned name and the interface
/// it advertises.
pub struct GlobalInfo {
    pub name: u32,
    pub interface: DynInterface,
}

/// Why handling an inbound frame failed for its client.
#[derive(Debug)]
pub enum ServerError {
    NetError(NetError),
    InvalidArguments(ParseRawError),
    RequestReceiverDoesntExist,
    UnknownOpcode(u16),
    InvalidId,
    SendFailed,
}

/// Why an event could not be sent.
#[derive(Debug)]
pub enum SendEventError {
    SerializeFailure,
    ClientMissing,
    SenderMissing,
    Transport(NetError),
}

/// What the loop must do after one inbound frame was handled: nothing more,
/// hand a typed request to the embedder's handler, or attach a freshly
/// bound global's implementation.
#[derive(Debug)]
pub enum DispatchAction {
    Handled,
    CallHandler { object: u32, interface: String, opcode: u16, args: Vec<DynArgument> },
    BindGlobal { name: u32, id: u32, interface: String },
    GlobalNotFound { name: u32 },
}

/// First id of the range the server allocates from; a client may not pick
/// ids here.
pub const SERVER_ID_BASE: u32 = 0xFF000000;

/// One connected client: its transport state, its object table, and the id
/// of its registry once bound. Its display always lives at id 1.
pub struct Client {
    pub id: u64,
    pub net: NetClient,
    pub objects: ObjectMap,
    pub registry_id: Option<u32>,
}

pub open spec fn client_wf(c: Client) -> bool {
    &&& crate::net::net_client_wf(c.net)
    &&& object_map_wf(c.objects)
}

/// The display schema: two requests (a callback new id, a registry new id)
/// and two events (error, delete id).
pub fn wl_display_interface() -> (r: DynInterface)
    ensures
        r@.name == "wl_display"@,
        r@.version == 1,
        r@.requests.len() == 2,
        r@.requests[0].len() == 1,
        r@.requests[0][0].arg_type == ArgumentType::NewId,
        r@.requests[0][0].interface is Some,
        r@.requests[1].len() == 1,
        r@.requests[1][0].arg_type == ArgumentType::NewId,
        r@.requests[1][0].interface is Some,
        r@.events.len() == 2,
        r@.events[1].len() == 1,
        r@.events[1][0].arg_type == ArgumentType::Uint,
{
    let mut sync_args: Vec<ArgumentDesc> = Vec::new();
    sync_args.push(
        ArgumentDesc {
            arg_type: ArgumentType::NewId,
            interface: Some("wl_callback".to_owned()),
            allow_null: false,
        },
    );
    let mut registry_args: Vec<ArgumentDesc> = Vec::new();
    registry_args.push(
        ArgumentDesc {
            arg_type: ArgumentType::NewId,
            interface: Some("wl_registry".to_owned()),
            allow_null: false,
        },
    );
    let mut requests: Vec<Vec<ArgumentDesc>> = Vec::new();
    requests.push(sync_args);
    requests.push(registry_args);
    let mut error_args: Vec<ArgumentDesc> = Vec::new();
    error_args.push(
        ArgumentDesc { arg_type: ArgumentType::Object, interface: None, allow_null: false },
    );
    error_args.push(
        ArgumentDesc { arg_type: ArgumentType::Uint, interface: None, allow_null: false },
    );
    error_args.push(
        ArgumentDesc { arg_type: ArgumentType::String, interface: None, allow_null: false },
    );
    let mut delete_id_args: Vec<ArgumentDesc> = Vec::new();
    delete_id_args.push(
        ArgumentDesc { arg_type: ArgumentType::Uint, interface: None, allow_null: false },
    );
    let mut events: Vec<Vec<ArgumentDesc>> = Vec::new();
    events.push(error_args);
    events.push(delete_id_args);
    DynInterface::new("wl_display".to_owned(), 1, requests, events)
}

/// The callback schema: no requests, one `done` event.
pub fn wl_callback_interface() -> (r: DynInterface)
    ensures
        r@.name == "wl_callback"@,
        r@.version == 1,
        r@.requests.len() == 0,
        r@.events.len() == 1,
{
    let requests: Vec<Vec<ArgumentDesc>> = Vec::new();
    let mut done_args: Vec<ArgumentDesc> = Vec::new();
    done_args.push(
        ArgumentDesc { arg_type: ArgumentType::Uint, interface: None, allow_null: false },
    );
    let mut events: Vec<Vec<ArgumentDesc>> = Vec::new();
    events.push(done_args);
    DynInterface::new("wl_callback".to_owned(), 1, requests, events)
}

/// The registry schema: one `bind` request (numeric name plus a dynamic
/// new id), two events (global, global remove).
pub fn wl_registry_interface() -> (r: DynInterface)
    ensures
        r@.name == "wl_registry"@,
        r@.version == 1,
        r@.requests.len() == 1,
        r@.requests[0].len() == 2,
        r@.requests[0][0].arg_type == ArgumentType::Uint,
        r@.requests[0][1].arg_type == ArgumentType::NewId,
        r@.requests[0][1].interface is None,
        r@.events.len() == 2,
{
    let mut bind_args: Vec<ArgumentDesc> = Vec::new();
    bind_args.push(
        ArgumentDesc { arg_type: ArgumentType::Uint, interface: None, allow_null: false },
    );
    bind_args.push(
        ArgumentDesc { arg_type: ArgumentType::NewId, interface: None, allow_null: false },
    );
    let mut requests: Vec<Vec<ArgumentDesc>> = Vec::new();
    requests.push(bind_args);
    let mut global_args: Vec<ArgumentDesc> = Vec::new();
    global_args.push(
        ArgumentDesc { arg_type: ArgumentType::Uint, interface: None, allow_null: false },
    );
    global_args.push(
        ArgumentDesc { arg_type: ArgumentType::String, interface: None, allow_null: false },
    );
    global_args.push(
        ArgumentDesc { arg_type: ArgumentType::Uint, interface: None, allow_null: false },
    );
    let mut remove_args: Vec<ArgumentDesc> = Vec::new();
    remove_args.push(
        ArgumentDesc { arg_type: ArgumentType::Uint, interface: None, allow_null: false },
    );
    let mut events: Vec<Vec<ArgumentDesc>> = Vec::new();
    events.push(global_args);
    events.push(remove_args);
    DynInterface::new("wl_registry".to_owned(), 1, requests, events)
}

/// The frame that acknowledges a destroyed object: a `delete_id` event from
/// the display.
pub open spec fn is_delete_id_frame(m: RawMessage, id: u32) -> bool {
    &&& m.header == (MessageHeader { sender: 1u32, opcode: 1u16, msg_size: 12u16 })
    &&& m.data@ == spec_u32_to_le_bytes(id)
    &&& m.fds@.len() == 0
}

/// The dynamic arguments of a `wl_registry.global` advertisement.
pub open spec fn global_event_args(name: u32, t: InterfaceTitleView) -> Seq<DynArgumentView> {
    seq![
        DynArgumentView::Uint(name),
        DynArgumentView::String(Some(vstd::utf8::encode_utf8(t.name) + seq![0u8])),
        DynArgumentView::Uint(t.version),
    ]
}

/// A `wl_registry.global` advertisement for one global.
pub open spec fn is_global_event_frame(m: RawMessage, registry: u32, name: u32, t: InterfaceTitleView) -> bool {
    &&& m.header.sender == registry
    &&& m.header.opcode == 0
    &&& m.data@ == ser_args(global_event_args(name, t)).0
    &&& m.fds@.len() == 0
}

/// Why a `wl_registry.global` advertisement cannot join the given queue:
/// its payload cannot be framed, or the frame would push the queue past its
/// byte bound.
pub open spec fn global_event_send_blocked(q: Seq<RawMessage>, name: u32, t: InterfaceTitleView) -> bool {
    ||| !crate::wire::args_lens_ok(global_event_args(name, t))
    ||| ser_args(global_event_args(name, t)).0.len() + 8 > u16::MAX
    ||| crate::net::queue_bytes(q) + 8 + ser_args(global_event_args(name, t)).0.len()
        > crate::net::DATA_BUFFER_SIZE
}

/// The reader state a frame's payload and descriptors open with.
pub open spec fn raw_reader_state(raw: RawMessage) -> ReaderState {
    ReaderState { data: raw.data@, pos: 0, fds: raw.fds@, next_fd: 0 }
}

/// The new id a request carries when its arguments are exactly one
/// statically typed new id.
pub open spec fn single_new_id_val(vals: Seq<DynArgumentView>) -> Option<u32> {
    if vals.len() == 1 {
        match vals[0] {
            DynArgumentView::NewId(n, t) => if t is None {
                Some(n)
            } else {
                None
            },
            _ => None,
        }
    } else {
        None
    }
}

/// The numeric name and new id a bind request carries.
pub open spec fn bind_vals(vals: Seq<DynArgumentView>) -> Option<(u32, u32)> {
    if vals.len() == 2 {
        match (vals[0], vals[1]) {
            (DynArgumentView::Uint(name), DynArgumentView::NewId(id, t)) => if t is Some {
                Some((name, id))
            } else {
                None
            },
            _ => None,
        }
    } else {
        None
    }
}

/// Position of the first global bearing the given numeric name.
pub open spec fn first_global_idx(globals: Seq<GlobalInfo>, name: u32) -> Option<int>
    decreases globals.len(),
{
    if globals.len() == 0 {
        None
    } else if globals[0].name == name {
        Some(0)
    } else {
        match first_global_idx(globals.drop_first(), name) {
            Some(g) => Some(g + 1),
            None => None,
        }
    }
}

/// Nothing observable of the client moved: same table, same registry, same
/// outbound queue.
pub open spec fn client_unchanged(pre: Client, post: Client) -> bool {
    &&& post.objects == pre.objects
    &&& post.registry_id == pre.registry_id
    &&& post.net.out_queue@ == pre.net.out_queue@
}

/// What serving a sync request means: for a fresh client-range id, the
/// callback object exists destroy-pending and exactly one `done` event with
/// the minted serial joins the queue — or the full queue is reported, with
/// nothing changed; a bad id or shape is refused.
pub open spec fn sync_handled(
    pre: Client,
    post: Client,
    vals: Seq<DynArgumentView>,
    serial: u32,
    r: Result<(DispatchAction, bool), ServerError>,
) -> bool {
    match single_new_id_val(vals) {
        None => r matches Err(ServerError::InvalidArguments(_)) && client_unchanged(pre, post),
        Some(n) => {
            if n < SERVER_ID_BASE && crate::object::id_fresh(pre.objects, n) {
                match r {
                    Ok((DispatchAction::Handled, used)) => {
                        &&& used
                        &&& post.net.out_queue@.len() == pre.net.out_queue@.len() + 1
                        &&& post.net.out_queue@.drop_last() == pre.net.out_queue@
                        &&& is_done_frame(post.net.out_queue@.last(), n, serial)
                        &&& post.objects.objects@.len() == pre.objects.objects@.len() + 1
                        &&& post.objects.objects@.take(pre.objects.objects@.len() as int)
                            == pre.objects.objects@
                        &&& post.objects.objects@.last().id == n
                        &&& post.objects.objects@.last().interface@.name == "wl_callback"@
                        &&& post.objects.objects@.last().destroy
                        &&& post.registry_id == pre.registry_id
                    },
                    Err(ServerError::NetError(e)) => {
                        &&& e == NetError::BufferFull
                        &&& crate::net::queue_bytes(pre.net.out_queue@) + 12
                            > crate::net::DATA_BUFFER_SIZE
                        &&& client_unchanged(pre, post)
                    },
                    _ => false,
                }
            } else {
                r == Err::<(DispatchAction, bool), ServerError>(ServerError::InvalidId)
                    && client_unchanged(pre, post)
            }
        },
    }
}

/// What serving a get_registry request means: for a fresh client-range id,
/// the registry object exists and is remembered, and either every
/// registered global was advertised to it, exactly one event each in
/// registration order, or the failure is reported.
pub open spec fn get_registry_handled(
    pre: Client,
    post: Client,
    vals: Seq<DynArgumentView>,
    globals: Seq<GlobalInfo>,
    r: Result<(DispatchAction, bool), ServerError>,
) -> bool {
    match single_new_id_val(vals) {
        None => r matches Err(ServerError::InvalidArguments(_)) && client_unchanged(pre, post),
        Some(n) => {
            if n < SERVER_ID_BASE && crate::object::id_fresh(pre.objects, n) {
                &&& post.objects.objects@.len() == pre.objects.objects@.len() + 1
                &&& post.objects.objects@.take(pre.objects.objects@.len() as int)
                    == pre.objects.objects@
                &&& post.objects.objects@.last().id == n
                &&& post.objects.objects@.last().interface@.name == "wl_registry"@
                &&& !post.objects.objects@.last().destroy
                &&& post.registry_id == Some(n)
                &&& match r {
                    Ok((DispatchAction::Handled, used)) => {
                        &&& !used
                        &&& post.net.out_queue@.len() == pre.net.out_queue@.len() + globals.len()
                        &&& forall|k: int|
                            0 <= k < globals.len() ==> is_global_event_frame(
                                #[trigger] post.net.out_queue@[pre.net.out_queue@.len() + k],
                                n,
                                globals[k].name,
                                InterfaceTitleView {
                                    name: globals[k].interface@.name,
                                    version: globals[k].interface@.version,
                                },
                            )
                    },
                    Err(ServerError::SendFailed) => true,
                    _ => false,
                }
            } else {
                r == Err::<(DispatchAction, bool), ServerError>(ServerError::InvalidId)
                    && client_unchanged(pre, post)
            }
        },
    }
}

/// What serving a bind request means: the named global is resolved first
/// match; a fresh client-range id gains an object carrying the global's
/// whole interface, so later requests on it parse against its schema.
pub open spec fn bind_handled(
    pre: Client,
    post: Client,
    vals: Seq<DynArgumentView>,
    globals: Seq<GlobalInfo>,
    r: Result<(DispatchAction, bool), ServerError>,
) -> bool {
    match bind_vals(vals) {
        None => r matches Err(ServerError::InvalidArguments(_)) && client_unchanged(pre, post),
        Some((name, id)) => match first_global_idx(globals, name) {
            None => {
                &&& r == Ok::<(DispatchAction, bool), ServerError>(
                    (DispatchAction::GlobalNotFound { name }, false),
                )
                &&& client_unchanged(pre, post)
            },
            Some(g) => {
                if id < SERVER_ID_BASE && crate::object::id_fresh(pre.objects, id) {
                    &&& r matches Ok((
                        DispatchAction::BindGlobal { name: rn, id: rid, interface },
                        used,
                    )) && !used && rn == name && rid == id && interface@
                        == globals[g].interface@.name
                    &&& post.objects.objects@.len() == pre.objects.objects@.len() + 1
                    &&& post.objects.objects@.take(pre.objects.objects@.len() as int)
                        == pre.objects.objects@
                    &&& post.objects.objects@.last().id == id
                    &&& post.objects.objects@.last().interface@ == globals[g].interface@
                    &&& !post.objects.objects@.last().destroy
                    &&& post.objects.objects@.last().has_dispatcher
                    &&& post.registry_id == pre.registry_id
                    &&& post.net.out_queue@ == pre.net.out_queue@
                } else {
                    r == Err::<(DispatchAction, bool), ServerError>(ServerError::InvalidId)
                        && client_unchanged(pre, post)
                }
            },
        },
    }
}

/// The whole meaning of handling one inbound frame: an absent sender is
/// exactly the receiver-missing error; an undeclared opcode is exactly the
/// unknown-opcode error; a payload its schema refuses is exactly that parse
/// error; the two built-in interfaces behave as the display's sync and
/// get_registry and the registry's bind say; anything else reaches the
/// embedder untouched, with the parsed arguments.
pub open spec fn message_handled(
    pre: Client,
    post: Client,
    raw: RawMessage,
    globals: Seq<GlobalInfo>,
    serial: u32,
    r: Result<(DispatchAction, bool), ServerError>,
) -> bool {
    &&& post.id == pre.id
    &&& post.net.out_queue@.len() >= pre.net.out_queue@.len()
    &&& post.net.out_queue@.take(pre.net.out_queue@.len() as int) == pre.net.out_queue@
    &&& match find_idx(pre.objects.objects@, raw.header.sender) {
        None => {
            &&& r == Err::<(DispatchAction, bool), ServerError>(
                ServerError::RequestReceiverDoesntExist,
            )
            &&& client_unchanged(pre, post)
        },
        Some(k) => {
            let iface = pre.objects.objects@[k].interface@;
            if raw.header.opcode as int >= iface.requests.len() {
                &&& r == Err::<(DispatchAction, bool), ServerError>(
                    ServerError::UnknownOpcode(raw.header.opcode),
                )
                &&& client_unchanged(pre, post)
            } else {
                match parse_list(
                    iface.requests[raw.header.opcode as int],
                    raw_reader_state(raw),
                ) {
                    Err(e) => {
                        &&& r == Err::<(DispatchAction, bool), ServerError>(
                            ServerError::InvalidArguments(e),
                        )
                        &&& client_unchanged(pre, post)
                    },
                    Ok((vals, _)) => {
                        if iface.name == "wl_display"@ && raw.header.opcode == 0 {
                            sync_handled(pre, post, vals, serial, r)
                        } else if iface.name == "wl_display"@ && raw.header.opcode == 1 {
                            get_registry_handled(pre, post, vals, globals, r)
                        } else if iface.name == "wl_registry"@ && raw.header.opcode == 0 {
                            bind_handled(pre, post, vals, globals, r)
                        } else {
                            &&& client_unchanged(pre, post)
                            &&& r matches Ok((
                                DispatchAction::CallHandler { object, interface, opcode, args },
                                used,
                            )) && !used && object == raw.header.sender && opcode
                                == raw.header.opcode && interface@ == iface.name
                                && args.deep_view() == vals
                        }
                    },
                }
            }
        },
    }
}

/// Exactly one `delete_id` acknowledgement per reaped object joined the
/// queue, in order, after everything queued before.
pub open spec fn delete_frames_appended(
    oldq: Seq<RawMessage>,
    newq: Seq<RawMessage>,
    objs: Seq<Object>,
) -> bool {
    &&& newq.len() == oldq.len() + objs.len()
    &&& newq.take(oldq.len() as int) == oldq
    &&& forall|k: int|
        0 <= k < objs.len() ==> is_delete_id_frame(#[trigger] newq[oldq.len() + k], objs[k].id)
}

/// What one full sweep means: the reaped objects account one-for-one for
/// the table's shrinkage, each was destroy-pending, each got exactly one
/// acknowledgement; when no overflow was reported, nothing destroy-pending
/// remains.
pub open spec fn swept(
    pre: Client,
    post: Client,
    reaped: Seq<Object>,
    err: Option<NetError>,
) -> bool {
    &&& post.registry_id == pre.registry_id
    &&& post.id == pre.id
    &&& post.objects.objects@.len() + reaped.len() == pre.objects.objects@.len()
    &&& delete_frames_appended(pre.net.out_queue@, post.net.out_queue@, reaped)
    &&& forall|k: int| 0 <= k < reaped.len() ==> (#[trigger] reaped[k]).destroy
    &&& err is None ==> crate::object::find_destroy_idx(post.objects.objects@) is None
    &&& err matches Some(e) ==> e == NetError::BufferFull
}

/// What registering a global means for one client: a bound registry either
/// gained exactly one advertisement for it, or the queue is unchanged
/// because the advertisement could not be framed or queued; an unbound
/// client is untouched.
pub open spec fn advertised_to(pre: Client, post: Client, name: u32, t: InterfaceTitleView) -> bool {
    if pre.registry_id is Some {
        &&& post.objects == pre.objects
        &&& post.registry_id == pre.registry_id
        &&& post.id == pre.id
        &&& {
            ||| {
                &&& post.net.out_queue@.len() == pre.net.out_queue@.len() + 1
                &&& post.net.out_queue@.drop_last() == pre.net.out_queue@
                &&& is_global_event_frame(
                    post.net.out_queue@.last(),
                    pre.registry_id.unwrap(),
                    name,
                    t,
                )
            }
            ||| {
                &&& post.net.out_queue@ == pre.net.out_queue@
                &&& global_event_send_blocked(pre.net.out_queue@, name, t)
            }
        }
    } else {
        post == pre
    }
}

proof fn lemma_first_global_at(globals: Seq<GlobalInfo>, name: u32, g: int)
    requires
        0 <= g < globals.len(),
        globals[g].name == name,
        forall|j: int| 0 <= j < g ==> (#[trigger] globals[j]).name != name,
    ensures
        first_global_idx(globals, name) == Some(g),
    decreases globals.len(),
{
    if g > 0 {
        lemma_first_global_at(globals.drop_first(), name, g - 1);
    }
}

proof fn lemma_first_global_none(globals: Seq<GlobalInfo>, name: u32)
    requires
        forall|j: int| 0 <= j < globals.len() ==> (#[trigger] globals[j]).name != name,
    ensures
        first_global_idx(globals, name) is None,
    decreases globals.len(),
{
    if globals.len() > 0 {
        lemma_first_global_none(globals.drop_first(), name);
    }
}

impl Client {
    /// A freshly accepted client: empty buffers, and its display already
    /// living at id 1 before the first byte is read.
    pub fn new(id: u64) -> (r: Client)
        ensures
            client_wf(r),
            r.id == id,
            r.registry_id is None,
            r.objects.objects@.len() == 1,
            r.objects.objects@[0].id == 1,
            r.objects.objects@[0].interface@.name == "wl_display"@,
            r.net.in_buffer.data@.len() == 0,
            r.net.out_queue@.len() == 0,
    {
        let mut objects = ObjectMap::new();
        let display = Object::new(1, wl_display_interface());
        let _added = objects.add(display);
        Client { id, net: NetClient::new(), objects, registry_id: None }
    }

    /// Mark an object destroy-pending; marking twice is marking once, and
    /// nothing else of the client changes.
    pub fn destroy(&mut self, id: u32) -> (r: bool)
        requires
            client_wf(*old(self)),
        ensures
            client_wf(*final(self)),
            final(self).objects.objects@ == crate::object::spec_set_destroy(
                old(self).objects.objects@,
                id,
            ),
            final(self).net == old(self).net,
            final(self).registry_id == old(self).registry_id,
            final(self).id == old(self).id,
            r == (find_idx(old(self).objects.objects@, id) is Some),
    {
        self.objects.set_destroy(id)
    }

    /// Free one destroyed object's slot and acknowledge it: the object
    /// leaves the table and is retired, and exactly one `delete_id` event
    /// for it goes out after every event queued so far. When the outbound
    /// queue cannot take the acknowledgement, the overflow is reported and
    /// nothing happens at all, so no acknowledgement is ever dropped
    /// silently. The returned object is the caller's one chance to run its
    /// destructor.
    pub fn reap(&mut self, id: u32) -> (r: Result<Option<Object>, NetError>)
        requires
            client_wf(*old(self)),
        ensures
            client_wf(*final(self)),
            final(self).registry_id == old(self).registry_id,
            final(self).id == old(self).id,
            final(self).net.in_buffer.data@ == old(self).net.in_buffer.data@,
            final(self).net.in_buffer.fds@ == old(self).net.in_buffer.fds@,
            match r {
                Ok(Some(o)) => {
                    &&& find_idx(old(self).objects.objects@, id) matches Some(k)
                    &&& 0 <= k < old(self).objects.objects@.len()
                    &&& o == old(self).objects.objects@[k]
                    &&& o.id == id
                    &&& final(self).objects.objects@ == old(self).objects.objects@.remove(k)
                    &&& find_idx(final(self).objects.objects@, id) is None
                    &&& final(self).objects.retired@ == old(self).objects.retired@.push(id)
                    &&& final(self).net.out_queue@.len() == old(self).net.out_queue@.len() + 1
                    &&& final(self).net.out_queue@.drop_last() == old(self).net.out_queue@
                    &&& is_delete_id_frame(final(self).net.out_queue@.last(), id)
                },
                Ok(None) => {
                    &&& find_idx(old(self).objects.objects@, id) is None
                    &&& final(self).objects == old(self).objects
                    &&& final(self).net.out_queue@ == old(self).net.out_queue@
                },
                Err(e) => {
                    &&& e == NetError::BufferFull
                    &&& find_idx(old(self).objects.objects@, id) is Some
                    &&& crate::net::queue_bytes(old(self).net.out_queue@) + 12
                        > crate::net::DATA_BUFFER_SIZE
                    &&& final(self).objects == old(self).objects
                    &&& final(self).net.out_queue@ == old(self).net.out_queue@
                },
            },
    {
        if self.objects.find_pos(id).is_none() {
            return Ok(None);
        }
        let mut data: Vec<u8> = Vec::new();
        crate::wire::write_u32(&mut data, id);
        proof {
            assert(data@ =~= spec_u32_to_le_bytes(id));
        }
        let frame = RawMessage {
            header: MessageHeader { sender: 1, opcode: 1, msg_size: 12 },
            data,
            fds: Vec::new(),
        };
        let ghost q0 = self.net.out_queue@;
        match self.net.queue_message(frame) {
            Ok(_) => {},
            Err(e) => {
                proof {
                    assert(crate::net::queue_fds(q0) <= crate::net::FD_BUFFER_SIZE);
                }
                return Err(e);
            },
        }
        proof {
            assert(self.net.out_queue@.drop_last() =~= q0);
        }
        match self.objects.remove(id) {
            Some(o) => Ok(Some(o)),
            None => {
                proof {
                    assert(false);
                }
                Ok(None)
            },
        }
    }

    /// Acknowledge and reap every destroy-pending object until none remains
    /// or the outbound queue cannot take an acknowledgement, which is then
    /// reported. The returned objects are the caller's one chance to run
    /// their destructors.
    pub fn sweep(&mut self) -> (r: (Vec<Object>, Option<NetError>))
        requires
            client_wf(*old(self)),
        ensures
            client_wf(*final(self)),
            final(self).net.in_buffer.data@ == old(self).net.in_buffer.data@,
            final(self).net.in_buffer.fds@ == old(self).net.in_buffer.fds@,
            swept(*old(self), *final(self), r.0@, r.1),
    {
        let mut reaped: Vec<Object> = Vec::new();
        let mut err: Option<NetError> = None;
        let ghost baseq = self.net.out_queue@;
        proof {
            assert(self.net.out_queue@.take(baseq.len() as int) =~= baseq);
        }
        loop
            invariant_except_break
                err is None,
            invariant
                client_wf(*self),
                self.registry_id == old(self).registry_id,
                self.id == old(self).id,
                self.net.in_buffer.data@ == old(self).net.in_buffer.data@,
                self.net.in_buffer.fds@ == old(self).net.in_buffer.fds@,
                baseq == old(self).net.out_queue@,
                self.objects.objects@.len() + reaped@.len() == old(self).objects.objects@.len(),
                delete_frames_appended(baseq, self.net.out_queue@, reaped@),
                forall|k: int| 0 <= k < reaped@.len() ==> (#[trigger] reaped@[k]).destroy,
            ensures
                client_wf(*self),
                self.registry_id == old(self).registry_id,
                self.id == old(self).id,
                self.net.in_buffer.data@ == old(self).net.in_buffer.data@,
                self.net.in_buffer.fds@ == old(self).net.in_buffer.fds@,
                self.objects.objects@.len() + reaped@.len() == old(self).objects.objects@.len(),
                delete_frames_appended(old(self).net.out_queue@, self.net.out_queue@, reaped@),
                forall|k: int| 0 <= k < reaped@.len() ==> (#[trigger] reaped@[k]).destroy,
                err is None ==> crate::object::find_destroy_idx(self.objects.objects@) is None,
                err matches Some(e) ==> e == NetError::BufferFull,
            decreases self.objects.objects@.len(),
        {
            let id = match self.objects.peek_destroy() {
                Some(id) => id,
                None => {
                    break;
                },
            };
            let ghost prevo = self.objects.objects@;
            let ghost prevq = self.net.out_queue@;
            let ghost prevr = reaped@;
            match self.reap(id) {
                Ok(Some(o)) => {
                    proof {
                        let d = crate::object::find_destroy_idx(prevo).unwrap();
                        let k = find_idx(prevo, id).unwrap();
                        if k != d {
                            crate::object::lemma_find_idx_unique(prevo, id, k, d);
                        }
                        assert(o.destroy);
                    }
                    reaped.push(o);
                    proof {
                        assert(reaped@.drop_last() =~= prevr);
                        assert(self.net.out_queue@.drop_last() == prevq);
                        assert forall|k: int|
                            0 <= k < reaped@.len() implies is_delete_id_frame(
                            #[trigger] self.net.out_queue@[baseq.len() + k],
                            reaped@[k].id,
                        ) by {
                            if k < prevr.len() {
                                assert(self.net.out_queue@[baseq.len() + k] == prevq[baseq.len()
                                    + k]);
                                assert(reaped@[k] == prevr[k]);
                                assert(is_delete_id_frame(prevq[baseq.len() + k], prevr[k].id));
                            } else {
                                assert(self.net.out_queue@[baseq.len() + k]
                                    == self.net.out_queue@.last());
                                assert(reaped@[k] == reaped@.last());
                            }
                        }
                        assert(self.net.out_queue@.take(baseq.len() as int) =~= baseq);
                        assert forall|k: int|
                            0 <= k < reaped@.len() implies (#[trigger] reaped@[k]).destroy by {
                            if k < prevr.len() {
                                assert(reaped@[k] == prevr[k]);
                            }
                        }
                    }
                },
                Ok(None) => {
                    proof {
                        assert(false);
                    }
                    break;
                },
                Err(e) => {
                    err = Some(e);
                    break;
                },
            }
        }
        (reaped, err)
    }

    /// Add a client-chosen object. Ids inside the server-allocated range
    /// and ids this client has ever used — live or retired — are refused.
    pub fn add_client_object(&mut self, object: Object) -> (r: Result<(), ServerError>)
        requires
            client_wf(*old(self)),
        ensures
            client_wf(*final(self)),
            final(self).net == old(self).net,
            final(self).registry_id == old(self).registry_id,
            final(self).id == old(self).id,
            match r {
                Ok(_) => {
                    &&& object.id < SERVER_ID_BASE
                    &&& crate::object::id_fresh(old(self).objects, object.id)
                    &&& final(self).objects.objects@ == old(self).objects.objects@.push(object)
                    &&& final(self).objects.retired@ == old(self).objects.retired@
                },
                Err(ServerError::InvalidId) => {
                    &&& object.id >= SERVER_ID_BASE || !crate::object::id_fresh(
                        old(self).objects,
                        object.id,
                    )
                    &&& final(self).objects.objects@ == old(self).objects.objects@
                    &&& final(self).objects.retired@ == old(self).objects.retired@
                },
                Err(_) => false,
            },
    {
        if object.id >= SERVER_ID_BASE {
            return Err(ServerError::InvalidId);
        }
        match self.objects.add(object) {
            Ok(_) => Ok(()),
            Err(_) => Err(ServerError::InvalidId),
        }
    }

    /// Advertise one global to this client's registry: exactly one
    /// `wl_registry.global` event joins the outbound queue.
    pub fn advertise_global(&mut self, name: u32, interface: &DynInterface) -> (r: Result<
        (),
        SendEventError,
    >)
        requires
            client_wf(*old(self)),
            old(self).registry_id is Some,
        ensures
            client_wf(*final(self)),
            final(self).objects == old(self).objects,
            final(self).registry_id == old(self).registry_id,
            final(self).id == old(self).id,
            final(self).net.in_buffer.data@ == old(self).net.in_buffer.data@,
            final(self).net.in_buffer.fds@ == old(self).net.in_buffer.fds@,
            match r {
                Ok(_) => {
                    &&& final(self).net.out_queue@.len() == old(self).net.out_queue@.len() + 1
                    &&& final(self).net.out_queue@.drop_last() == old(self).net.out_queue@
                    &&& is_global_event_frame(
                        final(self).net.out_queue@.last(),
                        old(self).registry_id.unwrap(),
                        name,
                        InterfaceTitleView { name: interface@.name, version: interface@.version },
                    )
                },
                Err(e) => {
                    &&& final(self).net.out_queue@ == old(self).net.out_queue@
                    &&& match e {
                        SendEventError::SerializeFailure => !crate::wire::args_lens_ok(
                            global_event_args(
                                name,
                                InterfaceTitleView {
                                    name: interface@.name,
                                    version: interface@.version,
                                },
                            ),
                        ) || ser_args(
                            global_event_args(
                                name,
                                InterfaceTitleView {
                                    name: interface@.name,
                                    version: interface@.version,
                                },
                            ),
                        ).0.len() + 8 > u16::MAX,
                        SendEventError::Transport(f) => {
                            &&& f == NetError::BufferFull
                            &&& crate::net::queue_bytes(old(self).net.out_queue@) + 8 + ser_args(
                                global_event_args(
                                    name,
                                    InterfaceTitleView {
                                        name: interface@.name,
                                        version: interface@.version,
                                    },
                                ),
                            ).0.len() > crate::net::DATA_BUFFER_SIZE
                        },
                        _ => false,
                    }
                },
            },
    {
        let registry = match self.registry_id {
            Some(r) => r,
            None => {
                proof {
                    assert(false);
                }
                return Err(SendEventError::SenderMissing);
            },
        };
        let mut name_bytes = interface.name.as_str().as_bytes_vec();
        name_bytes.push(0u8);
        proof {
            assert(name_bytes@ =~= vstd::utf8::encode_utf8(interface@.name) + seq![0u8]);
        }
        let mut args: Vec<DynArgument> = Vec::new();
        args.push(DynArgument::Uint(name));
        args.push(DynArgument::String(Some(name_bytes)));
        args.push(DynArgument::Uint(interface.version));
        proof {
            assert(args.deep_view() =~= seq![
                DynArgumentView::Uint(name),
                DynArgumentView::String(
                    Some(vstd::utf8::encode_utf8(interface@.name) + seq![0u8]),
                ),
                DynArgumentView::Uint(interface@.version),
            ]);
            assert forall|k: int|
                0 <= k < args.deep_view().len() implies crate::wire::arg_writable(
                #[trigger] args.deep_view()[k],
            ) by {
                assert(args.deep_view() =~= seq![
                    DynArgumentView::Uint(name),
                    DynArgumentView::String(
                        Some(vstd::utf8::encode_utf8(interface@.name) + seq![0u8]),
                    ),
                    DynArgumentView::Uint(interface@.version),
                ]);
            }
            assert(args_writable(args.deep_view()));
        }
        let ghost a0 = args.deep_view();
        proof {
            assert(a0 =~= global_event_args(
                name,
                InterfaceTitleView { name: interface@.name, version: interface@.version },
            ));
            let d1 = a0.drop_first();
            let d2 = d1.drop_first();
            let d3 = d2.drop_first();
            assert(d3 =~= Seq::<DynArgumentView>::empty());
            assert(ser_args(d3).1 == Seq::<crate::wire::RawFd>::empty());
            assert(d2[0] == a0[2] && d1[0] == a0[1]);
            assert(ser_args(d2).1 == ser_arg(d2[0]).1 + ser_args(d3).1);
            assert(ser_args(d1).1 == ser_arg(d1[0]).1 + ser_args(d2).1);
            assert(ser_args(a0).1 == ser_arg(a0[0]).1 + ser_args(d1).1);
            assert(ser_args(a0).1 =~= Seq::<crate::wire::RawFd>::empty());
        }
        let msg = DynMessage::new(registry, 0, args);
        let raw = match msg.into_raw() {
            Ok(raw) => raw,
            Err(_) => {
                return Err(SendEventError::SerializeFailure);
            },
        };
        let ghost prevq = self.net.out_queue@;
        match self.net.queue_message(raw) {
            Ok(_) => {
                proof {
                    assert(self.net.out_queue@.drop_last() =~= prevq);
                }
                Ok(())
            },
            Err(e) => {
                proof {
                    assert(crate::net::queue_fds(prevq) <= crate::net::FD_BUFFER_SIZE);
                    assert(raw.fds@.len() == 0);
                    assert(crate::net::frame_len(raw) == 8 + ser_args(a0).0.len());
                }
                Err(SendEventError::Transport(e))
            },
        }
    }

    /// Advertise every registered global, in registration order: one event
    /// per global.
    pub fn advertise_current_globals(&mut self, globals: &Vec<GlobalInfo>) -> (r: Result<
        (),
        SendEventError,
    >)
        requires
            client_wf(*old(self)),
            old(self).registry_id is Some,
        ensures
            client_wf(*final(self)),
            final(self).objects == old(self).objects,
            final(self).registry_id == old(self).registry_id,
            final(self).id == old(self).id,
            final(self).net.in_buffer.data@ == old(self).net.in_buffer.data@,
            final(self).net.in_buffer.fds@ == old(self).net.in_buffer.fds@,
            final(self).net.out_queue@.len() >= old(self).net.out_queue@.len(),
            final(self).net.out_queue@.take(old(self).net.out_queue@.len() as int) == old(
                self,
            ).net.out_queue@,
            r matches Ok(_) ==> {
                &&& final(self).net.out_queue@.len() == old(self).net.out_queue@.len()
                    + globals@.len()
                &&& final(self).net.out_queue@.take(old(self).net.out_queue@.len() as int) == old(
                    self,
                ).net.out_queue@
                &&& forall|k: int|
                    0 <= k < globals@.len() ==> is_global_event_frame(
                        #[trigger] final(self).net.out_queue@[old(self).net.out_queue@.len() + k],
                        old(self).registry_id.unwrap(),
                        globals@[k].name,
                        InterfaceTitleView {
                            name: globals@[k].interface@.name,
                            version: globals@[k].interface@.version,
                        },
                    )
            },
    {
        let n = globals.len();
        let mut i: usize = 0;
        let ghost base = self.net.out_queue@;
        while i < n
            invariant
                i <= n,
                n == globals@.len(),
                client_wf(*self),
                self.objects == old(self).objects,
                self.registry_id == old(self).registry_id,
                self.registry_id is Some,
                self.id == old(self).id,
                self.net.in_buffer.data@ == old(self).net.in_buffer.data@,
                self.net.in_buffer.fds@ == old(self).net.in_buffer.fds@,
                base == old(self).net.out_queue@,
                self.net.out_queue@.len() == base.len() + i,
                self.net.out_queue@.take(base.len() as int) == base,
                forall|k: int|
                    0 <= k < i ==> is_global_event_frame(
                        #[trigger] self.net.out_queue@[base.len() + k],
                        self.registry_id.unwrap(),
                        globals@[k].name,
                        InterfaceTitleView {
                            name: globals@[k].interface@.name,
                            version: globals@[k].interface@.version,
                        },
                    ),
            decreases n - i,
        {
            let ghost prevq = self.net.out_queue@;
            match self.advertise_global(globals[i].name, &globals[i].interface) {
                Ok(_) => {},
                Err(e) => {
                    return Err(e);
                },
            }
            proof {
                assert(self.net.out_queue@.len() == prevq.len() + 1);
                assert forall|k: int|
                    0 <= k < prevq.len() implies self.net.out_queue@[k] == prevq[k] by {
                    assert(self.net.out_queue@.drop_last()[k] == prevq[k]);
                }
                assert(self.net.out_queue@.take(base.len() as int) =~= base);
                assert(self.net.out_queue@[base.len() + i as int]
                    == self.net.out_queue@.last());
                assert forall|k: int|
                    0 <= k < i + 1 implies is_global_event_frame(
                    #[trigger] self.net.out_queue@[base.len() + k],
                    self.registry_id.unwrap(),
                    globals@[k].name,
                    InterfaceTitleView {
                        name: globals@[k].interface@.name,
                        version: globals@[k].interface@.version,
                    },
                ) by {
                    if k < i {
                        assert(self.net.out_queue@[base.len() + k] == prevq[base.len() + k]);
                        assert(is_global_event_frame(
                            prevq[base.len() + k],
                            self.registry_id.unwrap(),
                            globals@[k].name,
                            InterfaceTitleView {
                                name: globals@[k].interface@.name,
                                version: globals@[k].interface@.version,
                            },
                        ));
                    } else {
                        assert(self.net.out_queue@[base.len() + k]
                            == self.net.out_queue@.last());
                    }
                }
            }
            i = i + 1;
        }
        Ok(())
    }
}

/// A `wl_callback.done` event carrying a serial.
pub open spec fn is_done_frame(m: RawMessage, callback: u32, serial: u32) -> bool {
    &&& m.header == (MessageHeader { sender: callback, opcode: 0u16, msg_size: 12u16 })
    &&& m.data@ == spec_u32_to_le_bytes(serial)
    &&& m.fds@.len() == 0
}

impl Client {
    /// Handle one inbound frame, with the whole meaning given by
    /// `message_handled`: errors exactly for absent senders, undeclared
    /// opcodes and refused payloads; the built-in display and registry
    /// served in full; everything else handed to the embedder. `serial` is
    /// minted by the caller; the second result says whether a sync spent
    /// it.
    #[verifier::rlimit(60)]
    pub fn handle_message(
        &mut self,
        raw: &RawMessage,
        globals: &Vec<GlobalInfo>,
        serial: u32,
    ) -> (r: Result<(DispatchAction, bool), ServerError>)
        requires
            client_wf(*old(self)),
        ensures
            client_wf(*final(self)),
            message_handled(*old(self), *final(self), *raw, globals@, serial, r),
    {
        let ghost pre = *self;
        proof {
            assert(self.net.out_queue@.take(self.net.out_queue@.len() as int)
                =~= self.net.out_queue@);
        }
        let pos = match self.objects.find_pos(raw.header.sender) {
            Some(p) => p,
            None => {
                return Err(ServerError::RequestReceiverDoesntExist);
            },
        };
        let ghost iface = pre.objects.objects@[pos as int].interface@;
        let is_display = crate::interface::str_eq(
            self.objects.objects[pos].interface.name.as_str(),
            "wl_display",
        );
        let is_registry = crate::interface::str_eq(
            self.objects.objects[pos].interface.name.as_str(),
            "wl_registry",
        );
        let opcode = raw.header.opcode as usize;
        if opcode >= self.objects.objects[pos].interface.requests.len() {
            return Err(ServerError::UnknownOpcode(raw.header.opcode));
        }
        let schema = clone_arg_list(&self.objects.objects[pos].interface.requests[opcode]);
        proof {
            assert(iface.requests[opcode as int]
                == pre.objects.objects@[pos as int].interface.requests@[
                opcode as int
            ].deep_view());
            assert(schema.deep_view() == iface.requests[opcode as int]);
        }
        let reader = RawMessageReader::new(raw);
        proof {
            assert(reader@ == raw_reader_state(*raw));
        }
        let args = match DynMessage::parse_dyn_args(&schema, reader) {
            Ok(a) => a,
            Err(e) => {
                return Err(ServerError::InvalidArguments(e));
            },
        };
        let ghost vals = args.deep_view();
        proof {
            assert(parse_list(iface.requests[raw.header.opcode as int], raw_reader_state(*raw))
                matches Ok((v, _)) && v == vals);
        }
        if is_display && raw.header.opcode == 0 {
            // sync: refuse a bad id, queue the done event, then create the
            // callback destroy-pending
            let n = match single_new_id(&args) {
                Some(n) => n,
                None => {
                    return Err(ServerError::InvalidArguments(ParseRawError::ShortPayload));
                },
            };
            if n >= SERVER_ID_BASE {
                return Err(ServerError::InvalidId);
            }
            if self.objects.find_pos(n).is_some() {
                return Err(ServerError::InvalidId);
            }
            if self.objects.retired_contains(n) {
                return Err(ServerError::InvalidId);
            }
            let mut data: Vec<u8> = Vec::new();
            crate::wire::write_u32(&mut data, serial);
            proof {
                assert(data@ =~= spec_u32_to_le_bytes(serial));
            }
            let frame = RawMessage {
                header: MessageHeader { sender: n, opcode: 0, msg_size: 12 },
                data,
                fds: Vec::new(),
            };
            match self.net.queue_message(frame) {
                Ok(_) => {},
                Err(e) => {
                    proof {
                        assert(crate::net::queue_fds(pre.net.out_queue@)
                            <= crate::net::FD_BUFFER_SIZE);
                    }
                    return Err(ServerError::NetError(e));
                },
            }
            proof {
                assert(self.net.out_queue@.take(pre.net.out_queue@.len() as int)
                    =~= pre.net.out_queue@);
                assert(self.net.out_queue@.drop_last() =~= pre.net.out_queue@);
            }
            let cb = Object::new(n, wl_callback_interface());
            let ghost cbg = cb;
            match self.objects.add(cb) {
                Ok(_) => {},
                Err(_) => {
                    proof {
                        assert(false);
                    }
                    return Err(ServerError::InvalidId);
                },
            }
            let ghost pushed = self.objects.objects@;
            self.objects.set_destroy(n);
            proof {
                assert forall|k: int|
                    0 <= k < pre.objects.objects@.len() implies self.objects.objects@[k]
                    == pre.objects.objects@[k] by {
                    crate::object::lemma_find_idx_none(pre.objects.objects@, n, k);
                    assert(pushed[k] == pre.objects.objects@[k]);
                }
                assert(self.objects.objects@.take(pre.objects.objects@.len() as int)
                    =~= pre.objects.objects@);
                assert(self.objects.objects@.last().id == n);
                assert(self.objects.objects@.last().interface@.name == "wl_callback"@);
                assert(self.objects.objects@.last().destroy);
            }
            Ok((DispatchAction::Handled, true))
        } else if is_display && raw.header.opcode == 1 {
            // get_registry: create and remember the registry, then
            // advertise every global to it
            let n = match single_new_id(&args) {
                Some(n) => n,
                None => {
                    return Err(ServerError::InvalidArguments(ParseRawError::ShortPayload));
                },
            };
            if n >= SERVER_ID_BASE {
                return Err(ServerError::InvalidId);
            }
            if self.objects.find_pos(n).is_some() {
                return Err(ServerError::InvalidId);
            }
            if self.objects.retired_contains(n) {
                return Err(ServerError::InvalidId);
            }
            let registry = Object::new(n, wl_registry_interface());
            match self.objects.add(registry) {
                Ok(_) => {},
                Err(_) => {
                    proof {
                        assert(false);
                    }
                    return Err(ServerError::InvalidId);
                },
            }
            self.registry_id = Some(n);
            proof {
                assert(self.objects.objects@.take(pre.objects.objects@.len() as int)
                    =~= pre.objects.objects@);
                assert(self.objects.objects@.last().id == n);
                assert(self.objects.objects@.last().interface@.name == "wl_registry"@);
                assert(!self.objects.objects@.last().destroy);
            }
            match self.advertise_current_globals(globals) {
                Ok(_) => Ok((DispatchAction::Handled, false)),
                Err(_) => Err(ServerError::SendFailed),
            }
        } else if is_registry && raw.header.opcode == 0 {
            // bind: resolve the global by its numeric name, first match
            let (name, id) = match bind_args_of(&args) {
                Some(p) => p,
                None => {
                    return Err(ServerError::InvalidArguments(ParseRawError::ShortPayload));
                },
            };
            match find_global(globals, name) {
                Some(g) => {
                    if id >= SERVER_ID_BASE {
                        return Err(ServerError::InvalidId);
                    }
                    if self.objects.find_pos(id).is_some() {
                        return Err(ServerError::InvalidId);
                    }
                    if self.objects.retired_contains(id) {
                        return Err(ServerError::InvalidId);
                    }
                    let interface = crate::interface::clone_dyn_interface(&globals[g].interface);
                    let iname = interface.name.clone();
                    let obj = Object::new(id, interface);
                    match self.objects.add(obj) {
                        Ok(_) => {},
                        Err(_) => {
                            proof {
                                assert(false);
                            }
                            return Err(ServerError::InvalidId);
                        },
                    }
                    proof {
                        assert(self.objects.objects@.take(pre.objects.objects@.len() as int)
                            =~= pre.objects.objects@);
                        assert(self.objects.objects@.last().id == id);
                        assert(self.objects.objects@.last().interface@
                            == globals@[g as int].interface@);
                    }
                    Ok((DispatchAction::BindGlobal { name, id, interface: iname }, false))
                },
                None => Ok((DispatchAction::GlobalNotFound { name }, false)),
            }
        } else {
            let iname = self.objects.objects[pos].interface.name.clone();
            Ok(
                (
                    DispatchAction::CallHandler {
                        object: raw.header.sender,
                        interface: iname,
                        opcode: raw.header.opcode,
                        args,
                    },
                    false,
                ),
            )
        }
    }

    /// The declared file-descriptor count of one request, for the shell to
    /// know how many descriptors a frame must bring: the number of `fd`
    /// slots in the sender's schema for the opcode.
    pub fn expected_fds(&self, sender: u32, opcode: u16) -> (r: Option<usize>)
        ensures
            match r {
                Some(k) => {
                    &&& find_idx(self.objects.objects@, sender) matches Some(p)
                    &&& (opcode as int) < self.objects.objects@[p].interface@.requests.len()
                    &&& k == crate::codec_laws::count_fds(
                        self.objects.objects@[p].interface@.requests[opcode as int],
                    )
                },
                None => match find_idx(self.objects.objects@, sender) {
                    None => true,
                    Some(p) => (opcode as int)
                        >= self.objects.objects@[p].interface@.requests.len(),
                },
            },
    {
        let pos = match self.objects.find_pos(sender) {
            Some(p) => p,
            None => {
                return None;
            },
        };
        let op = opcode as usize;
        if op >= self.objects.objects[pos].interface.requests.len() {
            return None;
        }
        let ghost ds = self.objects.objects@[pos as int].interface@.requests[op as int];
        let schema = &self.objects.objects[pos].interface.requests[op];
        proof {
            assert(ds == schema.deep_view());
        }
        let n = schema.len();
        let mut acc: usize = 0;
        let mut i: usize = 0;
        proof {
            assert(ds.skip(0) =~= ds);
        }
        while i < n
            invariant
                i <= n,
                n == schema@.len(),
                ds == schema.deep_view(),
                ds.len() == n,
                acc <= i,
                crate::codec_laws::count_fds(ds) == acc + crate::codec_laws::count_fds(
                    ds.skip(i as int),
                ),
            decreases n - i,
        {
            proof {
                assert(ds.skip(i as int)[0] == ds[i as int]);
                assert(ds.skip(i as int).drop_first() =~= ds.skip(i + 1 as int));
                assert(ds[i as int] == schema@[i as int]@);
            }
            if matches!(schema[i].arg_type, crate::wire::ArgumentType::Fd) {
                acc = acc + 1;
            }
            i = i + 1;
        }
        proof {
            assert(ds.skip(n as int) =~= Seq::<crate::wire::ArgDescView>::empty());
        }
        Some(acc)
    }
}

/// The new id when the arguments are exactly one statically typed new id.
fn single_new_id(args: &Vec<DynArgument>) -> (r: Option<u32>)
    ensures
        r == single_new_id_val(args.deep_view()),
{
    if args.len() != 1 {
        return None;
    }
    proof {
        assert(args.deep_view()[0] == args@[0]@);
    }
    match &args[0] {
        DynArgument::NewId(n, t) => {
            if t.is_none() {
                Some(*n)
            } else {
                None
            }
        },
        _ => None,
    }
}

/// The numeric name and new id when the arguments are a bind's.
fn bind_args_of(args: &Vec<DynArgument>) -> (r: Option<(u32, u32)>)
    ensures
        r == bind_vals(args.deep_view()),
{
    if args.len() != 2 {
        return None;
    }
    proof {
        assert(args.deep_view()[0] == args@[0]@);
        assert(args.deep_view()[1] == args@[1]@);
    }
    match (&args[0], &args[1]) {
        (DynArgument::Uint(name), DynArgument::NewId(id, t)) => {
            if t.is_some() {
                Some((*name, *id))
            } else {
                None
            }
        },
        _ => None,
    }
}

/// Position of the first global with the given numeric name.
fn find_global(globals: &Vec<GlobalInfo>, name: u32) -> (r: Option<usize>)
    ensures
        match r {
            Some(g) => first_global_idx(globals@, name) == Some(g as int) && g < globals@.len()
                && globals@[g as int].name == name,
            None => first_global_idx(globals@, name) is None,
        },
{
    let n = globals.len();
    let mut i: usize = 0;
    while i < n
        invariant
            i <= n,
            n == globals@.len(),
            forall|g: int| 0 <= g < i ==> (#[trigger] globals@[g]).name != name,
        decreases n - i,
    {
        if globals[i].name == name {
            proof {
                lemma_first_global_at(globals@, name, i as int);
            }
            return Some(i);
        }
        i = i + 1;
    }
    proof {
        lemma_first_global_none(globals@, name);
    }
    None
}

/// Copy one opcode's argument schema.
fn clone_arg_list(v: &Vec<ArgumentDesc>) -> (r: Vec<ArgumentDesc>)
    ensures
        r.deep_view() == v.deep_view(),
{
    let mut r: Vec<ArgumentDesc> = Vec::new();
    let n = v.len();
    let mut i: usize = 0;
    proof {
        crate::scanner::lemma_vec_deep_view_is(&r);
        assert(r.deep_view() =~= v.deep_view().take(0));
    }
    while i < n
        invariant
            i <= n,
            n == v@.len(),
            r@.len() == i,
            r.deep_view() == v.deep_view().take(i as int),
        decreases n - i,
    {
        let c = v[i].clone();
        let ghost cg = c;
        let ghost prevs = r@;
        proof {
            crate::scanner::lemma_vec_deep_view_is(&r);
        }
        let ghost prevdv = r.deep_view();
        r.push(c);
        proof {
            crate::scanner::lemma_vec_deep_view_is(&r);
            crate::scanner::lemma_seq_deep_view_push(prevs, cg);
            assert(r.deep_view() == prevdv.push(cg@));
            assert(r.deep_view() =~= v.deep_view().take(i + 1 as int));
        }
        i = i + 1;
    }
    proof {
        assert(v.deep_view().take(n as int) =~= v.deep_view());
    }
    r
}

/// The whole runtime: the embedder's state, the registered globals, serial
/// and name counters, and the connected clients.
pub struct Server<S> {
    pub state: State<S>,
    pub globals: Vec<GlobalInfo>,
    pub next_name: u32,
    pub next_serial: u32,
    pub clients: Vec<Client>,
    pub next_client_id: u64,
}

pub open spec fn server_wf<S>(s: Server<S>) -> bool {
    forall|k: int| 0 <= k < s.clients@.len() ==> client_wf(#[trigger] s.clients@[k])
}

impl<S> Server<S> {
    pub fn new(state: S) -> (r: Server<S>)
        ensures
            server_wf(r),
            r.state.inner == state,
            r.globals@.len() == 0,
            r.next_name == 1,
            r.next_serial == 1,
            r.clients@.len() == 0,
    {
        Server {
            state: State::new(state),
            globals: Vec::new(),
            next_name: 1,
            next_serial: 1,
            clients: Vec::new(),
            next_client_id: 1,
        }
    }

    /// Mint the next serial; serial exhaustion is the caller's to rule out,
    /// as the server treats it as fatal.
    pub fn next_serial(&mut self) -> (r: u32)
        requires
            old(self).next_serial < u32::MAX,
        ensures
            r == old(self).next_serial,
            *final(self) == (Server { next_serial: (old(self).next_serial + 1) as u32, ..*old(self) }),
    {
        let serial = self.next_serial;
        self.next_serial = self.next_serial + 1;
        serial
    }

    /// Take a new connection in: the client exists with its display at id 1
    /// before any of its bytes are read.
    pub fn accept_client(&mut self) -> (r: usize)
        requires
            server_wf(*old(self)),
            old(self).next_client_id < u64::MAX,
        ensures
            server_wf(*final(self)),
            r == old(self).clients@.len(),
            final(self).clients@.len() == old(self).clients@.len() + 1,
            final(self).clients@.drop_last() == old(self).clients@,
            client_wf(final(self).clients@.last()),
            final(self).clients@.last().objects.objects@.len() == 1,
            final(self).clients@.last().objects.objects@[0].id == 1,
            final(self).clients@.last().objects.objects@[0].interface@.name == "wl_display"@,
            final(self).globals@ == old(self).globals@,
    {
        let idx = self.clients.len();
        let c = Client::new(self.next_client_id);
        self.next_client_id = self.next_client_id + 1;
        let ghost prevc = self.clients@;
        self.clients.push(c);
        proof {
            assert(self.clients@.drop_last() =~= prevc);
            assert forall|k: int|
                0 <= k < self.clients@.len() implies client_wf(#[trigger] self.clients@[k]) by {
                if k < prevc.len() {
                    assert(self.clients@[k] == prevc[k]);
                }
            }
        }
        idx
    }

    /// Register a global: it gets the next monotonically increasing name
    /// and is advertised to every client whose registry is bound — exactly
    /// one `wl_registry.global` event per bound client, unless the event
    /// cannot be framed or queued for that client, in which case that
    /// client's queue is left as it was. Name exhaustion is the caller's to
    /// rule out, as the server treats it as fatal.
    pub fn register_global(&mut self, interface: DynInterface) -> (r: u32)
        requires
            server_wf(*old(self)),
            old(self).next_name < u32::MAX,
        ensures
            server_wf(*final(self)),
            r == old(self).next_name,
            final(self).next_name == old(self).next_name + 1,
            final(self).next_serial == old(self).next_serial,
            final(self).globals@.len() == old(self).globals@.len() + 1,
            final(self).globals@.drop_last() == old(self).globals@,
            final(self).globals@.last().name == old(self).next_name,
            final(self).globals@.last().interface@ == interface@,
            final(self).clients@.len() == old(self).clients@.len(),
            forall|k: int|
                0 <= k < old(self).clients@.len() ==> advertised_to(
                    #[trigger] old(self).clients@[k],
                    final(self).clients@[k],
                    old(self).next_name,
                    InterfaceTitleView { name: interface@.name, version: interface@.version },
                ),
    {
        let name = self.next_name;
        self.next_name = self.next_name + 1;
        let ghost prevg = self.globals@;
        let iface_copy = crate::interface::clone_dyn_interface(&interface);
        self.globals.push(GlobalInfo { name, interface });
        proof {
            assert(self.globals@.drop_last() =~= prevg);
        }
        let ghost title = InterfaceTitleView { name: iface_copy@.name, version: iface_copy@.version };
        let n = self.clients.len();
        let mut i: usize = 0;
        while i < n
            invariant
                i <= n,
                n == self.clients@.len(),
                n == old(self).clients@.len(),
                server_wf(*self),
                name == old(self).next_name,
                self.next_name == old(self).next_name + 1,
                self.next_serial == old(self).next_serial,
                prevg == old(self).globals@,
                iface_copy@ == interface@,
                title == (InterfaceTitleView {
                    name: interface@.name,
                    version: interface@.version,
                }),
                self.globals@.len() == prevg.len() + 1,
                self.globals@.drop_last() == prevg,
                self.globals@.last().name == name,
                self.globals@.last().interface@ == iface_copy@,
                forall|k: int| i <= k < n ==> self.clients@[k] == old(self).clients@[k],
                forall|k: int|
                    0 <= k < i ==> advertised_to(
                        #[trigger] old(self).clients@[k],
                        self.clients@[k],
                        name,
                        title,
                    ),
            decreases n - i,
        {
            let mut c = self.clients.remove(i);
            let ghost prevc = self.clients@;
            let ghost cpre = c;
            proof {
                assert(cpre == old(self).clients@[i as int]);
            }
            if c.registry_id.is_some() {
                let advertised = c.advertise_global(name, &iface_copy);
            }
            self.clients.insert(i, c);
            proof {
                assert(self.clients@[i as int] == c);
                assert(advertised_to(old(self).clients@[i as int], c, name, title));
                assert forall|k: int|
                    0 <= k < self.clients@.len() && k != i implies self.clients@[k]
                    == prevc.insert(i as int, c)[k] && (if k < i {
                    self.clients@[k] == prevc[k]
                } else {
                    self.clients@[k] == prevc[k - 1]
                }) by {}
                assert forall|k: int|
                    0 <= k < self.clients@.len() implies client_wf(
                    #[trigger] self.clients@[k],
                ) by {
                    if k != i {
                        assert(self.clients@[k] == prevc.insert(i as int, c)[k]);
                    }
                }
            }
            i = i + 1;
        }
        name
    }

    /// Handle one inbound frame of one client, with the meaning of
    /// `Client::handle_message` lifted: the addressed client's new state and
    /// the result are exactly one outcome of handling the frame, every
    /// other client is untouched, and the serial counter moves exactly when
    /// the frame was a sync.
    pub fn handle_client_message(&mut self, client_idx: usize, raw: &RawMessage) -> (r: Result<
        DispatchAction,
        ServerError,
    >)
        requires
            server_wf(*old(self)),
            client_idx < old(self).clients@.len(),
            old(self).next_serial < u32::MAX,
        ensures
            server_wf(*final(self)),
            final(self).clients@.len() == old(self).clients@.len(),
            final(self).globals@ == old(self).globals@,
            final(self).next_name == old(self).next_name,
            final(self).state == old(self).state,
            forall|k: int|
                0 <= k < old(self).clients@.len() && k != client_idx
                    ==> final(self).clients@[k] == #[trigger] old(self).clients@[k],
            match r {
                Ok(action) => exists|used: bool|
                    {
                        &&& #[trigger] message_handled(
                            old(self).clients@[client_idx as int],
                            final(self).clients@[client_idx as int],
                            *raw,
                            old(self).globals@,
                            old(self).next_serial,
                            Ok((action, used)),
                        )
                        &&& final(self).next_serial == old(self).next_serial + (if used {
                            1int
                        } else {
                            0int
                        })
                    },
                Err(e) => {
                    &&& message_handled(
                        old(self).clients@[client_idx as int],
                        final(self).clients@[client_idx as int],
                        *raw,
                        old(self).globals@,
                        old(self).next_serial,
                        Err(e),
                    )
                    &&& final(self).next_serial == old(self).next_serial
                },
            },
    {
        let serial = self.next_serial;
        let mut c = self.clients.remove(client_idx);
        let ghost prevc = self.clients@;
        let outcome = c.handle_message(raw, &self.globals, serial);
        self.clients.insert(client_idx, c);
        proof {
            assert(self.clients@[client_idx as int] == c);
            assert forall|k: int|
                0 <= k < self.clients@.len() && k != client_idx implies self.clients@[k]
                == #[trigger] old(self).clients@[k] by {
                assert(self.clients@[k] == prevc.insert(client_idx as int, c)[k]);
                if k < client_idx {
                    assert(prevc[k] == old(self).clients@[k]);
                } else {
                    assert(prevc[k - 1] == old(self).clients@[k]);
                }
            }
            assert forall|k: int|
                0 <= k < self.clients@.len() implies client_wf(#[trigger] self.clients@[k]) by {
                if k != client_idx {
                    assert(self.clients@[k] == old(self).clients@[k]);
                }
            }
        }
        match outcome {
            Ok((action, used)) => {
                if used {
                    self.next_serial = self.next_serial + 1;
                }
                proof {
                    assert(message_handled(
                        old(self).clients@[client_idx as int],
                        self.clients@[client_idx as int],
                        *raw,
                        old(self).globals@,
                        old(self).next_serial,
                        Ok((action, used)),
                    ));
                }
                Ok(action)
            },
            Err(e) => Err(e),
        }
    }

    /// Sweep one client, with the meaning of `Client::sweep` lifted: every
    /// destroy-pending object of that client is reaped and acknowledged (or
    /// the overflow reported), each returned exactly once for its
    /// destructor; every other client is untouched.
    pub fn sweep_client(&mut self, client_idx: usize) -> (r: (Vec<Object>, Option<NetError>))
        requires
            server_wf(*old(self)),
            client_idx < old(self).clients@.len(),
        ensures
            server_wf(*final(self)),
            final(self).clients@.len() == old(self).clients@.len(),
            final(self).globals@ == old(self).globals@,
            final(self).next_name == old(self).next_name,
            final(self).next_serial == old(self).next_serial,
            final(self).state == old(self).state,
            forall|k: int|
                0 <= k < old(self).clients@.len() && k != client_idx
                    ==> final(self).clients@[k] == #[trigger] old(self).clients@[k],
            swept(
                old(self).clients@[client_idx as int],
                final(self).clients@[client_idx as int],
                r.0@,
                r.1,
            ),
    {
        let mut c = self.clients.remove(client_idx);
        let ghost prevc = self.clients@;
        let reaped = c.sweep();
        self.clients.insert(client_idx, c);
        proof {
            assert(self.clients@[client_idx as int] == c);
            assert forall|k: int|
                0 <= k < self.clients@.len() && k != client_idx implies self.clients@[k]
                == #[trigger] old(self).clients@[k] by {
                assert(self.clients@[k] == prevc.insert(client_idx as int, c)[k]);
                if k < client_idx {
                    assert(prevc[k] == old(self).clients@[k]);
                } else {
                    assert(prevc[k - 1] == old(self).clients@[k]);
                }
            }
            assert forall|k: int|
                0 <= k < self.clients@.len() implies client_wf(#[trigger] self.clients@[k]) by {
                if k != client_idx {
                    assert(self.clients@[k] == old(self).clients@[k]);
                }
            }
        }
        reaped
    }

    /// Drop a disconnected client, handing back every one of its remaining
    /// objects — newest first — so the caller can run their destructors; no
    /// other client is touched.
    pub fn handle_client_disconnect(&mut self, client_idx: usize) -> (r: Vec<Object>)
        requires
            server_wf(*old(self)),
            client_idx < old(self).clients@.len(),
        ensures
            server_wf(*final(self)),
            final(self).clients@ == old(self).clients@.remove(client_idx as int),
            final(self).globals@ == old(self).globals@,
            final(self).next_name == old(self).next_name,
            final(self).next_serial == old(self).next_serial,
            final(self).state == old(self).state,
            r@.len() == old(self).clients@[client_idx as int].objects.objects@.len(),
            forall|j: int|
                0 <= j < r@.len() ==> #[trigger] r@[j] == old(self).clients@[
                    client_idx as int
                ].objects.objects@[r@.len() - 1 - j],
    {
        let mut c = self.clients.remove(client_idx);
        let ghost orig = c.objects.objects@;
        let mut remaining: Vec<Object> = Vec::new();
        loop
            invariant
                client_wf(c),
                remaining@.len() + c.objects.objects@.len() == orig.len(),
                c.objects.objects@ == orig.take(c.objects.objects@.len() as int),
                forall|j: int|
                    0 <= j < remaining@.len() ==> #[trigger] remaining@[j] == orig[orig.len() - 1
                        - j],
            ensures
                remaining@.len() == orig.len(),
                forall|j: int|
                    0 <= j < remaining@.len() ==> #[trigger] remaining@[j] == orig[orig.len() - 1
                        - j],
            decreases c.objects.objects@.len(),
        {
            let ghost prevrem = remaining@;
            let ghost prevobjs = c.objects.objects@;
            match c.objects.remove_any() {
                Some(o) => {
                    remaining.push(o);
                    proof {
                        assert(c.objects.objects@ =~= orig.take(
                            c.objects.objects@.len() as int,
                        ));
                        assert forall|j: int|
                            0 <= j < remaining@.len() implies #[trigger] remaining@[j]
                            == orig[orig.len() - 1 - j] by {
                            if j < prevrem.len() {
                                assert(remaining@[j] == prevrem[j]);
                            } else {
                                assert(remaining@[j] == prevobjs.last());
                                assert(prevobjs.last() == orig[prevobjs.len() - 1]);
                            }
                        }
                    }
                },
                None => {
                    break;
                },
            }
        }
        proof {
            assert forall|k: int|
                0 <= k < self.clients@.len() implies client_wf(#[trigger] self.clients@[k]) by {
                assert(self.clients@ == old(self).clients@.remove(client_idx as int));
            }
        }
        remaining
    }
}

} // verus!
