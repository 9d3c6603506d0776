use vstd::prelude::*;
use vstd::bytes::*;
use vstd::string::*;
use vstd::utf8::*;

use crate::interface::{InterfaceTitle, InterfaceTitleView};

verus! {

/// An open file descriptor, as the operating system numbers it.
pub type RawFd = i32;

/// A 24.8 signed fixed-point wire word; the codec carries the raw 32-bit
/// value without interpreting it.
#[derive(Debug, Clone, Copy, PartialEq, Eq, Structural)]
pub struct Fixed(pub u32);

/// The leading eight bytes of every frame: sender object id, opcode, and the
/// total size of the frame (header included).
#[derive(Debug, Clone, Copy, PartialEq, Eq, Structural)]
pub struct MessageHeader {
    pub sender: u32,
    pub opcode: u16,
    pub msg_size: u16,
}

/// The header spelled by the first eight bytes of `s`. Wire words share
/// the host's byte order; this codec spells them in little-endian, the
/// order of every host this crate builds for, and no byte-order field
/// exists on the wire.
pub open spec fn spec_parse_header(s: Seq<u8>) -> MessageHeader
    recommends
        s.len() >= 8,
{
    MessageHeader {
        sender: spec_u32_from_le_bytes(s.subrange(0, 4)),
        opcode: spec_u16_from_le_bytes(s.subrange(4, 6)),
        msg_size: spec_u16_from_le_bytes(s.subrange(6, 8)),
    }
}

/// The eight bytes that spell a header.
pub open spec fn spec_header_bytes(h: MessageHeader) -> Seq<u8> {
    spec_u32_to_le_bytes(h.sender) + spec_u16_to_le_bytes(h.opcode) + spec_u16_to_le_bytes(
        h.msg_size,
    )
}

impl MessageHeader {
    /// Decode a header from exactly eight bytes; any other length is refused.
    pub fn from_bytes(bytes: &[u8]) -> (r: Result<Self, ()>)
        ensures
            match r {
                Ok(h) => bytes@.len() == 8 && h == spec_parse_header(bytes@),
                Err(_) => bytes@.len() != 8,
            },
    {
        if bytes.len() != 8 {
            return Err(());
        }
        let sender = u32_from_le_bytes(vstd::slice::slice_subrange(bytes, 0, 4));
        let opcode = u16_from_le_bytes(vstd::slice::slice_subrange(bytes, 4, 6));
        let msg_size = u16_from_le_bytes(vstd::slice::slice_subrange(bytes, 6, 8));
        Ok(MessageHeader { sender, opcode, msg_size })
    }

    /// Encode the header into its eight wire bytes.
    pub fn to_bytes(&self) -> (r: Vec<u8>)
        ensures
            r@ == spec_header_bytes(*self),
            r@.len() == 8,
    {
        let mut r = u32_to_le_bytes(self.sender);
        let mut op = u16_to_le_bytes(self.opcode);
        let mut sz = u16_to_le_bytes(self.msg_size);
        r.append(&mut op);
        r.append(&mut sz);
        proof {
            lemma_auto_spec_u32_to_from_le_bytes();
            lemma_auto_spec_u16_to_from_le_bytes();
        }
        r
    }
}

/// Decoding the bytes of a header gives the header back.
pub broadcast proof fn lemma_header_round_trip(h: MessageHeader)
    ensures
        (#[trigger] spec_header_bytes(h)).len() == 8,
        spec_parse_header(spec_header_bytes(h)) == h,
{
    lemma_auto_spec_u32_to_from_le_bytes();
    lemma_auto_spec_u16_to_from_le_bytes();
    let b = spec_header_bytes(h);
    assert(b.subrange(0, 4) =~= spec_u32_to_le_bytes(h.sender));
    assert(b.subrange(4, 6) =~= spec_u16_to_le_bytes(h.opcode));
    assert(b.subrange(6, 8) =~= spec_u16_to_le_bytes(h.msg_size));
}

/// A complete frame as read from or written to the socket: the decoded
/// header, the payload bytes after the header, and the file descriptors that
/// came along with it.
pub struct RawMessage {
    pub header: MessageHeader,
    pub data: Vec<u8>,
    pub fds: Vec<RawFd>,
}

impl RawMessage {
    /// Split a buffer that starts with a header into header and payload.
    pub fn from_data(bytes: &[u8], fds: Vec<RawFd>) -> (r: Result<Self, ()>)
        ensures
            match r {
                Ok(m) => {
                    &&& bytes@.len() >= 8
                    &&& m.header == spec_parse_header(bytes@)
                    &&& m.data@ == bytes@.skip(8)
                    &&& m.fds@ == fds@
                },
                Err(_) => bytes@.len() < 8,
            },
    {
        if bytes.len() < 8 {
            return Err(());
        }
        let header = match MessageHeader::from_bytes(
            vstd::slice::slice_subrange(bytes, 0, 8),
        ) {
            Ok(h) => h,
            Err(_) => {
                return Err(());
            },
        };
        let data = vstd::slice::slice_to_vec(
            vstd::slice::slice_subrange(bytes, 8, bytes.len()),
        );
        proof {
            assert(bytes@.subrange(0, 8).subrange(0, 4) =~= bytes@.subrange(0, 4));
            assert(bytes@.subrange(0, 8).subrange(4, 6) =~= bytes@.subrange(4, 6));
            assert(bytes@.subrange(0, 8).subrange(6, 8) =~= bytes@.subrange(6, 8));
        }
        Ok(RawMessage { header, data, fds })
    }

    /// Assemble a frame from a header that was already decoded and the
    /// payload that followed it.
    pub fn from_data_without_header(header: MessageHeader, bytes: Vec<u8>, fds: Vec<RawFd>) -> (r:
        Self)
        ensures
            r.header == header,
            r.data@ == bytes@,
            r.fds@ == fds@,
    {
        RawMessage { header, data: bytes, fds }
    }
}

/// The eight argument kinds of the wire format.
#[derive(Debug, Clone, Copy, PartialEq, Eq, Structural)]
pub enum ArgumentType {
    Int,
    Uint,
    Fixed,
    String,
    Object,
    NewId,
    Array,
    Fd,
}

pub open spec fn spec_arg_type_name(t: ArgumentType) -> Seq<char> {
    match t {
        ArgumentType::Int => "int"@,
        ArgumentType::Uint => "uint"@,
        ArgumentType::Fixed => "fixed"@,
        ArgumentType::String => "string"@,
        ArgumentType::Object => "object"@,
        ArgumentType::NewId => "new_id"@,
        ArgumentType::Array => "array"@,
        ArgumentType::Fd => "fd"@,
    }
}

pub open spec fn spec_arg_type_from_bytes(s: Seq<u8>) -> Option<ArgumentType> {
    if s == "int".spec_bytes() {
        Some(ArgumentType::Int)
    } else if s == "uint".spec_bytes() {
        Some(ArgumentType::Uint)
    } else if s == "fixed".spec_bytes() {
        Some(ArgumentType::Fixed)
    } else if s == "string".spec_bytes() {
        Some(ArgumentType::String)
    } else if s == "object".spec_bytes() {
        Some(ArgumentType::Object)
    } else if s == "new_id".spec_bytes() {
        Some(ArgumentType::NewId)
    } else if s == "array".spec_bytes() {
        Some(ArgumentType::Array)
    } else if s == "fd".spec_bytes() {
        Some(ArgumentType::Fd)
    } else {
        None
    }
}

impl ArgumentType {
    /// The keyword this argument kind bears in protocol descriptions.
    pub fn to_string(self) -> (r: &'static str)
        ensures
            r@ == spec_arg_type_name(self),
    {
        match self {
            ArgumentType::Int => "int",
            ArgumentType::Uint => "uint",
            ArgumentType::Fixed => "fixed",
            ArgumentType::String => "string",
            ArgumentType::Object => "object",
            ArgumentType::NewId => "new_id",
            ArgumentType::Array => "array",
            ArgumentType::Fd => "fd",
        }
    }

    pub fn from_str(s: &str) -> (r: Option<Self>)
        ensures
            r == spec_arg_type_from_bytes(s.spec_bytes()),
    {
        Self::from_bytes(s.as_bytes())
    }

    pub fn from_bytes(bytes: &[u8]) -> (r: Option<Self>)
        ensures
            r == spec_arg_type_from_bytes(bytes@),
    {
        if bytes_eq(bytes, "int".as_bytes()) {
            Some(ArgumentType::Int)
        } else if bytes_eq(bytes, "uint".as_bytes()) {
            Some(ArgumentType::Uint)
        } else if bytes_eq(bytes, "fixed".as_bytes()) {
            Some(ArgumentType::Fixed)
        } else if bytes_eq(bytes, "string".as_bytes()) {
            Some(ArgumentType::String)
        } else if bytes_eq(bytes, "object".as_bytes()) {
            Some(ArgumentType::Object)
        } else if bytes_eq(bytes, "new_id".as_bytes()) {
            Some(ArgumentType::NewId)
        } else if bytes_eq(bytes, "array".as_bytes()) {
            Some(ArgumentType::Array)
        } else if bytes_eq(bytes, "fd".as_bytes()) {
            Some(ArgumentType::Fd)
        } else {
            None
        }
    }
}

/// Byte-for-byte slice comparison, exact in both directions.
pub fn bytes_eq(a: &[u8], b: &[u8]) -> (r: bool)
    ensures
        r == (a@ == b@),
{
    if a.len() != b.len() {
        assert(a@ != b@);
        return false;
    }
    let n = a.len();
    let mut i: usize = 0;
    while i < n
        invariant
            i <= n,
            n == a@.len(),
            n == b@.len(),
            forall|k: int| 0 <= k < i ==> a@[k] == b@[k],
        decreases n - i,
    {
        if *vstd::slice::slice_index_get(a, i) != *vstd::slice::slice_index_get(b, i) {
            return false;
        }
        i = i + 1;
    }
    proof {
        assert(a@ =~= b@);
    }
    true
}

/// One argument slot of a message schema: its kind, the interface it binds
/// (for typed objects and new ids), and whether null is accepted.
pub struct ArgumentDesc {
    pub arg_type: ArgumentType,
    pub interface: Option<String>,
    pub allow_null: bool,
}

pub struct ArgDescView {
    pub arg_type: ArgumentType,
    pub interface: Option<Seq<char>>,
    pub allow_null: bool,
}

impl View for ArgumentDesc {
    type V = ArgDescView;

    open spec fn view(&self) -> ArgDescView {
        ArgDescView {
            arg_type: self.arg_type,
            interface: match self.interface {
                Some(ref s) => Some(s@),
                None => None,
            },
            allow_null: self.allow_null,
        }
    }
}

impl DeepView for ArgumentDesc {
    type V = ArgDescView;

    open spec fn deep_view(&self) -> ArgDescView {
        self.view()
    }
}

impl Clone for ArgumentDesc {
    fn clone(&self) -> (r: Self)
        ensures
            r@ == self@,
    {
        ArgumentDesc {
            arg_type: self.arg_type,
            interface: match self.interface {
                Some(ref s) => Some(s.clone()),
                None => None,
            },
            allow_null: self.allow_null,
        }
    }
}

/// Copy a schema table, keeping every descriptor.
pub fn clone_messages_desc(v: &Vec<Vec<ArgumentDesc>>) -> (r: Vec<Vec<ArgumentDesc>>)
    ensures
        r.deep_view() == v.deep_view(),
{
    let mut r: Vec<Vec<ArgumentDesc>> = Vec::new();
    let n = v.len();
    let mut i: usize = 0;
    while i < n
        invariant
            i <= n,
            n == v.len(),
            r@.len() == i,
            r.deep_view() == v.deep_view().take(i as int),
        decreases n - i,
    {
        let mut inner: Vec<ArgumentDesc> = Vec::new();
        let m = v[i].len();
        let mut j: usize = 0;
        while j < m
            invariant
                j <= m,
                i < n,
                n == v.len(),
                m == v[i as int]@.len(),
                inner@.len() == j,
                inner.deep_view() == v[i as int].deep_view().take(j as int),
            decreases m - j,
        {
            let c = v[i][j].clone();
            let ghost cv = c@;
            let ghost prevs = inner@;
            let ghost pre = inner.deep_view();
            inner.push(c);
            proof {
                assert(inner@ == prevs.push(inner@[j as int]));
                assert(inner@[j as int]@ == cv);
                assert forall|k: int|
                    0 <= k < j + 1 implies inner.deep_view()[k] == v[i as int].deep_view().take(
                    j + 1,
                )[k] by {
                    if k < j {
                        assert(inner@[k] == prevs[k]);
                        assert(inner.deep_view()[k] == pre[k]);
                        assert(pre[k] == v[i as int].deep_view().take(j as int)[k]);
                    } else {
                        assert(inner.deep_view()[k] == cv);
                    }
                }
                assert(inner.deep_view() =~= v[i as int].deep_view().take(j + 1 as int));
            }
            j = j + 1;
        }
        proof {
            assert(v[i as int].deep_view().take(m as int) =~= v[i as int].deep_view());
        }
        let ghost rpre = r.deep_view();
        let ghost prevr = r@;
        let ghost innerdv = inner.deep_view();
        r.push(inner);
        proof {
            assert(r@ == prevr.push(r@[i as int]));
            assert(r@[i as int].deep_view() == innerdv);
            assert forall|k: int|
                0 <= k < i + 1 implies r.deep_view()[k] == v.deep_view().take(i + 1)[k] by {
                if k < i {
                    assert(r@[k] == prevr[k]);
                    assert(r.deep_view()[k] == rpre[k]);
                    assert(rpre[k] == v.deep_view().take(i as int)[k]);
                } else {
                    assert(r.deep_view()[k] == innerdv);
                }
            }
            assert(r.deep_view() =~= v.deep_view().take(i + 1 as int));
        }
        i = i + 1;
    }
    proof {
        assert(v.deep_view().take(n as int) =~= v.deep_view());
    }
    r
}

/// A dynamically typed argument value, the common currency between the codec
/// and the typed message layer.
#[derive(Debug)]
pub enum DynArgument {
    Int(i32),
    Uint(u32),
    Fixed(Fixed),
    String(Option<Vec<u8>>),
    Object(Option<u32>),
    NewId(u32, Option<InterfaceTitle>),
    Array(Vec<u8>),
    Fd(RawFd),
}

pub enum DynArgumentView {
    Int(i32),
    Uint(u32),
    Fixed(u32),
    String(Option<Seq<u8>>),
    Object(Option<u32>),
    NewId(u32, Option<InterfaceTitleView>),
    Array(Seq<u8>),
    Fd(i32),
}

/// The mathematical value of an optional byte string.
pub open spec fn opt_bytes_view(o: Option<Vec<u8>>) -> Option<Seq<u8>> {
    match o {
        Some(v) => Some(v@),
        None => None,
    }
}

/// The mathematical value of an optional interface title.
pub open spec fn opt_title_view(o: Option<InterfaceTitle>) -> Option<InterfaceTitleView> {
    match o {
        Some(t) => Some(t@),
        None => None,
    }
}

impl View for DynArgument {
    type V = DynArgumentView;

    open spec fn view(&self) -> DynArgumentView {
        match self {
            DynArgument::Int(v) => DynArgumentView::Int(*v),
            DynArgument::Uint(v) => DynArgumentView::Uint(*v),
            DynArgument::Fixed(f) => DynArgumentView::Fixed(f.0),
            DynArgument::String(o) => DynArgumentView::String(opt_bytes_view(*o)),
            DynArgument::Object(o) => DynArgumentView::Object(*o),
            DynArgument::NewId(id, t) => DynArgumentView::NewId(*id, opt_title_view(*t)),
            DynArgument::Array(v) => DynArgumentView::Array(v@),
            DynArgument::Fd(fd) => DynArgumentView::Fd(*fd),
        }
    }
}

impl DeepView for DynArgument {
    type V = DynArgumentView;

    open spec fn deep_view(&self) -> DynArgumentView {
        self.view()
    }
}

/// Why a raw payload could not be read as the arguments its schema promises.
#[derive(Debug, Clone, Copy, PartialEq, Eq, Structural)]
pub enum ParseRawError {
    /// A fixed-size field ran past the end of the payload.
    ShortPayload,
    /// A variable-length field claimed more bytes than the frame holds.
    LengthExceedsFrame,
    /// A string field did not end with the obligatory NUL byte.
    StringNotNulTerminated,
    /// An interface name on the wire was not a well-formed name.
    InvalidString,
    /// The frame brought fewer file descriptors than the schema expects.
    MissingFd,
}

/// Why arguments could not be written out as payload bytes.
#[derive(Debug, Clone, Copy, PartialEq, Eq, Structural)]
pub enum SerializeRawError {
    ArrayTooLong,
    MessageTooLong,
    ObjectDoesntExist,
}

/// Why a dynamic argument list did not fit what its reader asked of it.
#[derive(Debug, Clone, Copy, PartialEq, Eq, Structural)]
pub enum ArgumentError {
    InsufficientArguments,
    IncorrectArguments,
}

/// The state of a payload reader: the payload, the byte cursor, the file
/// descriptors, and the descriptor cursor.
pub struct ReaderState {
    pub data: Seq<u8>,
    pub pos: int,
    pub fds: Seq<RawFd>,
    pub next_fd: int,
}

/// Bytes of zero padding that follow a field of `n` bytes to keep the cursor
/// 32-bit aligned.
pub open spec fn spec_pad(n: int) -> int {
    (4 - (n % 4)) % 4
}

pub open spec fn rd_u32(r: ReaderState) -> Option<(u32, ReaderState)> {
    if r.pos + 4 <= r.data.len() {
        Some(
            (
                spec_u32_from_le_bytes(r.data.subrange(r.pos, r.pos + 4)),
                ReaderState { pos: r.pos + 4, ..r },
            ),
        )
    } else {
        None
    }
}

pub open spec fn rd_array(r: ReaderState) -> Result<(Seq<u8>, ReaderState), ParseRawError> {
    match rd_u32(r) {
        None => Err(ParseRawError::ShortPayload),
        Some((len, r1)) => {
            if r1.pos + len + spec_pad(len as int) <= r1.data.len() {
                Ok(
                    (
                        r1.data.subrange(r1.pos, r1.pos + len),
                        ReaderState { pos: r1.pos + len + spec_pad(len as int), ..r1 },
                    ),
                )
            } else {
                Err(ParseRawError::LengthExceedsFrame)
            }
        },
    }
}

pub open spec fn rd_string(r: ReaderState) -> Result<
    (Option<Seq<u8>>, ReaderState),
    ParseRawError,
> {
    match rd_array(r) {
        Err(e) => Err(e),
        Ok((v, r1)) => {
            if v.len() == 0 {
                Ok((None, r1))
            } else if v.last() != 0u8 {
                Err(ParseRawError::StringNotNulTerminated)
            } else {
                Ok((Some(v), r1))
            }
        },
    }
}

pub open spec fn rd_fd(r: ReaderState) -> Result<(RawFd, ReaderState), ParseRawError> {
    if r.next_fd < r.fds.len() {
        Ok((r.fds[r.next_fd], ReaderState { next_fd: r.next_fd + 1, ..r }))
    } else {
        Err(ParseRawError::MissingFd)
    }
}

/// A wire interface name: a non-empty NUL-terminated byte string whose body
/// spells well-formed text with no embedded NUL.
pub open spec fn rd_title_name(v: Seq<u8>) -> Result<Seq<char>, ParseRawError> {
    if v.len() == 0 {
        Err(ParseRawError::InvalidString)
    } else if v.last() != 0u8 {
        Err(ParseRawError::StringNotNulTerminated)
    } else if v.drop_last().contains(0u8) {
        Err(ParseRawError::InvalidString)
    } else if !valid_utf8(v.drop_last()) {
        Err(ParseRawError::InvalidString)
    } else {
        Ok(decode_utf8(v.drop_last()))
    }
}

/// Reading a dynamic-interface new id: the interface name, then the version,
/// then the id itself.
pub open spec fn rd_new_id_anonymous(r: ReaderState) -> Result<
    ((u32, InterfaceTitleView), ReaderState),
    ParseRawError,
> {
    match rd_array(r) {
        Err(e) => Err(e),
        Ok((v, r1)) => match rd_title_name(v) {
            Err(e) => Err(e),
            Ok(name) => match rd_u32(r1) {
                None => Err(ParseRawError::ShortPayload),
                Some((version, r2)) => match rd_u32(r2) {
                    None => Err(ParseRawError::ShortPayload),
                    Some((id, r3)) => Ok(
                        ((id, InterfaceTitleView { name, version }), r3),
                    ),
                },
            },
        },
    }
}

/// A cursor over one raw message: the payload bytes and file descriptors are
/// consumed in schema order.
pub struct RawMessageReader {
    pub header: MessageHeader,
    pub data: Vec<u8>,
    pub pos: usize,
    pub fds: Vec<RawFd>,
    pub next_fd: usize,
}

impl View for RawMessageReader {
    type V = ReaderState;

    open spec fn view(&self) -> ReaderState {
        ReaderState {
            data: self.data@,
            pos: self.pos as int,
            fds: self.fds@,
            next_fd: self.next_fd as int,
        }
    }
}

impl RawMessageReader {
    pub fn new(raw: &RawMessage) -> (r: Self)
        ensures
            r.header == raw.header,
            r@.data == raw.data@,
            r@.pos == 0,
            r@.fds == raw.fds@,
            r@.next_fd == 0,
    {
        RawMessageReader {
            header: raw.header,
            data: clone_bytes(&raw.data),
            pos: 0,
            fds: clone_fds(&raw.fds),
            next_fd: 0,
        }
    }

    pub fn next_uint(&mut self) -> (r: Result<u32, ParseRawError>)
        ensures
            match r {
                Ok(v) => {
                    &&& rd_u32(old(self)@) matches Some((w, r2)) && v == w && final(self)@ == r2
                    &&& final(self).header == old(self).header
                },
                Err(e) => {
                    &&& rd_u32(old(self)@) is None
                    &&& e == ParseRawError::ShortPayload
                    &&& final(self)@ == old(self)@
                    &&& final(self).header == old(self).header
                },
            },
    {
        if self.data.len() >= 4 && self.pos <= self.data.len() - 4 {
            let s = vstd::slice::slice_subrange(self.data.as_slice(), self.pos, self.pos + 4);
            let v = u32_from_le_bytes(s);
            self.pos = self.pos + 4;
            Ok(v)
        } else {
            Err(ParseRawError::ShortPayload)
        }
    }

    pub fn next_int(&mut self) -> (r: Result<i32, ParseRawError>)
        ensures
            match r {
                Ok(v) => {
                    &&& rd_u32(old(self)@) matches Some((w, r2)) && v == w as i32 && final(self)@ == r2
                    &&& final(self).header == old(self).header
                },
                Err(e) => {
                    &&& rd_u32(old(self)@) is None
                    &&& e == ParseRawError::ShortPayload
                    &&& final(self)@ == old(self)@
                    &&& final(self).header == old(self).header
                },
            },
    {
        match self.next_uint() {
            Ok(v) => Ok(v as i32),
            Err(e) => Err(e),
        }
    }

    pub fn next_fixed(&mut self) -> (r: Result<Fixed, ParseRawError>)
        ensures
            match r {
                Ok(v) => {
                    &&& rd_u32(old(self)@) matches Some((w, r2)) && v == Fixed(w) && final(self)@ == r2
                    &&& final(self).header == old(self).header
                },
                Err(e) => {
                    &&& rd_u32(old(self)@) is None
                    &&& e == ParseRawError::ShortPayload
                    &&& final(self)@ == old(self)@
                    &&& final(self).header == old(self).header
                },
            },
    {
        match self.next_uint() {
            Ok(v) => Ok(Fixed(v)),
            Err(e) => Err(e),
        }
    }

    /// Read a length-prefixed, padded byte field and step over its padding.
    pub fn next_array(&mut self) -> (r: Result<Vec<u8>, ParseRawError>)
        ensures
            match r {
                Ok(v) => {
                    &&& rd_array(old(self)@) matches Ok((w, r2)) && v@ == w && final(self)@ == r2
                    &&& final(self).header == old(self).header
                },
                Err(e) => {
                    &&& rd_array(old(self)@) == Err::<(Seq<u8>, ReaderState), _>(e)
                    &&& final(self)@ == old(self)@
                    &&& final(self).header == old(self).header
                },
            },
    {
        let len_u32 = match self.next_uint() {
            Ok(v) => v,
            Err(e) => {
                return Err(e);
            },
        };
        let len = len_u32 as usize;
        let pad = pad_of(len_u32);
        if len <= self.data.len() && pad <= self.data.len() - len && self.pos <= self.data.len()
            - len - pad {
            let v = vstd::slice::slice_to_vec(
                vstd::slice::slice_subrange(self.data.as_slice(), self.pos, self.pos + len),
            );
            self.pos = self.pos + len + pad;
            Ok(v)
        } else {
            // undo the length read: the whole field is refused
            self.pos = self.pos - 4;
            assert(self@ == old(self)@);
            Err(ParseRawError::LengthExceedsFrame)
        }
    }

    /// Read a string field: a zero length means null, anything else must end
    /// with the obligatory NUL byte, which stays in the returned bytes.
    pub fn next_string(&mut self) -> (r: Result<Option<Vec<u8>>, ParseRawError>)
        ensures
            match r {
                Ok(v) => {
                    &&& rd_string(old(self)@) matches Ok((w, r2))
                    &&& opt_bytes_view(v) == w
                    &&& final(self)@ == r2
                    &&& final(self).header == old(self).header
                },
                Err(e) => {
                    &&& rd_string(old(self)@) == Err::<(Option<Seq<u8>>, ReaderState), _>(e)
                    &&& final(self)@ == old(self)@
                    &&& final(self).header == old(self).header
                },
            },
    {
        let saved_pos = self.pos;
        let v = match self.next_array() {
            Ok(v) => v,
            Err(e) => {
                return Err(e);
            },
        };
        if v.len() == 0 {
            Ok(None)
        } else if v[v.len() - 1] != 0u8 {
            self.pos = saved_pos;
            assert(self@ == old(self)@);
            Err(ParseRawError::StringNotNulTerminated)
        } else {
            Ok(Some(v))
        }
    }

    pub fn next_object(&mut self) -> (r: Result<Option<u32>, ParseRawError>)
        ensures
            match r {
                Ok(v) => {
                    &&& rd_u32(old(self)@) matches Some((w, r2)) && final(self)@ == r2 && v == (if w == 0 {
                        Option::<u32>::None
                    } else {
                        Option::<u32>::Some(w)
                    })
                    &&& final(self).header == old(self).header
                },
                Err(e) => {
                    &&& rd_u32(old(self)@) is None
                    &&& e == ParseRawError::ShortPayload
                    &&& final(self)@ == old(self)@
                    &&& final(self).header == old(self).header
                },
            },
    {
        match self.next_uint() {
            Ok(v) => Ok(if v == 0 {
                None
            } else {
                Some(v)
            }),
            Err(e) => Err(e),
        }
    }

    pub fn next_new_id(&mut self) -> (r: Result<u32, ParseRawError>)
        ensures
            match r {
                Ok(v) => {
                    &&& rd_u32(old(self)@) matches Some((w, r2)) && v == w && final(self)@ == r2
                    &&& final(self).header == old(self).header
                },
                Err(e) => {
                    &&& rd_u32(old(self)@) is None
                    &&& e == ParseRawError::ShortPayload
                    &&& final(self)@ == old(self)@
                    &&& final(self).header == old(self).header
                },
            },
    {
        self.next_uint()
    }

    /// Read a dynamic-interface new id: interface name, version, then id.
    pub fn next_new_id_anonymous(&mut self) -> (r: Result<(u32, InterfaceTitle), ParseRawError>)
        ensures
            match r {
                Ok((id, title)) => {
                    &&& rd_new_id_anonymous(old(self)@) matches Ok(((i, t), r2)) && id == i
                        && title@ == t && final(self)@ == r2
                    &&& final(self).header == old(self).header
                },
                Err(e) => {
                    &&& rd_new_id_anonymous(old(self)@) == Err::<
                        ((u32, InterfaceTitleView), ReaderState),
                        _,
                    >(e)
                    &&& final(self)@ == old(self)@
                    &&& final(self).header == old(self).header
                },
            },
    {
        let saved_pos = self.pos;
        let v = match self.next_array() {
            Ok(v) => v,
            Err(e) => {
                return Err(e);
            },
        };
        let name = match title_name_from_bytes(&v) {
            Ok(n) => n,
            Err(e) => {
                self.pos = saved_pos;
                assert(self@ == old(self)@);
                return Err(e);
            },
        };
        let version = match self.next_uint() {
            Ok(v) => v,
            Err(e) => {
                self.pos = saved_pos;
                assert(self@ == old(self)@);
                return Err(e);
            },
        };
        let id = match self.next_uint() {
            Ok(v) => v,
            Err(e) => {
                self.pos = saved_pos;
                assert(self@ == old(self)@);
                return Err(e);
            },
        };
        Ok((id, InterfaceTitle::new(name, version)))
    }

    /// Pop the next file descriptor from the queue that came with the frame.
    pub fn next_fd(&mut self) -> (r: Result<RawFd, ParseRawError>)
        ensures
            match r {
                Ok(v) => {
                    &&& rd_fd(old(self)@) matches Ok((w, r2)) && v == w && final(self)@ == r2
                    &&& final(self).header == old(self).header
                },
                Err(e) => {
                    &&& rd_fd(old(self)@) == Err::<(RawFd, ReaderState), _>(e)
                    &&& final(self)@ == old(self)@
                    &&& final(self).header == old(self).header
                },
            },
    {
        if self.next_fd < self.fds.len() {
            let fd = self.fds[self.next_fd];
            self.next_fd = self.next_fd + 1;
            Ok(fd)
        } else {
            Err(ParseRawError::MissingFd)
        }
    }
}

/// Padding that follows a field of `len` bytes.
pub fn pad_of(len: u32) -> (r: usize)
    ensures
        r == spec_pad(len as int),
        r < 4,
{
    ((4 - (len % 4)) % 4) as usize
}

fn clone_bytes(v: &Vec<u8>) -> (r: Vec<u8>)
    ensures
        r@ == v@,
{
    vstd::slice::slice_to_vec(v.as_slice())
}

fn clone_fds(v: &Vec<RawFd>) -> (r: Vec<RawFd>)
    ensures
        r@ == v@,
{
    vstd::slice::slice_to_vec(v.as_slice())
}

/// Decode a wire interface name: drop the obligatory trailing NUL and read
/// the remaining bytes as text.
fn title_name_from_bytes(v: &Vec<u8>) -> (r: Result<String, ParseRawError>)
    ensures
        match r {
            Ok(s) => rd_title_name(v@) == Ok::<Seq<char>, ParseRawError>(s@),
            Err(e) => rd_title_name(v@) == Err::<Seq<char>, ParseRawError>(e),
        },
{
    if v.len() == 0 {
        return Err(ParseRawError::InvalidString);
    }
    if v[v.len() - 1] != 0u8 {
        return Err(ParseRawError::StringNotNulTerminated);
    }
    let body = vstd::slice::slice_subrange(v.as_slice(), 0, v.len() - 1);
    assert(body@ =~= v@.drop_last());
    let mut i: usize = 0;
    let n = body.len();
    while i < n
        invariant
            i <= n,
            n == body@.len(),
            body@ == v@.drop_last(),
            v@.len() > 0,
            v@.last() == 0u8,
            forall|k: int| 0 <= k < i ==> body@[k] != 0u8,
        decreases n - i,
    {
        if *vstd::slice::slice_index_get(body, i) == 0u8 {
            proof {
                assert(v@.drop_last().contains(0u8)) by {
                    assert(v@.drop_last()[i as int] == 0u8);
                }
            }
            return Err(ParseRawError::InvalidString);
        }
        i = i + 1;
    }
    proof {
        assert(!v@.drop_last().contains(0u8)) by {
            if v@.drop_last().contains(0u8) {
                let j = choose|j: int|
                    0 <= j < v@.drop_last().len() && v@.drop_last()[j] == 0u8;
                assert(body@[j] != 0u8);
            }
        }
    }
    match bytes_to_string(body) {
        Some(s) => {
            proof {
                broadcast use vstd::utf8::encode_utf8_decode_utf8;

            }
            assert(decode_utf8(v@.drop_last()) == s@);
            Ok(s)
        },
        None => Err(ParseRawError::InvalidString),
    }
}

/// Relies on core::str::from_utf8: it accepts exactly the byte strings that
/// are valid UTF-8, and the accepted string spells those very bytes.
#[verifier::external_body]
fn bytes_to_string(v: &[u8]) -> (r: Option<String>)
    ensures
        r is Some <==> valid_utf8(v@),
        r matches Some(s) ==> encode_utf8(s@) == v@,
{
    match core::str::from_utf8(v) {
        Ok(s) => Some(s.to_owned()),
        Err(_) => None,
    }
}

/// A run of `n` zero bytes.
pub open spec fn zero_bytes(n: int) -> Seq<u8> {
    Seq::new(n as nat, |i: int| 0u8)
}

/// The wire form of a length-prefixed byte field: the length, the bytes, and
/// zero padding up to the next 32-bit boundary.
pub open spec fn wr_array(v: Seq<u8>) -> Seq<u8> {
    spec_u32_to_le_bytes(v.len() as u32) + v + zero_bytes(spec_pad(v.len() as int))
}

/// The bytes an interface title's name occupies on the wire: the encoded name
/// followed by the obligatory NUL.
pub open spec fn title_wire_bytes(t: InterfaceTitleView) -> Seq<u8> {
    encode_utf8(t.name) + seq![0u8]
}

/// Every variable-length field must keep its length strictly below the
/// 32-bit limit; a field at or over it is refused as too long.
pub open spec fn arg_len_ok(a: DynArgumentView) -> bool {
    match a {
        DynArgumentView::String(Some(v)) => v.len() < 0xFFFF_FFFFu32,
        DynArgumentView::Array(v) => v.len() < 0xFFFF_FFFFu32,
        DynArgumentView::NewId(_, Some(t)) => title_wire_bytes(t).len() < 0xFFFF_FFFFu32,
        _ => true,
    }
}

pub open spec fn args_lens_ok(s: Seq<DynArgumentView>) -> bool {
    forall|i: int| 0 <= i < s.len() ==> arg_len_ok(#[trigger] s[i])
}

/// A title can be written only if its encoded name has no embedded NUL,
/// since the NUL terminates the name on the wire.
pub open spec fn title_writable(t: InterfaceTitleView) -> bool {
    !encode_utf8(t.name).contains(0u8)
}

pub open spec fn arg_writable(a: DynArgumentView) -> bool {
    a matches DynArgumentView::NewId(_, Some(t)) ==> title_writable(t)
}

pub open spec fn args_writable(s: Seq<DynArgumentView>) -> bool {
    forall|i: int| 0 <= i < s.len() ==> arg_writable(#[trigger] s[i])
}

/// The payload bytes and out-of-band file descriptors one argument
/// contributes to a frame.
pub open spec fn ser_arg(a: DynArgumentView) -> (Seq<u8>, Seq<RawFd>) {
    match a {
        DynArgumentView::Int(v) => (spec_u32_to_le_bytes(v as u32), Seq::empty()),
        DynArgumentView::Uint(v) => (spec_u32_to_le_bytes(v), Seq::empty()),
        DynArgumentView::Fixed(v) => (spec_u32_to_le_bytes(v), Seq::empty()),
        DynArgumentView::String(None) => (spec_u32_to_le_bytes(0), Seq::empty()),
        DynArgumentView::String(Some(v)) => (wr_array(v), Seq::empty()),
        DynArgumentView::Object(None) => (spec_u32_to_le_bytes(0), Seq::empty()),
        DynArgumentView::Object(Some(v)) => (spec_u32_to_le_bytes(v), Seq::empty()),
        DynArgumentView::NewId(id, None) => (spec_u32_to_le_bytes(id), Seq::empty()),
        DynArgumentView::NewId(id, Some(t)) => (
            wr_array(title_wire_bytes(t)) + spec_u32_to_le_bytes(t.version)
                + spec_u32_to_le_bytes(id),
            Seq::empty(),
        ),
        DynArgumentView::Array(v) => (wr_array(v), Seq::empty()),
        DynArgumentView::Fd(fd) => (Seq::empty(), seq![fd]),
    }
}

/// The payload and file descriptors of a whole argument list, in order.
pub open spec fn ser_args(s: Seq<DynArgumentView>) -> (Seq<u8>, Seq<RawFd>)
    decreases s.len(),
{
    if s.len() == 0 {
        (Seq::empty(), Seq::empty())
    } else {
        let first = ser_arg(s[0]);
        let rest = ser_args(s.drop_first());
        (first.0 + rest.0, first.1 + rest.1)
    }
}

/// Serialization emits arguments one after another: appending an argument
/// appends its bytes and file descriptors.
pub proof fn lemma_ser_args_push(s: Seq<DynArgumentView>, a: DynArgumentView)
    ensures
        ser_args(s.push(a)).0 == ser_args(s).0 + ser_arg(a).0,
        ser_args(s.push(a)).1 == ser_args(s).1 + ser_arg(a).1,
    decreases s.len(),
{
    if s.len() == 0 {
        assert(s.push(a)[0] == a);
        let e = s.push(a).drop_first();
        assert(e =~= Seq::<DynArgumentView>::empty());
        assert(ser_args(e).0 == Seq::<u8>::empty());
        assert(ser_args(e).1 == Seq::<RawFd>::empty());
        assert(ser_args(s).0 == Seq::<u8>::empty());
        assert(ser_args(s).1 == Seq::<RawFd>::empty());
        assert(ser_args(s.push(a)).0 =~= ser_args(s).0 + ser_arg(a).0);
        assert(ser_args(s.push(a)).1 =~= ser_args(s).1 + ser_arg(a).1);
    } else {
        assert(s.push(a).drop_first() =~= s.drop_first().push(a));
        lemma_ser_args_push(s.drop_first(), a);
        assert(s.push(a)[0] == s[0]);
        assert(ser_args(s.push(a)).0 =~= ser_args(s).0 + ser_arg(a).0);
        assert(ser_args(s.push(a)).1 =~= ser_args(s).1 + ser_arg(a).1);
    }
}

/// Append a length-prefixed byte field to `buf`: length word, the bytes
/// themselves, then zero padding to the next 32-bit boundary.
fn write_array(buf: &mut Vec<u8>, array: &[u8]) -> (r: Result<(), SerializeRawError>)
    ensures
        match r {
            Ok(_) => {
                &&& array@.len() < 0xFFFF_FFFFu32
                &&& final(buf)@ == old(buf)@ + wr_array(array@)
            },
            Err(e) => {
                &&& e == SerializeRawError::ArrayTooLong
                &&& array@.len() >= 0xFFFF_FFFFu32
                &&& final(buf)@ == old(buf)@
            },
        },
{
    if array.len() >= 0xFFFF_FFFFusize {
        return Err(SerializeRawError::ArrayTooLong);
    }
    let len = array.len() as u32;
    let mut lenb = u32_to_le_bytes(len);
    buf.append(&mut lenb);
    let n = array.len();
    let mut i: usize = 0;
    while i < n
        invariant
            i <= n,
            n == array@.len(),
            buf@ == old(buf)@ + spec_u32_to_le_bytes(n as u32) + array@.take(i as int),
        decreases n - i,
    {
        buf.push(*vstd::slice::slice_index_get(array, i));
        proof {
            assert(buf@ =~= old(buf)@ + spec_u32_to_le_bytes(n as u32) + array@.take(
                i + 1 as int,
            ));
        }
        i = i + 1;
    }
    proof {
        assert(array@.take(n as int) =~= array@);
    }
    let p = pad_of(len);
    let mut k: usize = 0;
    while k < p
        invariant
            k <= p,
            p == spec_pad(array@.len() as int),
            buf@ == old(buf)@ + spec_u32_to_le_bytes(array@.len() as u32) + array@ + zero_bytes(
                k as int,
            ),
        decreases p - k,
    {
        buf.push(0u8);
        proof {
            assert(buf@ =~= old(buf)@ + spec_u32_to_le_bytes(array@.len() as u32) + array@
                + zero_bytes(k + 1 as int));
        }
        k = k + 1;
    }
    proof {
        assert(buf@ =~= old(buf)@ + wr_array(array@));
    }
    Ok(())
}

/// Append one 32-bit word to `buf`.
pub fn write_u32(buf: &mut Vec<u8>, v: u32)
    ensures
        final(buf)@ == old(buf)@ + spec_u32_to_le_bytes(v),
        final(buf)@.len() == old(buf)@.len() + 4,
{
    let mut b = u32_to_le_bytes(v);
    buf.append(&mut b);
    proof {
        lemma_auto_spec_u32_to_from_le_bytes();
    }
}

/// A message in its dynamic form: sender, opcode, and the argument values.
pub struct DynMessage {
    pub sender: u32,
    pub opcode: u16,
    pub arguments: Vec<DynArgument>,
}

pub struct DynMessageView {
    pub sender: u32,
    pub opcode: u16,
    pub arguments: Seq<DynArgumentView>,
}

impl View for DynMessage {
    type V = DynMessageView;

    open spec fn view(&self) -> DynMessageView {
        DynMessageView {
            sender: self.sender,
            opcode: self.opcode,
            arguments: self.arguments.deep_view(),
        }
    }
}

impl DynMessage {
    pub fn new(sender: u32, opcode: u16, arguments: Vec<DynArgument>) -> (r: Self)
        ensures
            r@ == (DynMessageView { sender, opcode, arguments: arguments.deep_view() }),
    {
        DynMessage { sender, opcode, arguments }
    }

    /// Parse a raw frame's payload into a dynamic message, using the schema
    /// of the frame's opcode.
    pub fn from_raw(args_desc: &Vec<ArgumentDesc>, reader: RawMessageReader) -> (r: Result<
        Self,
        ParseRawError,
    >)
        ensures
            match parse_list(args_desc.deep_view(), reader@) {
                Ok((vals, _)) => {
                    &&& r matches Ok(m)
                    &&& m@.sender == reader.header.sender
                    &&& m@.opcode == reader.header.opcode
                    &&& m@.arguments == vals
                },
                Err(e) => r matches Err(e2) && e2 == e,
            },
    {
        let sender = reader.header.sender;
        let opcode = reader.header.opcode;
        let arguments = match Self::parse_dyn_args(args_desc, reader) {
            Ok(a) => a,
            Err(e) => {
                return Err(e);
            },
        };
        Ok(DynMessage { sender, opcode, arguments })
    }

    /// Frame this message: serialize the arguments and attach the header.
    /// The frame size must fit the header's 16-bit size field.
    pub fn into_raw(&self) -> (r: Result<RawMessage, SerializeRawError>)
        requires
            args_writable(self@.arguments),
        ensures
            match r {
                Ok(raw) => {
                    &&& args_lens_ok(self@.arguments)
                    &&& ser_args(self@.arguments).0.len() + 8 <= u16::MAX
                    &&& raw.header == (MessageHeader {
                        sender: self@.sender,
                        opcode: self@.opcode,
                        msg_size: (ser_args(self@.arguments).0.len() + 8) as u16,
                    })
                    &&& raw.data@ == ser_args(self@.arguments).0
                    &&& raw.fds@ == ser_args(self@.arguments).1
                },
                Err(SerializeRawError::ArrayTooLong) => !args_lens_ok(self@.arguments),
                Err(SerializeRawError::MessageTooLong) => {
                    &&& args_lens_ok(self@.arguments)
                    &&& ser_args(self@.arguments).0.len() + 8 > u16::MAX
                },
                Err(SerializeRawError::ObjectDoesntExist) => false,
            },
    {
        let (data, fds) = match Self::serialize_raw_args(&self.arguments) {
            Ok(p) => p,
            Err(e) => {
                return Err(e);
            },
        };
        if data.len() > (u16::MAX as usize) - 8 {
            return Err(SerializeRawError::MessageTooLong);
        }
        let msg_size = (data.len() + 8) as u16;
        Ok(
            RawMessage {
                header: MessageHeader { sender: self.sender, opcode: self.opcode, msg_size },
                data,
                fds,
            },
        )
    }

    /// Turn an argument list into payload bytes and an out-of-band file
    /// descriptor list.
    pub fn serialize_raw_args(args: &Vec<DynArgument>) -> (r: Result<
        (Vec<u8>, Vec<RawFd>),
        SerializeRawError,
    >)
        requires
            args_writable(args.deep_view()),
        ensures
            match r {
                Ok((data, fds)) => {
                    &&& args_lens_ok(args.deep_view())
                    &&& data@ == ser_args(args.deep_view()).0
                    &&& fds@ == ser_args(args.deep_view()).1
                },
                Err(e) => {
                    &&& e == SerializeRawError::ArrayTooLong
                    &&& !args_lens_ok(args.deep_view())
                },
            },
    {
        let ghost av = args.deep_view();
        let mut buf: Vec<u8> = Vec::new();
        let mut fds: Vec<RawFd> = Vec::new();
        let n = args.len();
        let mut i: usize = 0;
        while i < n
            invariant
                i <= n,
                n == args@.len(),
                av == args.deep_view(),
                av.len() == n,
                args_writable(av),
                args_lens_ok(av.take(i as int)),
                buf@ == ser_args(av.take(i as int)).0,
                fds@ == ser_args(av.take(i as int)).1,
            decreases n - i,
        {
            let ghost pre_take = av.take(i as int);
            assert(args[i as int].deep_view() == av[i as int]);
            match &args[i] {
                DynArgument::Int(v) => {
                    write_u32(&mut buf, *v as u32);
                },
                DynArgument::Uint(v) => {
                    write_u32(&mut buf, *v);
                },
                DynArgument::Fixed(f) => {
                    write_u32(&mut buf, f.0);
                },
                DynArgument::String(o) => match o {
                    Some(v) => {
                        match write_array(&mut buf, v.as_slice()) {
                            Ok(_) => {},
                            Err(e) => {
                                proof {
                                    assert(!arg_len_ok(av[i as int]));
                                }
                                return Err(e);
                            },
                        }
                    },
                    None => {
                        write_u32(&mut buf, 0);
                    },
                },
                DynArgument::Object(o) => match o {
                    Some(v) => {
                        write_u32(&mut buf, *v);
                    },
                    None => {
                        write_u32(&mut buf, 0);
                    },
                },
                DynArgument::NewId(id, o) => match o {
                    Some(t) => {
                        let mut namebytes = t.name.as_str().as_bytes_vec();
                        namebytes.push(0u8);
                        assert(namebytes@ =~= title_wire_bytes(t@));
                        match write_array(&mut buf, namebytes.as_slice()) {
                            Ok(_) => {},
                            Err(e) => {
                                proof {
                                    assert(!arg_len_ok(av[i as int]));
                                }
                                return Err(e);
                            },
                        }
                        write_u32(&mut buf, t.version);
                        write_u32(&mut buf, *id);
                    },
                    None => {
                        write_u32(&mut buf, *id);
                    },
                },
                DynArgument::Array(v) => {
                    match write_array(&mut buf, v.as_slice()) {
                        Ok(_) => {},
                        Err(e) => {
                            proof {
                                assert(!arg_len_ok(av[i as int]));
                            }
                            return Err(e);
                        },
                    }
                },
                DynArgument::Fd(fd) => {
                    fds.push(*fd);
                },
            }
            proof {
                lemma_ser_args_push(pre_take, av[i as int]);
                assert(av.take(i + 1 as int) =~= pre_take.push(av[i as int]));
                assert(buf@ =~= ser_args(av.take(i + 1 as int)).0);
                assert(fds@ =~= ser_args(av.take(i + 1 as int)).1);
            }
            i = i + 1;
        }
        proof {
            assert(av.take(n as int) =~= av);
        }
        Ok((buf, fds))
    }

    /// Read the arguments a schema describes out of a raw frame, consuming
    /// payload bytes and file descriptors in schema order.
    #[verifier::rlimit(60)]
    pub fn parse_dyn_args(args_desc: &Vec<ArgumentDesc>, reader: RawMessageReader) -> (r: Result<
        Vec<DynArgument>,
        ParseRawError,
    >)
        ensures
            match parse_list(args_desc.deep_view(), reader@) {
                Ok((vals, _)) => r matches Ok(v) && v.deep_view() == vals,
                Err(e) => r matches Err(e2) && e2 == e,
            },
    {
        let ghost dsv = args_desc.deep_view();
        let ghost r0 = reader@;
        let mut rd = reader;
        let mut args: Vec<DynArgument> = Vec::new();
        let n = args_desc.len();
        let mut i: usize = 0;
        proof {
            assert(dsv.skip(0) =~= dsv);
            match parse_list(dsv, r0) {
                Ok((vals, rend)) => {
                    assert(args.deep_view() + vals =~= vals);
                },
                Err(_) => {},
            }
        }
        while i < n
            invariant
                i <= n,
                n == args_desc.len(),
                dsv == args_desc.deep_view(),
                dsv.len() == n,
                args@.len() == i,
                r0 == reader@,
                parse_list(dsv, r0) == (match parse_list(dsv.skip(i as int), rd@) {
                    Ok((rest, rend)) => Ok::<_, ParseRawError>((args.deep_view() + rest, rend)),
                    Err(e) => Err::<(Seq<DynArgumentView>, ReaderState), _>(e),
                }),
            decreases n - i,
        {
            let d = &args_desc[i];
            assert(d@ == dsv[i as int]);
            let ghost cur = rd@;
            let ghost pre_args = args.deep_view();
            proof {
                assert(dsv.skip(i as int).len() == n - i);
                assert(dsv.skip(i as int)[0] == dsv[i as int]);
                assert(dsv.skip(i as int).drop_first() =~= dsv.skip(i + 1 as int));
            }
            let step: Result<DynArgument, ParseRawError> = parse_one_arg(d, &mut rd);
            let arg = match step {
                Ok(a) => a,
                Err(e) => {
                    proof {
                        assert(parse_list(dsv.skip(i as int), cur) == Err::<
                            (Seq<DynArgumentView>, ReaderState),
                            ParseRawError,
                        >(e));
                    }
                    return Err(e);
                },
            };
            proof {
                assert(parse_one(dsv[i as int], cur) == Ok::<_, ParseRawError>((arg@, rd@)));
            }
            let ghost argv = arg@;
            let ghost prevs = args@;
            args.push(arg);
            proof {
                assert forall|k: int| 0 <= k < i + 1 implies args.deep_view()[k] == pre_args.push(
                    argv,
                )[k] by {
                    if k < i {
                        assert(args@[k] == prevs[k]);
                        assert(args.deep_view()[k] == pre_args[k]);
                    } else {
                        assert(args@[k]@ == argv);
                    }
                }
                assert(args.deep_view() =~= pre_args.push(argv));
                match parse_list(dsv.skip(i + 1 as int), rd@) {
                    Ok((rest, rend)) => {
                        assert(parse_list(dsv.skip(i as int), cur) == Ok::<_, ParseRawError>(
                            (seq![argv] + rest, rend),
                        ));
                        assert(pre_args + (seq![argv] + rest) =~= args.deep_view() + rest);
                    },
                    Err(e) => {
                        assert(parse_list(dsv.skip(i as int), cur) == Err::<
                            (Seq<DynArgumentView>, ReaderState),
                            ParseRawError,
                        >(e));
                    },
                }
            }
            i = i + 1;
        }
        proof {
            assert(dsv.skip(n as int) =~= Seq::<ArgDescView>::empty());
            assert(parse_list(dsv.skip(n as int), rd@) == Ok::<_, ParseRawError>(
                (Seq::<DynArgumentView>::empty(), rd@),
            ));
            assert(args.deep_view() + Seq::<DynArgumentView>::empty() =~= args.deep_view());
        }
        Ok(args)
    }
}

/// Read one argument, as its descriptor directs.
fn parse_one_arg(d: &ArgumentDesc, reader: &mut RawMessageReader) -> (r: Result<
    DynArgument,
    ParseRawError,
>)
    ensures
        match r {
            Ok(a) => {
                &&& parse_one(d@, old(reader)@) matches Ok((av, r2))
                &&& a@ == av
                &&& final(reader)@ == r2
                &&& final(reader).header == old(reader).header
            },
            Err(e) => {
                &&& parse_one(d@, old(reader)@) == Err::<(DynArgumentView, ReaderState), _>(e)
                &&& final(reader)@ == old(reader)@
                &&& final(reader).header == old(reader).header
            },
        },
{
    match d.arg_type {
        ArgumentType::Int => match reader.next_int() {
            Ok(v) => Ok(DynArgument::Int(v)),
            Err(e) => Err(e),
        },
        ArgumentType::Uint => match reader.next_uint() {
            Ok(v) => Ok(DynArgument::Uint(v)),
            Err(e) => Err(e),
        },
        ArgumentType::Fixed => match reader.next_fixed() {
            Ok(v) => Ok(DynArgument::Fixed(v)),
            Err(e) => Err(e),
        },
        ArgumentType::String => match reader.next_string() {
            Ok(v) => Ok(DynArgument::String(v)),
            Err(e) => Err(e),
        },
        ArgumentType::Object => match reader.next_object() {
            Ok(v) => Ok(DynArgument::Object(v)),
            Err(e) => Err(e),
        },
        ArgumentType::NewId => {
            if d.interface.is_some() {
                assert(d@.interface is Some);
                match reader.next_new_id() {
                    Ok(v) => Ok(DynArgument::NewId(v, None)),
                    Err(e) => Err(e),
                }
            } else {
                assert(d@.interface is None);
                match reader.next_new_id_anonymous() {
                    Ok((id, t)) => Ok(DynArgument::NewId(id, Some(t))),
                    Err(e) => Err(e),
                }
            }
        },
        ArgumentType::Array => match reader.next_array() {
            Ok(v) => Ok(DynArgument::Array(v)),
            Err(e) => Err(e),
        },
        ArgumentType::Fd => match reader.next_fd() {
            Ok(v) => Ok(DynArgument::Fd(v)),
            Err(e) => Err(e),
        },
    }
}

/// What one schema slot makes of the reader's next bytes.
pub open spec fn parse_one(d: ArgDescView, r: ReaderState) -> Result<
    (DynArgumentView, ReaderState),
    ParseRawError,
> {
    match d.arg_type {
        ArgumentType::Int => match rd_u32(r) {
            Some((v, r2)) => Ok((DynArgumentView::Int(v as i32), r2)),
            None => Err(ParseRawError::ShortPayload),
        },
        ArgumentType::Uint => match rd_u32(r) {
            Some((v, r2)) => Ok((DynArgumentView::Uint(v), r2)),
            None => Err(ParseRawError::ShortPayload),
        },
        ArgumentType::Fixed => match rd_u32(r) {
            Some((v, r2)) => Ok((DynArgumentView::Fixed(v), r2)),
            None => Err(ParseRawError::ShortPayload),
        },
        ArgumentType::String => match rd_string(r) {
            Ok((v, r2)) => Ok((DynArgumentView::String(v), r2)),
            Err(e) => Err(e),
        },
        ArgumentType::Object => match rd_u32(r) {
            Some((v, r2)) => Ok(
                (
                    DynArgumentView::Object(
                        if v == 0 {
                            None
                        } else {
                            Some(v)
                        },
                    ),
                    r2,
                ),
            ),
            None => Err(ParseRawError::ShortPayload),
        },
        ArgumentType::NewId => {
            if d.interface is Some {
                match rd_u32(r) {
                    Some((v, r2)) => Ok((DynArgumentView::NewId(v, None), r2)),
                    None => Err(ParseRawError::ShortPayload),
                }
            } else {
                match rd_new_id_anonymous(r) {
                    Ok(((id, t), r2)) => Ok((DynArgumentView::NewId(id, Some(t)), r2)),
                    Err(e) => Err(e),
                }
            }
        },
        ArgumentType::Array => match rd_array(r) {
            Ok((v, r2)) => Ok((DynArgumentView::Array(v), r2)),
            Err(e) => Err(e),
        },
        ArgumentType::Fd => match rd_fd(r) {
            Ok((v, r2)) => Ok((DynArgumentView::Fd(v), r2)),
            Err(e) => Err(e),
        },
    }
}

/// What a whole schema makes of the reader: the argument values in schema
/// order, or the first error met.
pub open spec fn parse_list(ds: Seq<ArgDescView>, r: ReaderState) -> Result<
    (Seq<DynArgumentView>, ReaderState),
    ParseRawError,
>
    decreases ds.len(),
{
    if ds.len() == 0 {
        Ok((Seq::empty(), r))
    } else {
        match parse_one(ds[0], r) {
            Err(e) => Err(e),
            Ok((a, r1)) => match parse_list(ds.drop_first(), r1) {
                Err(e) => Err(e),
                Ok((rest, r2)) => Ok((seq![a] + rest, r2)),
            },
        }
    }
}

/// A cursor over a dynamic argument list, handing arguments out in order and
/// checking that each has the kind its reader expects.
pub struct DynArgumentReader {
    pub args: Vec<DynArgument>,
}

impl View for DynArgumentReader {
    type V = Seq<DynArgumentView>;

    open spec fn view(&self) -> Seq<DynArgumentView> {
        self.args.deep_view()
    }
}

impl DynArgumentReader {
    pub fn from_args(args: Vec<DynArgument>) -> (r: Self)
        ensures
            r@ == args.deep_view(),
    {
        DynArgumentReader { args }
    }

    /// Take the next argument off the front of the list, whatever it is.
    pub fn next_arg(&mut self) -> (r: Option<DynArgument>)
        ensures
            match r {
                None => old(self)@.len() == 0 && final(self)@ == old(self)@,
                Some(a) => {
                    &&& old(self)@.len() > 0
                    &&& a@ == old(self)@[0]
                    &&& final(self)@ == old(self)@.drop_first()
                },
            },
    {
        if self.args.is_empty() {
            None
        } else {
            let ghost prevs = self.args@;
            let a = self.args.remove(0);
            proof {
                assert forall|k: int|
                    0 <= k < self@.len() implies self@[k] == old(self)@.drop_first()[k] by {
                    assert(self.args@[k] == prevs[k + 1]);
                }
                assert(self@ =~= old(self)@.drop_first());
            }
            Some(a)
        }
    }

    pub fn next_int(&mut self) -> (r: Result<i32, ArgumentError>)
        ensures
            match r {
                Ok(v) => {
                    &&& old(self)@.len() > 0
                    &&& old(self)@[0] matches DynArgumentView::Int(w) && v == w
                    &&& final(self)@ == old(self)@.drop_first()
                },
                Err(ArgumentError::InsufficientArguments) => old(self)@.len() == 0 && final(self)@ == old(self)@,
                Err(ArgumentError::IncorrectArguments) => {
                    &&& old(self)@.len() > 0
                    &&& !(old(self)@[0] is Int)
                    &&& final(self)@ == old(self)@.drop_first()
                },
            },
    {
        match self.next_arg() {
            None => Err(ArgumentError::InsufficientArguments),
            Some(a) => match a {
                DynArgument::Int(v) => Ok(v),
                _ => Err(ArgumentError::IncorrectArguments),
            },
        }
    }

    pub fn next_uint(&mut self) -> (r: Result<u32, ArgumentError>)
        ensures
            match r {
                Ok(v) => {
                    &&& old(self)@.len() > 0
                    &&& old(self)@[0] matches DynArgumentView::Uint(w) && v == w
                    &&& final(self)@ == old(self)@.drop_first()
                },
                Err(ArgumentError::InsufficientArguments) => old(self)@.len() == 0 && final(self)@ == old(self)@,
                Err(ArgumentError::IncorrectArguments) => {
                    &&& old(self)@.len() > 0
                    &&& !(old(self)@[0] is Uint)
                    &&& final(self)@ == old(self)@.drop_first()
                },
            },
    {
        match self.next_arg() {
            None => Err(ArgumentError::InsufficientArguments),
            Some(a) => match a {
                DynArgument::Uint(v) => Ok(v),
                _ => Err(ArgumentError::IncorrectArguments),
            },
        }
    }

    pub fn next_fixed(&mut self) -> (r: Result<Fixed, ArgumentError>)
        ensures
            match r {
                Ok(v) => {
                    &&& old(self)@.len() > 0
                    &&& old(self)@[0] matches DynArgumentView::Fixed(w) && v == Fixed(w)
                    &&& final(self)@ == old(self)@.drop_first()
                },
                Err(ArgumentError::InsufficientArguments) => old(self)@.len() == 0 && final(self)@ == old(self)@,
                Err(ArgumentError::IncorrectArguments) => {
                    &&& old(self)@.len() > 0
                    &&& !(old(self)@[0] is Fixed)
                    &&& final(self)@ == old(self)@.drop_first()
                },
            },
    {
        match self.next_arg() {
            None => Err(ArgumentError::InsufficientArguments),
            Some(a) => match a {
                DynArgument::Fixed(v) => Ok(v),
                _ => Err(ArgumentError::IncorrectArguments),
            },
        }
    }

    pub fn next_string(&mut self) -> (r: Result<Option<Vec<u8>>, ArgumentError>)
        ensures
            match r {
                Ok(v) => {
                    &&& old(self)@.len() > 0
                    &&& old(self)@[0] matches DynArgumentView::String(w) && opt_bytes_view(v) == w
                    &&& final(self)@ == old(self)@.drop_first()
                },
                Err(ArgumentError::InsufficientArguments) => old(self)@.len() == 0 && final(self)@ == old(self)@,
                Err(ArgumentError::IncorrectArguments) => {
                    &&& old(self)@.len() > 0
                    &&& !(old(self)@[0] is String)
                    &&& final(self)@ == old(self)@.drop_first()
                },
            },
    {
        match self.next_arg() {
            None => Err(ArgumentError::InsufficientArguments),
            Some(a) => match a {
                DynArgument::String(v) => Ok(v),
                _ => Err(ArgumentError::IncorrectArguments),
            },
        }
    }

    pub fn next_object(&mut self) -> (r: Result<Option<u32>, ArgumentError>)
        ensures
            match r {
                Ok(v) => {
                    &&& old(self)@.len() > 0
                    &&& old(self)@[0] matches DynArgumentView::Object(w) && v == w
                    &&& final(self)@ == old(self)@.drop_first()
                },
                Err(ArgumentError::InsufficientArguments) => old(self)@.len() == 0 && final(self)@ == old(self)@,
                Err(ArgumentError::IncorrectArguments) => {
                    &&& old(self)@.len() > 0
                    &&& !(old(self)@[0] is Object)
                    &&& final(self)@ == old(self)@.drop_first()
                },
            },
    {
        match self.next_arg() {
            None => Err(ArgumentError::InsufficientArguments),
            Some(a) => match a {
                DynArgument::Object(v) => Ok(v),
                _ => Err(ArgumentError::IncorrectArguments),
            },
        }
    }

    pub fn next_new_id(&mut self) -> (r: Result<(u32, Option<InterfaceTitle>), ArgumentError>)
        ensures
            match r {
                Ok(v) => {
                    &&& old(self)@.len() > 0
                    &&& old(self)@[0] matches DynArgumentView::NewId(w, t) && v.0 == w
                        && opt_title_view(v.1) == t
                    &&& final(self)@ == old(self)@.drop_first()
                },
                Err(ArgumentError::InsufficientArguments) => old(self)@.len() == 0 && final(self)@ == old(self)@,
                Err(ArgumentError::IncorrectArguments) => {
                    &&& old(self)@.len() > 0
                    &&& !(old(self)@[0] is NewId)
                    &&& final(self)@ == old(self)@.drop_first()
                },
            },
    {
        match self.next_arg() {
            None => Err(ArgumentError::InsufficientArguments),
            Some(a) => match a {
                DynArgument::NewId(v, t) => Ok((v, t)),
                _ => Err(ArgumentError::IncorrectArguments),
            },
        }
    }

    pub fn next_array(&mut self) -> (r: Result<Vec<u8>, ArgumentError>)
        ensures
            match r {
                Ok(v) => {
                    &&& old(self)@.len() > 0
                    &&& old(self)@[0] matches DynArgumentView::Array(w) && v@ == w
                    &&& final(self)@ == old(self)@.drop_first()
                },
                Err(ArgumentError::InsufficientArguments) => old(self)@.len() == 0 && final(self)@ == old(self)@,
                Err(ArgumentError::IncorrectArguments) => {
                    &&& old(self)@.len() > 0
                    &&& !(old(self)@[0] is Array)
                    &&& final(self)@ == old(self)@.drop_first()
                },
            },
    {
        match self.next_arg() {
            None => Err(ArgumentError::InsufficientArguments),
            Some(a) => match a {
                DynArgument::Array(v) => Ok(v),
                _ => Err(ArgumentError::IncorrectArguments),
            },
        }
    }

    pub fn next_fd(&mut self) -> (r: Result<RawFd, ArgumentError>)
        ensures
            match r {
                Ok(v) => {
                    &&& old(self)@.len() > 0
                    &&& old(self)@[0] matches DynArgumentView::Fd(w) && v == w
                    &&& final(self)@ == old(self)@.drop_first()
                },
                Err(ArgumentError::InsufficientArguments) => old(self)@.len() == 0 && final(self)@ == old(self)@,
                Err(ArgumentError::IncorrectArguments) => {
                    &&& old(self)@.len() > 0
                    &&& !(old(self)@[0] is Fd)
                    &&& final(self)@ == old(self)@.drop_first()
                },
            },
    {
        match self.next_arg() {
            None => Err(ArgumentError::InsufficientArguments),
            Some(a) => match a {
                DynArgument::Fd(v) => Ok(v),
                _ => Err(ArgumentError::IncorrectArguments),
            },
        }
    }
}

} // verus!
