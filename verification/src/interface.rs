use vstd::prelude::*;
use vstd::string::*;

use crate::wire::{ArgumentDesc, ArgDescView, ArgumentError};

verus! {

/// Schema tables for one side of an interface: the entry at index `op` lists
/// the argument descriptors of the message with opcode `op`.
pub type MessagesDesc = Vec<Vec<ArgumentDesc>>;

/// Mathematical form of a schema table: one descriptor sequence per opcode.
pub type MessagesDescView = Seq<Seq<ArgDescView>>;

/// The name an object carries while its interface is not yet fixed.
pub const ANONYMOUS_NAME: &'static str = "anonymous";

/// A `(name, version)` pair carried at runtime where the concrete interface
/// identity matters: dynamic `new_id` arguments and global advertisements.
#[derive(Debug)]
pub struct InterfaceTitle {
    pub name: String,
    pub version: u32,
}

pub struct InterfaceTitleView {
    pub name: Seq<char>,
    pub version: u32,
}

impl View for InterfaceTitle {
    type V = InterfaceTitleView;

    open spec fn view(&self) -> InterfaceTitleView {
        InterfaceTitleView { name: self.name@, version: self.version }
    }
}

impl DeepView for InterfaceTitle {
    type V = InterfaceTitleView;

    open spec fn deep_view(&self) -> InterfaceTitleView {
        self.view()
    }
}

impl Clone for InterfaceTitle {
    fn clone(&self) -> (r: Self)
        ensures
            r@ == self@,
    {
        InterfaceTitle { name: self.name.clone(), version: self.version }
    }
}

impl InterfaceTitle {
    pub fn new(name: String, version: u32) -> (t: Self)
        ensures
            t@ == (InterfaceTitleView { name: name@, version }),
    {
        InterfaceTitle { name, version }
    }
}

/// A runtime description of an interface: its name, version and the argument
/// schemas of its requests and events.
pub struct DynInterface {
    pub name: String,
    pub version: u32,
    pub requests: MessagesDesc,
    pub events: MessagesDesc,
}

pub struct DynInterfaceView {
    pub name: Seq<char>,
    pub version: u32,
    pub requests: MessagesDescView,
    pub events: MessagesDescView,
}

impl View for DynInterface {
    type V = DynInterfaceView;

    open spec fn view(&self) -> DynInterfaceView {
        DynInterfaceView {
            name: self.name@,
            version: self.version,
            requests: self.requests.deep_view(),
            events: self.events.deep_view(),
        }
    }
}

impl DeepView for DynInterface {
    type V = DynInterfaceView;

    open spec fn deep_view(&self) -> DynInterfaceView {
        self.view()
    }
}

impl DynInterface {
    pub fn new(name: String, version: u32, requests: MessagesDesc, events: MessagesDesc) -> (r:
        Self)
        ensures
            r@ == (DynInterfaceView {
                name: name@,
                version,
                requests: requests.deep_view(),
                events: events.deep_view(),
            }),
    {
        DynInterface { name, version, requests, events }
    }

    /// The placeholder description of an object whose interface is not fixed
    /// yet: the anonymous name, version zero and empty schema tables.
    pub fn new_anonymous() -> (r: Self)
        ensures
            r@.name == ANONYMOUS_NAME@,
            r@.version == 0,
            r@.requests.len() == 0,
            r@.events.len() == 0,
    {
        let requests: MessagesDesc = Vec::new();
        let events: MessagesDesc = Vec::new();
        DynInterface { name: ANONYMOUS_NAME.to_owned(), version: 0, requests, events }
    }

    pub fn title(&self) -> (t: InterfaceTitle)
        ensures
            t@.name == self@.name,
            t@.version == self@.version,
    {
        InterfaceTitle::new(self.name.clone(), self.version)
    }
}

/// Read access to the identifying part of an interface description.
pub trait InterfaceDebug {
    fn name(&self) -> &str;

    fn version(&self) -> u32;
}

impl InterfaceDebug for DynInterface {
    fn name(&self) -> &str {
        self.name.as_str()
    }

    fn version(&self) -> u32 {
        self.version
    }
}

/// Why adding an object to a client's table failed.
#[derive(Debug, Clone, Copy, PartialEq, Eq, Structural)]
pub enum AddObjectError {
    ClientDoesntExist,
    IdAlreadyTaken,
    InterfaceMismatch,
}

/// Why dynamic arguments could not be turned into a typed message.
#[derive(Debug)]
pub enum FromArgsError {
    AddObjectError(AddObjectError),
    UnknownOpcode(u16),
    NullArgument,
    ResourceDoesntExist,
    ArgumentError(ArgumentError),
    InvalidEnumValue(InvalidEnumValue),
    Other(String),
}

/// Why a typed message could not be turned into dynamic arguments.
#[derive(Debug)]
pub enum IntoArgsError {
    ResourceDoesntExist,
    Other(String),
}

/// An integer on the wire did not match any declared variant of the enum the
/// schema assigns to that argument.
#[derive(Debug, Clone, Copy, PartialEq, Eq, Structural)]
pub struct InvalidEnumValue;

pub open spec fn title_matches(i: DynInterfaceView, t: InterfaceTitleView) -> bool {
    i.name == t.name && i.version == t.version
}

/// Index of the first interface in `s` that carries the given title.
pub open spec fn first_title_match(s: Seq<DynInterfaceView>, t: InterfaceTitleView) -> Option<
    int,
>
    decreases s.len(),
{
    if s.len() == 0 {
        None
    } else if title_matches(s[0], t) {
        Some(0)
    } else {
        match first_title_match(s.drop_first(), t) {
            Some(i) => Some(i + 1),
            None => None,
        }
    }
}

/// The set of interface descriptions compiled into the server, in
/// registration order.
pub struct ProtocolRegistry {
    pub interfaces: Vec<DynInterface>,
}

impl View for ProtocolRegistry {
    type V = Seq<DynInterfaceView>;

    open spec fn view(&self) -> Seq<DynInterfaceView> {
        self.interfaces.deep_view()
    }
}

impl ProtocolRegistry {
    pub fn new() -> (r: Self)
        ensures
            r@.len() == 0,
    {
        ProtocolRegistry { interfaces: Vec::new() }
    }

    pub fn register_interface(&mut self, interface: DynInterface)
        ensures
            final(self)@ == old(self)@.push(interface@),
    {
        let ghost iv = interface@;
        self.interfaces.push(interface);
        proof {
            assert(self@ =~= old(self)@.push(iv));
        }
    }

    pub fn register_protocol(&mut self, protocol: &Vec<DynInterface>)
        ensures
            final(self)@ == old(self)@ + protocol.deep_view(),
    {
        let n = protocol.len();
        let mut i: usize = 0;
        while i < n
            invariant
                i <= n,
                n == protocol.len(),
                protocol.deep_view().len() == n,
                self@ == old(self)@ + protocol.deep_view().take(i as int),
            decreases n - i,
        {
            let interface = clone_dyn_interface(&protocol[i]);
            self.register_interface(interface);
            proof {
                assert(self@ =~= old(self)@ + protocol.deep_view().take(i + 1 as int));
            }
            i = i + 1;
        }
        proof {
            assert(protocol.deep_view().take(n as int) =~= protocol.deep_view());
        }
    }

    /// Find the first registered interface whose name and version equal the
    /// title, and hand back a copy of it.
    pub fn find_interface(&self, title: &InterfaceTitle) -> (r: Option<DynInterface>)
        ensures
            match r {
                Some(i) => {
                    &&& first_title_match(self@, title@) is Some
                    &&& i@ == self@[first_title_match(self@, title@).unwrap()]
                },
                None => first_title_match(self@, title@) is None,
            },
    {
        let n = self.interfaces.len();
        let mut i: usize = 0;
        while i < n
            invariant
                i <= n,
                n == self.interfaces.len(),
                self@.len() == n,
                forall|k: int| 0 <= k < i ==> !title_matches(self@[k], title@),
            decreases n - i,
        {
            let cand = &self.interfaces[i];
            assert(cand@ == self@[i as int]);
            if str_eq(cand.name.as_str(), title.name.as_str()) && cand.version == title.version {
                proof {
                    lemma_first_title_match_at(self@, title@, i as int);
                }
                return Some(clone_dyn_interface(cand));
            }
            i = i + 1;
        }
        proof {
            lemma_first_title_match_none(self@, title@);
        }
        None
    }
}

pub fn clone_dyn_interface(d: &DynInterface) -> (r: DynInterface)
    ensures
        r@ == d@,
{
    DynInterface {
        name: d.name.clone(),
        version: d.version,
        requests: crate::wire::clone_messages_desc(&d.requests),
        events: crate::wire::clone_messages_desc(&d.events),
    }
}

/// Character-for-character string comparison, exact in both directions.
pub fn str_eq(a: &str, b: &str) -> (r: bool)
    ensures
        r == (a@ == b@),
{
    let alen = a.unicode_len();
    let blen = b.unicode_len();
    if alen != blen {
        assert(a@ != b@);
        return false;
    }
    let mut i: usize = 0;
    while i < alen
        invariant
            i <= alen,
            alen == a@.len(),
            blen == b@.len(),
            alen == blen,
            forall|k: int| 0 <= k < i ==> a@[k] == b@[k],
        decreases alen - i,
    {
        if a.get_char(i) != b.get_char(i) {
            return false;
        }
        i = i + 1;
    }
    proof {
        assert(a@ =~= b@);
    }
    true
}

proof fn lemma_first_title_match_none(s: Seq<DynInterfaceView>, t: InterfaceTitleView)
    requires
        forall|k: int| 0 <= k < s.len() ==> !title_matches(s[k], t),
    ensures
        first_title_match(s, t) is None,
    decreases s.len(),
{
    if s.len() > 0 {
        lemma_first_title_match_none(s.drop_first(), t);
    }
}

proof fn lemma_first_title_match_at(s: Seq<DynInterfaceView>, t: InterfaceTitleView, i: int)
    requires
        0 <= i < s.len(),
        title_matches(s[i], t),
        forall|k: int| 0 <= k < i ==> !title_matches(s[k], t),
    ensures
        first_title_match(s, t) == Some(i),
    decreases s.len(),
{
    if i > 0 {
        lemma_first_title_match_at(s.drop_first(), t, i - 1);
    }
}

} // verus!
