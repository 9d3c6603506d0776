use vstd::prelude::*;
use vstd::string::*;

use crate::wire::ArgumentType;

verus! {

broadcast use vstd::std_specs::vec::group_vec_axioms, vstd::seq::axiom_seq_index_decreases;

/// An XML element with its attributes and child elements, the form the
/// protocol reader walks.
pub struct Node {
    pub name: String,
    pub attributes: Vec<(String, String)>,
    pub children: Vec<Element>,
}

/// One child of an element: character data or a nested element.
pub enum Element {
    Text(String),
    Node(Node),
}

/// Why a protocol XML document was refused. The wrapped text says which rule
/// was broken.
#[derive(Debug)]
pub enum ProtocolParseError {
    XmlParseError(String),
    InvalidXmlError(String),
    Utf8Error,
}

/// Is `c` a digit of base `b` (10 or 16)?
pub open spec fn digit_in_base(c: char, b: int) -> bool {
    if b == 16 {
        ('0' <= c && c <= '9') || ('a' <= c && c <= 'f') || ('A' <= c && c <= 'F')
    } else {
        '0' <= c && c <= '9'
    }
}

pub open spec fn digit_value(c: char) -> int {
    if '0' <= c && c <= '9' {
        c as int - '0' as int
    } else if 'a' <= c && c <= 'f' {
        c as int - 'a' as int + 10
    } else {
        c as int - 'A' as int + 10
    }
}

/// The number spelled by a digit string, most significant digit first.
pub open spec fn digits_value(s: Seq<char>, b: int) -> int
    decreases s.len(),
{
    if s.len() == 0 {
        0
    } else {
        digits_value(s.drop_last(), b) * b + digit_value(s.last())
    }
}

pub open spec fn all_digits(s: Seq<char>, b: int) -> bool {
    s.len() > 0 && forall|i: int| 0 <= i < s.len() ==> digit_in_base(#[trigger] s[i], b)
}

/// The signed 32-bit number a string spells in base `b`: an optional sign,
/// then digits, refused when empty, malformed or out of range.
pub open spec fn spec_parse_i32_radix(s: Seq<char>, b: int) -> Option<i32> {
    let neg = s.len() > 0 && s[0] == '-';
    let body = if s.len() > 0 && (s[0] == '-' || s[0] == '+') {
        s.drop_first()
    } else {
        s
    };
    if !all_digits(body, b) {
        None
    } else {
        let v = digits_value(body, b);
        if neg {
            if v <= 0x8000_0000 {
                Some((-v) as i32)
            } else {
                None
            }
        } else {
            if v <= 0x7FFF_FFFF {
                Some(v as i32)
            } else {
                None
            }
        }
    }
}

/// What `parse_value` accepts: a hexadecimal number after a `0x` prefix,
/// otherwise a decimal number.
pub open spec fn spec_parse_value(s: Seq<char>) -> Option<i32> {
    if s.len() >= 2 && s[0] == '0' && s[1] == 'x' {
        spec_parse_i32_radix(s.skip(2), 16)
    } else {
        spec_parse_i32_radix(s, 10)
    }
}

proof fn lemma_digits_value_nonneg(s: Seq<char>, b: int)
    requires
        b == 10 || b == 16,
        forall|i: int| 0 <= i < s.len() ==> digit_in_base(#[trigger] s[i], b),
    ensures
        digits_value(s, b) >= 0,
    decreases s.len(),
{
    if s.len() > 0 {
        lemma_digits_value_nonneg(s.drop_last(), b);
    }
}

/// With more digits the spelled number can only grow.
proof fn lemma_digits_value_mono(s: Seq<char>, i: int, b: int)
    requires
        b == 10 || b == 16,
        0 <= i <= s.len(),
        forall|k: int| 0 <= k < s.len() ==> digit_in_base(#[trigger] s[k], b),
    ensures
        digits_value(s.take(i), b) <= digits_value(s, b),
    decreases s.len(),
{
    if i == s.len() {
        assert(s.take(i) =~= s);
    } else {
        let d = s.drop_last();
        lemma_digits_value_nonneg(d, b);
        lemma_digits_value_mono(d, i, b);
        assert(d.take(i) =~= s.take(i));
        assert(digits_value(s, b) == digits_value(d, b) * b + digit_value(s.last()));
        assert(digits_value(d, b) * b >= digits_value(d, b)) by (nonlinear_arith)
            requires
                digits_value(d, b) >= 0,
                b >= 1,
        ;
    }
}

/// Parse a signed number in base 10 or 16, exactly as the mathematical
/// reading of its digits, refusing anything malformed or out of range.
pub fn parse_i32_radix(s: &str, hex: bool) -> (r: Option<i32>)
    ensures
        r == spec_parse_i32_radix(s@, if hex {
            16int
        } else {
            10int
        }),
{
    let ghost b: int = if hex {
        16
    } else {
        10
    };
    let n = s.unicode_len();
    if n == 0 {
        return None;
    }
    let first = s.get_char(0);
    let neg = first == '-';
    let has_sign = neg || first == '+';
    let start: usize = if has_sign {
        1
    } else {
        0
    };
    let ghost body = if has_sign {
        s@.drop_first()
    } else {
        s@
    };
    if start >= n {
        assert(!all_digits(body, b));
        return None;
    }
    let base: u64 = if hex {
        16
    } else {
        10
    };
    let mut acc: u64 = 0;
    let mut i: usize = start;
    while i < n
        invariant
            start <= i <= n,
            n == s@.len(),
            start == (if has_sign {
                1int
            } else {
                0int
            }),
            body == (if has_sign {
                s@.drop_first()
            } else {
                s@
            }),
            body.len() == n - start,
            has_sign == (s@.len() > 0 && (s@[0] == '-' || s@[0] == '+')),
            neg == (s@.len() > 0 && s@[0] == '-'),
            base == (if hex {
                16u64
            } else {
                10u64
            }),
            b == base,
            forall|k: int| 0 <= k < i - start ==> digit_in_base(#[trigger] body[k], b),
            acc == digits_value(body.take(i - start), b),
            acc <= 0x8000_0000u64,
        decreases n - i,
    {
        let c = s.get_char(i);
        assert(body[i - start] == s@[i as int]);
        let d: u64 = if '0' <= c && c <= '9' {
            (c as u32 - '0' as u32) as u64
        } else if hex && 'a' <= c && c <= 'f' {
            (c as u32 - 'a' as u32 + 10) as u64
        } else if hex && 'A' <= c && c <= 'F' {
            (c as u32 - 'A' as u32 + 10) as u64
        } else {
            proof {
                assert(!digit_in_base(body[i - start], b));
                assert(!all_digits(body, b));
            }
            return None;
        };
        assert(d == digit_value(body[i - start]) && digit_in_base(body[i - start], b));
        acc = acc * base + d;
        proof {
            assert(body.take(i + 1 - start) =~= body.take(i - start).push(body[i - start]));
            assert(body.take(i + 1 - start).drop_last() =~= body.take(i - start));
            assert(acc == digits_value(body.take(i + 1 - start), b));
        }
        if acc > 0x8000_0000u64 {
            proof {
                if all_digits(body, b) {
                    lemma_digits_value_mono(body, i + 1 - start, b);
                    assert(digits_value(body, b) > 0x8000_0000);
                }
            }
            return None;
        }
        i = i + 1;
    }
    proof {
        assert(body.take(n - start) =~= body);
        assert(all_digits(body, b));
        lemma_digits_value_nonneg(body, b);
    }
    if neg {
        if acc == 0x8000_0000u64 {
            assert(-digits_value(body, b) == i32::MIN);
            Some(i32::MIN)
        } else {
            let v = acc as u32 as i32;
            assert(v == digits_value(body, b));
            Some(-v)
        }
    } else {
        if acc == 0x8000_0000u64 {
            assert(digits_value(body, b) > 0x7FFF_FFFF);
            None
        } else {
            let v = acc as u32 as i32;
            assert(v == digits_value(body, b));
            Some(v)
        }
    }
}

/// Read a number as protocol descriptions write them: `0x`
/// starts a hexadecimal value, anything else is decimal.
pub fn parse_value(s: &str) -> (r: Option<i32>)
    ensures
        r == spec_parse_value(s@),
{
    let n = s.unicode_len();
    if n >= 2 && s.get_char(0) == '0' && s.get_char(1) == 'x' {
        let rest = s.substring_char(2, n);
        parse_i32_radix(rest, true)
    } else {
        parse_i32_radix(s, false)
    }
}


/// The unsigned 32-bit number a string spells in decimal: an optional plus
/// sign, then digits, refused when empty, malformed, negative or out of
/// range.
pub open spec fn spec_parse_u32(s: Seq<char>) -> Option<u32> {
    let body = if s.len() > 0 && s[0] == '+' {
        s.drop_first()
    } else {
        s
    };
    if !all_digits(body, 10) {
        None
    } else {
        let v = digits_value(body, 10);
        if v <= 0xFFFF_FFFF {
            Some(v as u32)
        } else {
            None
        }
    }
}

/// Parse an unsigned decimal number, exactly as the mathematical reading of
/// its digits.
pub fn parse_u32(s: &str) -> (r: Option<u32>)
    ensures
        r == spec_parse_u32(s@),
{
    let n = s.unicode_len();
    if n == 0 {
        return None;
    }
    let has_sign = s.get_char(0) == '+';
    let start: usize = if has_sign {
        1
    } else {
        0
    };
    let ghost body = if has_sign {
        s@.drop_first()
    } else {
        s@
    };
    if start >= n {
        assert(!all_digits(body, 10));
        return None;
    }
    let mut acc: u64 = 0;
    let mut i: usize = start;
    while i < n
        invariant
            start <= i <= n,
            n == s@.len(),
            start == (if has_sign {
                1int
            } else {
                0int
            }),
            has_sign == (s@.len() > 0 && s@[0] == '+'),
            body == (if has_sign {
                s@.drop_first()
            } else {
                s@
            }),
            body.len() == n - start,
            forall|k: int| 0 <= k < i - start ==> digit_in_base(#[trigger] body[k], 10),
            acc == digits_value(body.take(i - start), 10),
            acc <= 0xFFFF_FFFFu64,
        decreases n - i,
    {
        let c = s.get_char(i);
        assert(body[i - start] == s@[i as int]);
        if !('0' <= c && c <= '9') {
            proof {
                assert(!digit_in_base(body[i - start], 10));
                assert(!all_digits(body, 10));
            }
            return None;
        }
        let d = (c as u32 - '0' as u32) as u64;
        assert(d == digit_value(body[i - start]) && digit_in_base(body[i - start], 10));
        acc = acc * 10 + d;
        proof {
            assert(body.take(i + 1 - start) =~= body.take(i - start).push(body[i - start]));
            assert(body.take(i + 1 - start).drop_last() =~= body.take(i - start));
            assert(acc == digits_value(body.take(i + 1 - start), 10));
        }
        if acc > 0xFFFF_FFFFu64 {
            proof {
                if all_digits(body, 10) {
                    lemma_digits_value_mono(body, i + 1 - start, 10);
                    assert(digits_value(body, 10) > 0xFFFF_FFFF);
                }
            }
            return None;
        }
        i = i + 1;
    }
    proof {
        assert(body.take(n - start) =~= body);
        assert(all_digits(body, 10));
        lemma_digits_value_nonneg(body, 10);
    }
    let v = acc as u32;
    assert(v == digits_value(body, 10));
    Some(v)
}

/// What `bool::from_str` accepts: exactly the two words.
pub open spec fn spec_parse_bool(s: Seq<char>) -> Option<bool> {
    if s == "true"@ {
        Some(true)
    } else if s == "false"@ {
        Some(false)
    } else {
        None
    }
}

pub fn parse_bool(s: &str) -> (r: Option<bool>)
    ensures
        r == spec_parse_bool(s@),
{
    if crate::interface::str_eq(s, "true") {
        Some(true)
    } else if crate::interface::str_eq(s, "false") {
        Some(false)
    } else {
        None
    }
}

/// A whole protocol description: its name, copyright text, and interfaces.
pub struct ProtocolDesc {
    pub name: String,
    pub copyright: String,
    pub interfaces: Vec<InterfaceDesc>,
}

pub struct ProtocolDescView {
    pub name: Seq<char>,
    pub copyright: Seq<char>,
    pub interfaces: Seq<InterfaceDescView>,
}

/// One interface: identity, documentation, and its messages and enums.
pub struct InterfaceDesc {
    pub name: String,
    pub version: i32,
    pub description: String,
    pub summary: String,
    pub requests: Vec<RequestDesc>,
    pub events: Vec<EventDesc>,
    pub enums: Vec<EnumDesc>,
}

pub struct InterfaceDescView {
    pub name: Seq<char>,
    pub version: i32,
    pub description: Seq<char>,
    pub summary: Seq<char>,
    pub requests: Seq<RequestDescView>,
    pub events: Seq<EventDescView>,
    pub enums: Seq<EnumDescView>,
}

/// What requests and events share: name, version gate, documentation and
/// arguments.
pub struct MessageDesc {
    pub name: String,
    pub since: Option<i32>,
    pub description: String,
    pub summary: String,
    pub arguments: Vec<ArgumentDesc>,
}

pub struct MessageDescView {
    pub name: Seq<char>,
    pub since: Option<i32>,
    pub description: Seq<char>,
    pub summary: Seq<char>,
    pub arguments: Seq<ArgumentDescView>,
}

pub struct RequestDesc {
    pub message: MessageDesc,
    pub destructor: bool,
}

pub struct RequestDescView {
    pub message: MessageDescView,
    pub destructor: bool,
}

pub struct EventDesc {
    pub message: MessageDesc,
}

pub struct EventDescView {
    pub message: MessageDescView,
}

/// One declared argument of a request or event.
pub struct ArgumentDesc {
    pub name: String,
    pub summary: String,
    pub arg_type: ArgumentType,
    pub interface: Option<String>,
    pub enum_type: Option<(Option<String>, String)>,
    pub allow_null: bool,
}

pub struct ArgumentDescView {
    pub name: Seq<char>,
    pub summary: Seq<char>,
    pub arg_type: ArgumentType,
    pub interface: Option<Seq<char>>,
    pub enum_type: Option<(Option<Seq<char>>, Seq<char>)>,
    pub allow_null: bool,
}

/// One declared enum of an interface.
pub struct EnumDesc {
    pub name: String,
    pub bitfield: bool,
    pub since: Option<i32>,
    pub description: String,
    pub summary: String,
    pub entries: Vec<EntryDesc>,
}

pub struct EnumDescView {
    pub name: Seq<char>,
    pub bitfield: bool,
    pub since: Option<i32>,
    pub description: Seq<char>,
    pub summary: Seq<char>,
    pub entries: Seq<EntryDescView>,
}

/// One member of a declared enum.
pub struct EntryDesc {
    pub name: String,
    pub since: Option<i32>,
    pub value: i32,
    pub summary: String,
}

pub struct EntryDescView {
    pub name: Seq<char>,
    pub since: Option<i32>,
    pub value: i32,
    pub summary: Seq<char>,
}

impl View for EntryDesc {
    type V = EntryDescView;

    open spec fn view(&self) -> EntryDescView {
        EntryDescView {
            name: self.name@,
            since: self.since,
            value: self.value,
            summary: self.summary@,
        }
    }
}

impl DeepView for EntryDesc {
    type V = EntryDescView;

    open spec fn deep_view(&self) -> EntryDescView {
        self.view()
    }
}

impl View for ArgumentDesc {
    type V = ArgumentDescView;

    open spec fn view(&self) -> ArgumentDescView {
        ArgumentDescView {
            name: self.name@,
            summary: self.summary@,
            arg_type: self.arg_type,
            interface: opt_str_view(&self.interface),
            enum_type: match self.enum_type {
                Some((ref ns, ref e)) => Some((opt_str_view(ns), e@)),
                None => None,
            },
            allow_null: self.allow_null,
        }
    }
}

impl DeepView for ArgumentDesc {
    type V = ArgumentDescView;

    open spec fn deep_view(&self) -> ArgumentDescView {
        self.view()
    }
}

impl View for MessageDesc {
    type V = MessageDescView;

    open spec fn view(&self) -> MessageDescView {
        MessageDescView {
            name: self.name@,
            since: self.since,
            description: self.description@,
            summary: self.summary@,
            arguments: self.arguments.deep_view(),
        }
    }
}

impl DeepView for MessageDesc {
    type V = MessageDescView;

    open spec fn deep_view(&self) -> MessageDescView {
        self.view()
    }
}

impl View for RequestDesc {
    type V = RequestDescView;

    open spec fn view(&self) -> RequestDescView {
        RequestDescView { message: self.message@, destructor: self.destructor }
    }
}

impl DeepView for RequestDesc {
    type V = RequestDescView;

    open spec fn deep_view(&self) -> RequestDescView {
        self.view()
    }
}

impl View for EventDesc {
    type V = EventDescView;

    open spec fn view(&self) -> EventDescView {
        EventDescView { message: self.message@ }
    }
}

impl DeepView for EventDesc {
    type V = EventDescView;

    open spec fn deep_view(&self) -> EventDescView {
        self.view()
    }
}

impl View for EnumDesc {
    type V = EnumDescView;

    open spec fn view(&self) -> EnumDescView {
        EnumDescView {
            name: self.name@,
            bitfield: self.bitfield,
            since: self.since,
            description: self.description@,
            summary: self.summary@,
            entries: self.entries.deep_view(),
        }
    }
}

impl DeepView for EnumDesc {
    type V = EnumDescView;

    open spec fn deep_view(&self) -> EnumDescView {
        self.view()
    }
}

impl View for InterfaceDesc {
    type V = InterfaceDescView;

    open spec fn view(&self) -> InterfaceDescView {
        InterfaceDescView {
            name: self.name@,
            version: self.version,
            description: self.description@,
            summary: self.summary@,
            requests: self.requests.deep_view(),
            events: self.events.deep_view(),
            enums: self.enums.deep_view(),
        }
    }
}

impl DeepView for InterfaceDesc {
    type V = InterfaceDescView;

    open spec fn deep_view(&self) -> InterfaceDescView {
        self.view()
    }
}

impl View for ProtocolDesc {
    type V = ProtocolDescView;

    open spec fn view(&self) -> ProtocolDescView {
        ProtocolDescView {
            name: self.name@,
            copyright: self.copyright@,
            interfaces: self.interfaces.deep_view(),
        }
    }
}

impl DeepView for ProtocolDesc {
    type V = ProtocolDescView;

    open spec fn deep_view(&self) -> ProtocolDescView {
        self.view()
    }
}

/// The text of an optional string.
pub open spec fn opt_str_view(o: &Option<String>) -> Option<Seq<char>> {
    match o {
        Some(s) => Some(s@),
        None => None,
    }
}

/// Attribute folding for an entry element, in document order: `name`,
/// `since`, `value` and `summary` may each appear once; numbers must parse;
/// anything else is refused.
pub open spec fn fold_entry_attrs(
    attrs: Seq<(String, String)>,
    name: Option<Seq<char>>,
    since: Option<i32>,
    value: Option<i32>,
    summary: Option<Seq<char>>,
) -> Result<(Option<Seq<char>>, Option<i32>, Option<i32>, Option<Seq<char>>), ()>
    decreases attrs.len(),
{
    if attrs.len() == 0 {
        Ok((name, since, value, summary))
    } else {
        let k = attrs[0].0@;
        let v = attrs[0].1@;
        if k == "name"@ {
            if name is Some {
                Err(())
            } else {
                fold_entry_attrs(attrs.drop_first(), Some(v), since, value, summary)
            }
        } else if k == "since"@ {
            match spec_parse_i32_radix(v, 10) {
                None => Err(()),
                Some(x) => if since is Some {
                    Err(())
                } else {
                    fold_entry_attrs(attrs.drop_first(), name, Some(x), value, summary)
                },
            }
        } else if k == "value"@ {
            match spec_parse_value(v) {
                None => Err(()),
                Some(x) => if value is Some {
                    Err(())
                } else {
                    fold_entry_attrs(attrs.drop_first(), name, since, Some(x), summary)
                },
            }
        } else if k == "summary"@ {
            if summary is Some {
                Err(())
            } else {
                fold_entry_attrs(attrs.drop_first(), name, since, value, Some(v))
            }
        } else {
            Err(())
        }
    }
}

/// What reading an entry element yields: its attributes folded in order,
/// with `name` and `value` required and the summary defaulting to empty.
pub open spec fn spec_read_entry(n: Node) -> Result<EntryDescView, ()> {
    match fold_entry_attrs(n.attributes@, None, None, None, None) {
        Err(_) => Err(()),
        Ok((name, since, value, summary)) => {
            if name is None {
                Err(())
            } else if value is None {
                Err(())
            } else {
                Ok(
                    EntryDescView {
                        name: name.unwrap(),
                        since,
                        value: value.unwrap(),
                        summary: match summary {
                            Some(s) => s,
                            None => Seq::empty(),
                        },
                    },
                )
            }
        },
    }
}

/// Read one `entry` element of an enum.
pub fn read_entry(node: &Node) -> (r: Result<EntryDesc, ProtocolParseError>)
    ensures
        match r {
            Ok(e) => spec_read_entry(*node) == Ok::<EntryDescView, ()>(e@),
            Err(_) => spec_read_entry(*node) is Err,
        },
{
    let ghost attrs = node.attributes@;
    let mut name: Option<String> = None;
    let mut since: Option<i32> = None;
    let mut value: Option<i32> = None;
    let mut summary: Option<String> = None;
    let n = node.attributes.len();
    let mut i: usize = 0;
    proof {
        assert(attrs.skip(0) =~= attrs);
    }
    while i < n
        invariant
            i <= n,
            n == node.attributes@.len(),
            attrs == node.attributes@,
            fold_entry_attrs(attrs, None, None, None, None) == fold_entry_attrs(
                attrs.skip(i as int),
                opt_str_view(&name),
                since,
                value,
                opt_str_view(&summary),
            ),
        decreases n - i,
    {
        proof {
            assert(attrs.skip(i as int)[0] == attrs[i as int]);
            assert(attrs.skip(i as int).drop_first() =~= attrs.skip(i + 1 as int));
        }
        let k = &node.attributes[i].0;
        let v = &node.attributes[i].1;
        if crate::interface::str_eq(k.as_str(), "name") {
            if name.is_some() {
                return Err(ProtocolParseError::InvalidXmlError(
                    "Entry has multiple 'name' attributes".to_owned(),
                ));
            }
            name = Some(v.clone());
        } else if crate::interface::str_eq(k.as_str(), "since") {
            let x = match parse_i32_radix(v.as_str(), false) {
                Some(x) => x,
                None => {
                    return Err(ProtocolParseError::InvalidXmlError(
                        "Version was not an integer".to_owned(),
                    ));
                },
            };
            if since.is_some() {
                return Err(ProtocolParseError::InvalidXmlError(
                    "Entry has multiple 'since' attributes".to_owned(),
                ));
            }
            since = Some(x);
        } else if crate::interface::str_eq(k.as_str(), "value") {
            let x = match parse_value(v.as_str()) {
                Some(x) => x,
                None => {
                    return Err(ProtocolParseError::InvalidXmlError(
                        "Entry value was not an integer".to_owned(),
                    ));
                },
            };
            if value.is_some() {
                return Err(ProtocolParseError::InvalidXmlError(
                    "Entry has multiple 'value' attributes".to_owned(),
                ));
            }
            value = Some(x);
        } else if crate::interface::str_eq(k.as_str(), "summary") {
            if summary.is_some() {
                return Err(ProtocolParseError::InvalidXmlError(
                    "Entry has multiple 'summary' attributes".to_owned(),
                ));
            }
            summary = Some(v.clone());
        } else {
            return Err(ProtocolParseError::InvalidXmlError(
                "Unknown entry attribute".to_owned(),
            ));
        }
        i = i + 1;
    }
    proof {
        assert(attrs.skip(n as int) =~= Seq::<(String, String)>::empty());
    }
    let name = match name {
        Some(x) => x,
        None => {
            return Err(ProtocolParseError::InvalidXmlError(
                "Entry name not present".to_owned(),
            ));
        },
    };
    let value = match value {
        Some(x) => x,
        None => {
            return Err(ProtocolParseError::InvalidXmlError(
                "Entry value not present".to_owned(),
            ));
        },
    };
    let summary = match summary {
        Some(x) => x,
        None => String::new(),
    };
    Ok(EntryDesc { name, since, value, summary })
}

/// First value carried by an attribute of the given key.
pub open spec fn first_attr(attrs: Seq<(String, String)>, key: Seq<char>) -> Option<Seq<char>>
    decreases attrs.len(),
{
    if attrs.len() == 0 {
        None
    } else if attrs[0].0@ == key {
        Some(attrs[0].1@)
    } else {
        first_attr(attrs.drop_first(), key)
    }
}

/// First position of `c` in `s`.
pub open spec fn find_char(s: Seq<char>, c: char) -> Option<int>
    decreases s.len(),
{
    if s.len() == 0 {
        None
    } else if s[0] == c {
        Some(0)
    } else {
        match find_char(s.drop_first(), c) {
            Some(i) => Some(i + 1),
            None => None,
        }
    }
}

/// How an `enum=` attribute splits: no dot leaves the enum local, one dot
/// separates the owning interface, more dots are refused.
pub open spec fn spec_enum_split(s: Seq<char>) -> Result<(Option<Seq<char>>, Seq<char>), ()> {
    match find_char(s, '.') {
        None => Ok((None, s)),
        Some(i) => match find_char(s.skip(i + 1), '.') {
            None => Ok((Some(s.take(i)), s.skip(i + 1))),
            Some(_) => Err(()),
        },
    }
}

/// Attribute folding for a description element: only `summary`, at most
/// once.
pub open spec fn fold_desc_attrs(attrs: Seq<(String, String)>, summary: Option<Seq<char>>) -> Result<
    Option<Seq<char>>,
    (),
>
    decreases attrs.len(),
{
    if attrs.len() == 0 {
        Ok(summary)
    } else if attrs[0].0@ == "summary"@ {
        if summary is Some {
            Err(())
        } else {
            fold_desc_attrs(attrs.drop_first(), Some(attrs[0].1@))
        }
    } else {
        Err(())
    }
}

/// Child folding for a description element: at most one text child, no
/// nested elements.
pub open spec fn fold_desc_children(s: Seq<Element>, content: Option<Seq<char>>) -> Result<
    Option<Seq<char>>,
    (),
>
    decreases s.len(),
{
    if s.len() == 0 {
        Ok(content)
    } else {
        match s[0] {
            Element::Text(t) => {
                if content is Some {
                    Err(())
                } else {
                    fold_desc_children(s.drop_first(), Some(t@))
                }
            },
            Element::Node(_) => Err(()),
        }
    }
}

/// What reading a description element yields: its text (defaulting to
/// empty) and its obligatory summary.
pub open spec fn spec_read_description(n: Node) -> Result<(Seq<char>, Seq<char>), ()> {
    match fold_desc_attrs(n.attributes@, None) {
        Err(_) => Err(()),
        Ok(summary) => match fold_desc_children(n.children@, None) {
            Err(_) => Err(()),
            Ok(content) => {
                if summary is None {
                    Err(())
                } else {
                    Ok(
                        (
                            match content {
                                Some(c) => c,
                                None => Seq::empty(),
                            },
                            summary.unwrap(),
                        ),
                    )
                }
            },
        },
    }
}

/// Attribute folding for an argument element, in document order.
pub open spec fn fold_arg_attrs(
    attrs: Seq<(String, String)>,
    name: Option<Seq<char>>,
    summary: Option<Seq<char>>,
    arg_type: Option<ArgumentType>,
    interface: Option<Seq<char>>,
    enum_attr: Option<Seq<char>>,
    allow_null: Option<bool>,
) -> Result<
    (
        Option<Seq<char>>,
        Option<Seq<char>>,
        Option<ArgumentType>,
        Option<Seq<char>>,
        Option<Seq<char>>,
        Option<bool>,
    ),
    (),
>
    decreases attrs.len(),
{
    if attrs.len() == 0 {
        Ok((name, summary, arg_type, interface, enum_attr, allow_null))
    } else {
        let k = attrs[0].0@;
        let v = attrs[0].1@;
        if k == "name"@ {
            if name is Some {
                Err(())
            } else {
                fold_arg_attrs(
                    attrs.drop_first(),
                    Some(v),
                    summary,
                    arg_type,
                    interface,
                    enum_attr,
                    allow_null,
                )
            }
        } else if k == "type"@ {
            match crate::wire::spec_arg_type_from_bytes(vstd::utf8::encode_utf8(v)) {
                None => Err(()),
                Some(t) => if arg_type is Some {
                    Err(())
                } else {
                    fold_arg_attrs(
                        attrs.drop_first(),
                        name,
                        summary,
                        Some(t),
                        interface,
                        enum_attr,
                        allow_null,
                    )
                },
            }
        } else if k == "interface"@ {
            if interface is Some {
                Err(())
            } else {
                fold_arg_attrs(
                    attrs.drop_first(),
                    name,
                    summary,
                    arg_type,
                    Some(v),
                    enum_attr,
                    allow_null,
                )
            }
        } else if k == "summary"@ {
            if summary is Some {
                Err(())
            } else {
                fold_arg_attrs(
                    attrs.drop_first(),
                    name,
                    Some(v),
                    arg_type,
                    interface,
                    enum_attr,
                    allow_null,
                )
            }
        } else if k == "enum"@ {
            if enum_attr is Some {
                Err(())
            } else {
                fold_arg_attrs(
                    attrs.drop_first(),
                    name,
                    summary,
                    arg_type,
                    interface,
                    Some(v),
                    allow_null,
                )
            }
        } else if k == "allow-null"@ {
            match spec_parse_bool(v) {
                None => Err(()),
                Some(b) => if allow_null is Some {
                    Err(())
                } else {
                    fold_arg_attrs(
                        attrs.drop_first(),
                        name,
                        summary,
                        arg_type,
                        interface,
                        enum_attr,
                        Some(b),
                    )
                },
            }
        } else {
            Err(())
        }
    }
}

/// What reading an argument element yields: `name` and `type` are required,
/// the summary defaults to empty, an `enum=` attribute is split on its dot,
/// and nullability defaults to forbidden.
pub open spec fn spec_read_arg(n: Node) -> Result<ArgumentDescView, ()> {
    match fold_arg_attrs(n.attributes@, None, None, None, None, None, None) {
        Err(_) => Err(()),
        Ok((name, summary, arg_type, interface, enum_attr, allow_null)) => {
            if name is None {
                Err(())
            } else if arg_type is None {
                Err(())
            } else {
                let et = match enum_attr {
                    None => Ok(None),
                    Some(v) => match spec_enum_split(v) {
                        Err(_) => Err(()),
                        Ok(p) => Ok(Some(p)),
                    },
                };
                match et {
                    Err(_) => Err(()),
                    Ok(enum_type) => Ok(
                        ArgumentDescView {
                            name: name.unwrap(),
                            summary: match summary {
                                Some(x) => x,
                                None => Seq::empty(),
                            },
                            arg_type: arg_type.unwrap(),
                            interface,
                            enum_type,
                            allow_null: match allow_null {
                                Some(b) => b,
                                None => false,
                            },
                        },
                    ),
                }
            }
        },
    }
}

/// Attribute folding for a request element: `name`, a `type` that may only
/// say destructor, and `since`.
pub open spec fn fold_request_attrs(
    attrs: Seq<(String, String)>,
    name: Option<Seq<char>>,
    destructor: Option<bool>,
    since: Option<i32>,
) -> Result<(Option<Seq<char>>, Option<bool>, Option<i32>), ()>
    decreases attrs.len(),
{
    if attrs.len() == 0 {
        Ok((name, destructor, since))
    } else {
        let k = attrs[0].0@;
        let v = attrs[0].1@;
        if k == "name"@ {
            if name is Some {
                Err(())
            } else {
                fold_request_attrs(attrs.drop_first(), Some(v), destructor, since)
            }
        } else if k == "type"@ {
            if v == "destructor"@ {
                if destructor is Some {
                    Err(())
                } else {
                    fold_request_attrs(attrs.drop_first(), name, Some(true), since)
                }
            } else {
                Err(())
            }
        } else if k == "since"@ {
            match spec_parse_i32_radix(v, 10) {
                None => Err(()),
                Some(x) => if since is Some {
                    Err(())
                } else {
                    fold_request_attrs(attrs.drop_first(), name, destructor, Some(x))
                },
            }
        } else {
            Err(())
        }
    }
}

/// Attribute folding for an event element: `name` and `since`.
pub open spec fn fold_event_attrs(
    attrs: Seq<(String, String)>,
    name: Option<Seq<char>>,
    since: Option<i32>,
) -> Result<(Option<Seq<char>>, Option<i32>), ()>
    decreases attrs.len(),
{
    if attrs.len() == 0 {
        Ok((name, since))
    } else {
        let k = attrs[0].0@;
        let v = attrs[0].1@;
        if k == "name"@ {
            if name is Some {
                Err(())
            } else {
                fold_event_attrs(attrs.drop_first(), Some(v), since)
            }
        } else if k == "since"@ {
            match spec_parse_i32_radix(v, 10) {
                None => Err(()),
                Some(x) => if since is Some {
                    Err(())
                } else {
                    fold_event_attrs(attrs.drop_first(), name, Some(x))
                },
            }
        } else {
            Err(())
        }
    }
}

/// Attribute folding for an enum element: `name`, `since` and `bitfield`.
pub open spec fn fold_enum_attrs(
    attrs: Seq<(String, String)>,
    name: Option<Seq<char>>,
    since: Option<i32>,
    bitfield: Option<bool>,
) -> Result<(Option<Seq<char>>, Option<i32>, Option<bool>), ()>
    decreases attrs.len(),
{
    if attrs.len() == 0 {
        Ok((name, since, bitfield))
    } else {
        let k = attrs[0].0@;
        let v = attrs[0].1@;
        if k == "name"@ {
            if name is Some {
                Err(())
            } else {
                fold_enum_attrs(attrs.drop_first(), Some(v), since, bitfield)
            }
        } else if k == "since"@ {
            match spec_parse_i32_radix(v, 10) {
                None => Err(()),
                Some(x) => if since is Some {
                    Err(())
                } else {
                    fold_enum_attrs(attrs.drop_first(), name, Some(x), bitfield)
                },
            }
        } else if k == "bitfield"@ {
            match spec_parse_bool(v) {
                None => Err(()),
                Some(b) => if bitfield is Some {
                    Err(())
                } else {
                    fold_enum_attrs(attrs.drop_first(), name, since, Some(b))
                },
            }
        } else {
            Err(())
        }
    }
}

/// Child folding for requests and events: one optional description and any
/// number of arguments, in order.
pub open spec fn fold_msg_children(
    s: Seq<Element>,
    desc: Option<(Seq<char>, Seq<char>)>,
    args: Seq<ArgumentDescView>,
) -> Result<(Option<(Seq<char>, Seq<char>)>, Seq<ArgumentDescView>), ()>
    decreases s.len(),
{
    if s.len() == 0 {
        Ok((desc, args))
    } else {
        match s[0] {
            Element::Text(_) => fold_msg_children(s.drop_first(), desc, args),
            Element::Node(n) => {
                if n.name@ == "description"@ {
                    match spec_read_description(n) {
                        Err(_) => Err(()),
                        Ok(d) => if desc is Some {
                            Err(())
                        } else {
                            fold_msg_children(s.drop_first(), Some(d), args)
                        },
                    }
                } else if n.name@ == "arg"@ {
                    match spec_read_arg(n) {
                        Err(_) => Err(()),
                        Ok(a) => fold_msg_children(s.drop_first(), desc, args.push(a)),
                    }
                } else {
                    Err(())
                }
            },
        }
    }
}

/// What reading a request element yields: folded attributes and children,
/// with the name and a description required and the destructor mark
/// defaulting to false.
pub open spec fn spec_read_request(node: Node) -> Result<RequestDescView, ()> {
    match fold_request_attrs(node.attributes@, None, None, None) {
        Err(_) => Err(()),
        Ok((name, destructor, since)) => match fold_msg_children(node.children@, None, Seq::empty()) {
            Err(_) => Err(()),
            Ok((desc, args)) => {
                if name is None {
                    Err(())
                } else if desc is None {
                    Err(())
                } else {
                    Ok(
                        RequestDescView {
                            message: MessageDescView {
                                name: name.unwrap(),
                                since,
                                description: desc.unwrap().0,
                                summary: desc.unwrap().1,
                                arguments: args,
                            },
                            destructor: match destructor {
                                Some(b) => b,
                                None => false,
                            },
                        },
                    )
                }
            },
        },
    }
}

/// What reading an event element yields.
pub open spec fn spec_read_event(node: Node) -> Result<EventDescView, ()> {
    match fold_event_attrs(node.attributes@, None, None) {
        Err(_) => Err(()),
        Ok((name, since)) => match fold_msg_children(node.children@, None, Seq::empty()) {
            Err(_) => Err(()),
            Ok((desc, args)) => {
                if name is None {
                    Err(())
                } else if desc is None {
                    Err(())
                } else {
                    Ok(
                        EventDescView {
                            message: MessageDescView {
                                name: name.unwrap(),
                                since,
                                description: desc.unwrap().0,
                                summary: desc.unwrap().1,
                                arguments: args,
                            },
                        },
                    )
                }
            },
        },
    }
}

/// Child folding for an enum element: one optional description and its
/// entries, in order.
pub open spec fn fold_enum_children(
    s: Seq<Element>,
    desc: Option<(Seq<char>, Seq<char>)>,
    entries: Seq<EntryDescView>,
) -> Result<(Option<(Seq<char>, Seq<char>)>, Seq<EntryDescView>), ()>
    decreases s.len(),
{
    if s.len() == 0 {
        Ok((desc, entries))
    } else {
        match s[0] {
            Element::Text(_) => fold_enum_children(s.drop_first(), desc, entries),
            Element::Node(n) => {
                if n.name@ == "description"@ {
                    match spec_read_description(n) {
                        Err(_) => Err(()),
                        Ok(d) => if desc is Some {
                            Err(())
                        } else {
                            fold_enum_children(s.drop_first(), Some(d), entries)
                        },
                    }
                } else if n.name@ == "entry"@ {
                    match spec_read_entry(n) {
                        Err(_) => Err(()),
                        Ok(e) => fold_enum_children(s.drop_first(), desc, entries.push(e)),
                    }
                } else {
                    Err(())
                }
            },
        }
    }
}

/// What reading an enum element yields: the name is required, the
/// description may be absent.
pub open spec fn spec_read_enum(node: Node) -> Result<EnumDescView, ()> {
    match fold_enum_attrs(node.attributes@, None, None, None) {
        Err(_) => Err(()),
        Ok((name, since, bitfield)) => {
            if name is None {
                Err(())
            } else {
                match fold_enum_children(node.children@, None, Seq::empty()) {
                    Err(_) => Err(()),
                    Ok((desc, entries)) => Ok(
                        EnumDescView {
                            name: name.unwrap(),
                            bitfield: match bitfield {
                                Some(b) => b,
                                None => false,
                            },
                            since,
                            description: match desc {
                                Some(d) => d.0,
                                None => Seq::empty(),
                            },
                            summary: match desc {
                                Some(d) => d.1,
                                None => Seq::empty(),
                            },
                            entries,
                        },
                    ),
                }
            }
        },
    }
}

/// Attribute folding for an interface element: `name` and `version`.
pub open spec fn fold_iface_attrs(
    attrs: Seq<(String, String)>,
    name: Option<Seq<char>>,
    version: Option<i32>,
) -> Result<(Option<Seq<char>>, Option<i32>), ()>
    decreases attrs.len(),
{
    if attrs.len() == 0 {
        Ok((name, version))
    } else {
        let k = attrs[0].0@;
        let v = attrs[0].1@;
        if k == "name"@ {
            if name is Some {
                Err(())
            } else {
                fold_iface_attrs(attrs.drop_first(), Some(v), version)
            }
        } else if k == "version"@ {
            match spec_parse_i32_radix(v, 10) {
                None => Err(()),
                Some(x) => if version is Some {
                    Err(())
                } else {
                    fold_iface_attrs(attrs.drop_first(), name, Some(x))
                },
            }
        } else {
            Err(())
        }
    }
}

/// Child folding for an interface element: one obligatory description and
/// its requests, events and enums, in order.
pub open spec fn fold_iface_children(
    s: Seq<Element>,
    desc: Option<(Seq<char>, Seq<char>)>,
    requests: Seq<RequestDescView>,
    events: Seq<EventDescView>,
    enums: Seq<EnumDescView>,
) -> Result<
    (
        Option<(Seq<char>, Seq<char>)>,
        Seq<RequestDescView>,
        Seq<EventDescView>,
        Seq<EnumDescView>,
    ),
    (),
>
    decreases s.len(),
{
    if s.len() == 0 {
        Ok((desc, requests, events, enums))
    } else {
        match s[0] {
            Element::Text(_) => fold_iface_children(s.drop_first(), desc, requests, events, enums),
            Element::Node(n) => {
                if n.name@ == "description"@ {
                    match spec_read_description(n) {
                        Err(_) => Err(()),
                        Ok(d) => if desc is Some {
                            Err(())
                        } else {
                            fold_iface_children(s.drop_first(), Some(d), requests, events, enums)
                        },
                    }
                } else if n.name@ == "request"@ {
                    match spec_read_request(n) {
                        Err(_) => Err(()),
                        Ok(r) => fold_iface_children(
                            s.drop_first(),
                            desc,
                            requests.push(r),
                            events,
                            enums,
                        ),
                    }
                } else if n.name@ == "event"@ {
                    match spec_read_event(n) {
                        Err(_) => Err(()),
                        Ok(e) => fold_iface_children(
                            s.drop_first(),
                            desc,
                            requests,
                            events.push(e),
                            enums,
                        ),
                    }
                } else if n.name@ == "enum"@ {
                    match spec_read_enum(n) {
                        Err(_) => Err(()),
                        Ok(e) => fold_iface_children(
                            s.drop_first(),
                            desc,
                            requests,
                            events,
                            enums.push(e),
                        ),
                    }
                } else {
                    Err(())
                }
            },
        }
    }
}

/// What reading an interface element yields: name, version and description
/// are required, the message lists keep document order.
pub open spec fn spec_read_interface(node: Node) -> Result<InterfaceDescView, ()> {
    match fold_iface_attrs(node.attributes@, None, None) {
        Err(_) => Err(()),
        Ok((name, version)) => {
            if name is None {
                Err(())
            } else if version is None {
                Err(())
            } else {
                match fold_iface_children(
                    node.children@,
                    None,
                    Seq::empty(),
                    Seq::empty(),
                    Seq::empty(),
                ) {
                    Err(_) => Err(()),
                    Ok((desc, requests, events, enums)) => {
                        if desc is None {
                            Err(())
                        } else {
                            Ok(
                                InterfaceDescView {
                                    name: name.unwrap(),
                                    version: version.unwrap(),
                                    description: desc.unwrap().0,
                                    summary: desc.unwrap().1,
                                    requests,
                                    events,
                                    enums,
                                },
                            )
                        }
                    },
                }
            }
        },
    }
}

/// Child folding for a copyright element: text only, at most once.
pub open spec fn fold_copyright_children(s: Seq<Element>, content: Option<Seq<char>>) -> Result<
    Option<Seq<char>>,
    (),
>
    decreases s.len(),
{
    if s.len() == 0 {
        Ok(content)
    } else {
        match s[0] {
            Element::Node(_) => Err(()),
            Element::Text(t) => {
                if content is Some {
                    Err(())
                } else {
                    fold_copyright_children(s.drop_first(), Some(t@))
                }
            },
        }
    }
}

/// What reading a copyright element yields: its text, defaulting to empty.
pub open spec fn spec_read_copyright(node: Node) -> Result<Seq<char>, ()> {
    match fold_copyright_children(node.children@, None) {
        Err(_) => Err(()),
        Ok(content) => Ok(
            match content {
                Some(c) => c,
                None => Seq::empty(),
            },
        ),
    }
}

/// Child folding for the protocol element: one copyright and its
/// interfaces, in order.
pub open spec fn fold_protocol_children(
    s: Seq<Element>,
    copyright: Option<Seq<char>>,
    interfaces: Seq<InterfaceDescView>,
) -> Result<(Option<Seq<char>>, Seq<InterfaceDescView>), ()>
    decreases s.len(),
{
    if s.len() == 0 {
        Ok((copyright, interfaces))
    } else {
        match s[0] {
            Element::Text(_) => fold_protocol_children(s.drop_first(), copyright, interfaces),
            Element::Node(n) => {
                if n.name@ == "copyright"@ {
                    if copyright is Some {
                        Err(())
                    } else {
                        match spec_read_copyright(n) {
                            Err(_) => Err(()),
                            Ok(c) => fold_protocol_children(s.drop_first(), Some(c), interfaces),
                        }
                    }
                } else if n.name@ == "interface"@ {
                    match spec_read_interface(n) {
                        Err(_) => Err(()),
                        Ok(i) => fold_protocol_children(
                            s.drop_first(),
                            copyright,
                            interfaces.push(i),
                        ),
                    }
                } else {
                    Err(())
                }
            },
        }
    }
}

/// What reading the protocol element yields: the first `name` attribute
/// names the protocol, a copyright is required, and the interfaces keep
/// document order.
pub open spec fn spec_read_protocol(node: Node) -> Result<ProtocolDescView, ()> {
    match first_attr(node.attributes@, "name"@) {
        None => Err(()),
        Some(name) => match fold_protocol_children(node.children@, None, Seq::empty()) {
            Err(_) => Err(()),
            Ok((copyright, interfaces)) => {
                if copyright is None {
                    Err(())
                } else {
                    Ok(
                        ProtocolDescView { name, copyright: copyright.unwrap(), interfaces },
                    )
                }
            },
        },
    }
}

/// The mathematical value of a sequence of viewable values.
pub open spec fn seq_deep_view<T: DeepView>(s: Seq<T>) -> Seq<T::V> {
    Seq::new(s.len(), |i: int| s[i].deep_view())
}

pub proof fn lemma_vec_deep_view_is<T: DeepView>(v: &Vec<T>)
    ensures
        v.deep_view() == seq_deep_view(v@),
{
    assert(v.deep_view() =~= seq_deep_view(v@));
}

pub proof fn lemma_seq_deep_view_push<T: DeepView>(s: Seq<T>, x: T)
    ensures
        seq_deep_view(s.push(x)) == seq_deep_view(s).push(x.deep_view()),
{
    assert(seq_deep_view(s.push(x)) =~= seq_deep_view(s).push(x.deep_view()));
}

/// The text pair of an optional description result.
pub open spec fn opt_pair_view(o: &Option<(String, String)>) -> Option<(Seq<char>, Seq<char>)> {
    match o {
        Some(p) => Some((p.0@, p.1@)),
        None => None,
    }
}

proof fn lemma_find_char_at(s: Seq<char>, c: char, i: int)
    requires
        0 <= i < s.len(),
        s[i] == c,
        forall|k: int| 0 <= k < i ==> s[k] != c,
    ensures
        find_char(s, c) == Some(i),
    decreases s.len(),
{
    if i > 0 {
        lemma_find_char_at(s.drop_first(), c, i - 1);
    }
}

proof fn lemma_find_char_none(s: Seq<char>, c: char)
    requires
        forall|k: int| 0 <= k < s.len() ==> s[k] != c,
    ensures
        find_char(s, c) is None,
    decreases s.len(),
{
    if s.len() > 0 {
        lemma_find_char_none(s.drop_first(), c);
    }
}

/// Position of the first occurrence of `c` in `s`, if any.
pub fn str_find_char(s: &str, c: char) -> (r: Option<usize>)
    ensures
        match r {
            Some(i) => find_char(s@, c) == Some(i as int) && i < s@.len(),
            None => find_char(s@, c) is None,
        },
{
    let n = s.unicode_len();
    let mut i: usize = 0;
    while i < n
        invariant
            i <= n,
            n == s@.len(),
            forall|k: int| 0 <= k < i ==> s@[k] != c,
        decreases n - i,
    {
        if s.get_char(i) == c {
            proof {
                lemma_find_char_at(s@, c, i as int);
            }
            return Some(i);
        }
        i = i + 1;
    }
    proof {
        lemma_find_char_none(s@, c);
    }
    None
}

/// Read one `description` element: its `summary` attribute and its text.
pub fn read_description(node: &Node) -> (r: Result<(String, String), ProtocolParseError>)
    ensures
        match r {
            Ok(d) => spec_read_description(*node) == Ok::<(Seq<char>, Seq<char>), ()>(
                (d.0@, d.1@),
            ),
            Err(_) => spec_read_description(*node) is Err,
        },
{
    let ghost attrs = node.attributes@;
    let mut summary: Option<String> = None;
    let n = node.attributes.len();
    let mut i: usize = 0;
    proof {
        assert(attrs.skip(0) =~= attrs);
    }
    while i < n
        invariant
            i <= n,
            n == node.attributes@.len(),
            attrs == node.attributes@,
            fold_desc_attrs(attrs, None) == fold_desc_attrs(
                attrs.skip(i as int),
                opt_str_view(&summary),
            ),
        decreases n - i,
    {
        proof {
            assert(attrs.skip(i as int)[0] == attrs[i as int]);
            assert(attrs.skip(i as int).drop_first() =~= attrs.skip(i + 1 as int));
        }
        let k = &node.attributes[i].0;
        let v = &node.attributes[i].1;
        if crate::interface::str_eq(k.as_str(), "summary") {
            if summary.is_some() {
                return Err(ProtocolParseError::InvalidXmlError(
                    "Description has multiple 'summary' attributes".to_owned(),
                ));
            }
            summary = Some(v.clone());
        } else {
            return Err(ProtocolParseError::InvalidXmlError(
                "Description had unknown attribute".to_owned(),
            ));
        }
        i = i + 1;
    }
    proof {
        assert(attrs.skip(n as int) =~= Seq::<(String, String)>::empty());
    }
    let ghost children = node.children@;
    let mut content: Option<String> = None;
    let m = node.children.len();
    let mut j: usize = 0;
    proof {
        assert(children.skip(0) =~= children);
    }
    while j < m
        invariant
            j <= m,
            m == node.children@.len(),
            children == node.children@,
            attrs == node.attributes@,
            fold_desc_attrs(attrs, None) == Ok::<Option<Seq<char>>, ()>(opt_str_view(&summary)),
            fold_desc_children(children, None) == fold_desc_children(
                children.skip(j as int),
                opt_str_view(&content),
            ),
        decreases m - j,
    {
        proof {
            assert(children.skip(j as int)[0] == children[j as int]);
            assert(children.skip(j as int).drop_first() =~= children.skip(j + 1 as int));
        }
        match &node.children[j] {
            Element::Text(t) => {
                if content.is_some() {
                    return Err(ProtocolParseError::InvalidXmlError(
                        "Description has multiple text children".to_owned(),
                    ));
                }
                content = Some(t.clone());
            },
            Element::Node(_) => {
                return Err(ProtocolParseError::InvalidXmlError(
                    "Description has unexpected child node".to_owned(),
                ));
            },
        }
        j = j + 1;
    }
    proof {
        assert(children.skip(m as int) =~= Seq::<Element>::empty());
    }
    let summary = match summary {
        Some(x) => x,
        None => {
            return Err(ProtocolParseError::InvalidXmlError(
                "Description is missing 'summary' attribute".to_owned(),
            ));
        },
    };
    let description = match content {
        Some(x) => x,
        None => String::new(),
    };
    Ok((description, summary))
}

/// Read one `arg` element of a request or event.
pub fn read_arg(node: &Node) -> (r: Result<ArgumentDesc, ProtocolParseError>)
    ensures
        match r {
            Ok(a) => spec_read_arg(*node) == Ok::<ArgumentDescView, ()>(a@),
            Err(_) => spec_read_arg(*node) is Err,
        },
{
    let ghost attrs = node.attributes@;
    let mut name: Option<String> = None;
    let mut summary: Option<String> = None;
    let mut arg_type: Option<ArgumentType> = None;
    let mut interface: Option<String> = None;
    let mut enum_attr: Option<String> = None;
    let mut allow_null: Option<bool> = None;
    let n = node.attributes.len();
    let mut i: usize = 0;
    proof {
        assert(attrs.skip(0) =~= attrs);
    }
    while i < n
        invariant
            i <= n,
            n == node.attributes@.len(),
            attrs == node.attributes@,
            fold_arg_attrs(attrs, None, None, None, None, None, None) == fold_arg_attrs(
                attrs.skip(i as int),
                opt_str_view(&name),
                opt_str_view(&summary),
                arg_type,
                opt_str_view(&interface),
                opt_str_view(&enum_attr),
                allow_null,
            ),
        decreases n - i,
    {
        proof {
            assert(attrs.skip(i as int)[0] == attrs[i as int]);
            assert(attrs.skip(i as int).drop_first() =~= attrs.skip(i + 1 as int));
        }
        let k = &node.attributes[i].0;
        let v = &node.attributes[i].1;
        if crate::interface::str_eq(k.as_str(), "name") {
            if name.is_some() {
                return Err(ProtocolParseError::InvalidXmlError(
                    "Argument has multiple 'name' attributes".to_owned(),
                ));
            }
            name = Some(v.clone());
        } else if crate::interface::str_eq(k.as_str(), "type") {
            let t = match ArgumentType::from_str(v.as_str()) {
                Some(t) => t,
                None => {
                    return Err(ProtocolParseError::InvalidXmlError(
                        "Unknown argument type".to_owned(),
                    ));
                },
            };
            if arg_type.is_some() {
                return Err(ProtocolParseError::InvalidXmlError(
                    "Argument has multiple 'type' attributes".to_owned(),
                ));
            }
            arg_type = Some(t);
        } else if crate::interface::str_eq(k.as_str(), "interface") {
            if interface.is_some() {
                return Err(ProtocolParseError::InvalidXmlError(
                    "Argument has multiple 'interface' attributes".to_owned(),
                ));
            }
            interface = Some(v.clone());
        } else if crate::interface::str_eq(k.as_str(), "summary") {
            if summary.is_some() {
                return Err(ProtocolParseError::InvalidXmlError(
                    "Argument has multiple 'summary' attributes".to_owned(),
                ));
            }
            summary = Some(v.clone());
        } else if crate::interface::str_eq(k.as_str(), "enum") {
            if enum_attr.is_some() {
                return Err(ProtocolParseError::InvalidXmlError(
                    "Argument has multiple 'enum' attributes".to_owned(),
                ));
            }
            enum_attr = Some(v.clone());
        } else if crate::interface::str_eq(k.as_str(), "allow-null") {
            let b = match parse_bool(v.as_str()) {
                Some(b) => b,
                None => {
                    return Err(ProtocolParseError::InvalidXmlError(
                        "Unknown boolean value".to_owned(),
                    ));
                },
            };
            if allow_null.is_some() {
                return Err(ProtocolParseError::InvalidXmlError(
                    "Argument has multiple 'allow-null' attributes".to_owned(),
                ));
            }
            allow_null = Some(b);
        } else {
            return Err(ProtocolParseError::InvalidXmlError(
                "Unknown argument attribute".to_owned(),
            ));
        }
        i = i + 1;
    }
    proof {
        assert(attrs.skip(n as int) =~= Seq::<(String, String)>::empty());
    }
    let name = match name {
        Some(x) => x,
        None => {
            return Err(ProtocolParseError::InvalidXmlError(
                "Argument name not present".to_owned(),
            ));
        },
    };
    let arg_type = match arg_type {
        Some(x) => x,
        None => {
            return Err(ProtocolParseError::InvalidXmlError(
                "Argument type not present".to_owned(),
            ));
        },
    };
    let enum_type: Option<(Option<String>, String)> = match enum_attr {
        None => None,
        Some(v) => {
            match str_find_char(v.as_str(), '.') {
                None => Some((None, v)),
                Some(dot) => {
                    let vlen = v.as_str().unicode_len();
                    let rest = v.as_str().substring_char(dot + 1, vlen);
                    proof {
                        assert(rest@ =~= v@.skip(dot + 1));
                    }
                    match str_find_char(rest, '.') {
                        Some(_) => {
                            return Err(ProtocolParseError::InvalidXmlError(
                                "Invalid enum type".to_owned(),
                            ));
                        },
                        None => {
                            let ns = v.as_str().substring_char(0, dot);
                            proof {
                                assert(ns@ =~= v@.take(dot as int));
                            }
                            Some((Some(ns.to_owned()), rest.to_owned()))
                        },
                    }
                },
            }
        },
    };
    let summary = match summary {
        Some(x) => x,
        None => String::new(),
    };
    let allow_null = match allow_null {
        Some(b) => b,
        None => false,
    };
    Ok(ArgumentDesc { name, summary, arg_type, interface, enum_type, allow_null })
}

/// Read one `request` element of an interface.
pub fn read_request(node: &Node) -> (r: Result<RequestDesc, ProtocolParseError>)
    ensures
        match r {
            Ok(d) => spec_read_request(*node) == Ok::<RequestDescView, ()>(d@),
            Err(_) => spec_read_request(*node) is Err,
        },
{
    let ghost attrs = node.attributes@;
    let mut name: Option<String> = None;
    let mut destructor: Option<bool> = None;
    let mut since: Option<i32> = None;
    let n = node.attributes.len();
    let mut i: usize = 0;
    proof {
        assert(attrs.skip(0) =~= attrs);
    }
    while i < n
        invariant
            i <= n,
            n == node.attributes@.len(),
            attrs == node.attributes@,
            fold_request_attrs(attrs, None, None, None) == fold_request_attrs(
                attrs.skip(i as int),
                opt_str_view(&name),
                destructor,
                since,
            ),
        decreases n - i,
    {
        proof {
            assert(attrs.skip(i as int)[0] == attrs[i as int]);
            assert(attrs.skip(i as int).drop_first() =~= attrs.skip(i + 1 as int));
        }
        let k = &node.attributes[i].0;
        let v = &node.attributes[i].1;
        if crate::interface::str_eq(k.as_str(), "name") {
            if name.is_some() {
                return Err(ProtocolParseError::InvalidXmlError(
                    "Request has multiple 'name' attributes".to_owned(),
                ));
            }
            name = Some(v.clone());
        } else if crate::interface::str_eq(k.as_str(), "type") {
            if crate::interface::str_eq(v.as_str(), "destructor") {
                if destructor.is_some() {
                    return Err(ProtocolParseError::InvalidXmlError(
                        "Request has multiple 'type' attributes".to_owned(),
                    ));
                }
                destructor = Some(true);
            } else {
                return Err(ProtocolParseError::InvalidXmlError(
                    "Request has unknown type".to_owned(),
                ));
            }
        } else if crate::interface::str_eq(k.as_str(), "since") {
            let x = match parse_i32_radix(v.as_str(), false) {
                Some(x) => x,
                None => {
                    return Err(ProtocolParseError::InvalidXmlError(
                        "Version was not an integer".to_owned(),
                    ));
                },
            };
            if since.is_some() {
                return Err(ProtocolParseError::InvalidXmlError(
                    "Request has multiple 'since' attributes".to_owned(),
                ));
            }
            since = Some(x);
        } else {
            return Err(ProtocolParseError::InvalidXmlError(
                "Unexpected request attribute".to_owned(),
            ));
        }
        i = i + 1;
    }
    proof {
        assert(attrs.skip(n as int) =~= Seq::<(String, String)>::empty());
    }
    let (description, arguments) = read_message_children(node)?;
    let name = match name {
        Some(x) => x,
        None => {
            return Err(ProtocolParseError::InvalidXmlError(
                "Request was missing 'name' attribute".to_owned(),
            ));
        },
    };
    let (description, summary) = match description {
        Some(d) => d,
        None => {
            return Err(ProtocolParseError::InvalidXmlError(
                "Request was missing 'description' element".to_owned(),
            ));
        },
    };
    let destructor = match destructor {
        Some(b) => b,
        None => false,
    };
    Ok(
        RequestDesc {
            message: MessageDesc { name, since, description, summary, arguments },
            destructor,
        },
    )
}

/// Walk the children of a request or event: at most one description and the
/// argument list, in order.
fn read_message_children(node: &Node) -> (r: Result<
    (Option<(String, String)>, Vec<ArgumentDesc>),
    ProtocolParseError,
>)
    ensures
        match r {
            Ok((d, a)) => fold_msg_children(node.children@, None, Seq::empty())
                == Ok::<(Option<(Seq<char>, Seq<char>)>, Seq<ArgumentDescView>), ()>(
                (opt_pair_view(&d), a.deep_view()),
            ),
            Err(_) => fold_msg_children(node.children@, None, Seq::empty()) is Err,
        },
{
    let ghost children = node.children@;
    let mut desc: Option<(String, String)> = None;
    let mut args: Vec<ArgumentDesc> = Vec::new();
    let m = node.children.len();
    let mut j: usize = 0;
    proof {
        assert(children.skip(0) =~= children);
        lemma_vec_deep_view_is(&args);
        assert(args.deep_view() =~= Seq::<ArgumentDescView>::empty());
    }
    while j < m
        invariant
            j <= m,
            m == node.children@.len(),
            children == node.children@,
            fold_msg_children(children, None, Seq::empty()) == fold_msg_children(
                children.skip(j as int),
                opt_pair_view(&desc),
                args.deep_view(),
            ),
        decreases m - j,
    {
        proof {
            assert(children.skip(j as int)[0] == children[j as int]);
            assert(children.skip(j as int).drop_first() =~= children.skip(j + 1 as int));
        }
        match &node.children[j] {
            Element::Text(_) => {},
            Element::Node(nd) => {
                if crate::interface::str_eq(nd.name.as_str(), "description") {
                    let d = read_description(nd)?;
                    if desc.is_some() {
                        return Err(ProtocolParseError::InvalidXmlError(
                            "Message has multiple 'description' elements".to_owned(),
                        ));
                    }
                    desc = Some(d);
                } else if crate::interface::str_eq(nd.name.as_str(), "arg") {
                    let a = read_arg(nd)?;
                    let ghost aghost = a;
                    let ghost prevs = args@;
                    proof {
                        lemma_vec_deep_view_is(&args);
                    }
                    let ghost prevdv = args.deep_view();
                    args.push(a);
                    proof {
                        lemma_vec_deep_view_is(&args);
                        lemma_seq_deep_view_push(prevs, aghost);
                        assert(args.deep_view() == prevdv.push(aghost@));
                    }
                } else {
                    return Err(ProtocolParseError::InvalidXmlError(
                        "Message had unexpected child element".to_owned(),
                    ));
                }
            },
        }
        j = j + 1;
    }
    proof {
        assert(children.skip(m as int) =~= Seq::<Element>::empty());
    }
    Ok((desc, args))
}

/// Read one `event` element of an interface.
pub fn read_event(node: &Node) -> (r: Result<EventDesc, ProtocolParseError>)
    ensures
        match r {
            Ok(d) => spec_read_event(*node) == Ok::<EventDescView, ()>(d@),
            Err(_) => spec_read_event(*node) is Err,
        },
{
    let ghost attrs = node.attributes@;
    let mut name: Option<String> = None;
    let mut since: Option<i32> = None;
    let n = node.attributes.len();
    let mut i: usize = 0;
    proof {
        assert(attrs.skip(0) =~= attrs);
    }
    while i < n
        invariant
            i <= n,
            n == node.attributes@.len(),
            attrs == node.attributes@,
            fold_event_attrs(attrs, None, None) == fold_event_attrs(
                attrs.skip(i as int),
                opt_str_view(&name),
                since,
            ),
        decreases n - i,
    {
        proof {
            assert(attrs.skip(i as int)[0] == attrs[i as int]);
            assert(attrs.skip(i as int).drop_first() =~= attrs.skip(i + 1 as int));
        }
        let k = &node.attributes[i].0;
        let v = &node.attributes[i].1;
        if crate::interface::str_eq(k.as_str(), "name") {
            if name.is_some() {
                return Err(ProtocolParseError::InvalidXmlError(
                    "Event has multiple 'name' attributes".to_owned(),
                ));
            }
            name = Some(v.clone());
        } else if crate::interface::str_eq(k.as_str(), "since") {
            let x = match parse_i32_radix(v.as_str(), false) {
                Some(x) => x,
                None => {
                    return Err(ProtocolParseError::InvalidXmlError(
                        "Version was not an integer".to_owned(),
                    ));
                },
            };
            if since.is_some() {
                return Err(ProtocolParseError::InvalidXmlError(
                    "Event has multiple 'since' attributes".to_owned(),
                ));
            }
            since = Some(x);
        } else {
            return Err(ProtocolParseError::InvalidXmlError(
                "Unexpected attribute in event".to_owned(),
            ));
        }
        i = i + 1;
    }
    proof {
        assert(attrs.skip(n as int) =~= Seq::<(String, String)>::empty());
    }
    let (description, arguments) = read_message_children(node)?;
    let name = match name {
        Some(x) => x,
        None => {
            return Err(ProtocolParseError::InvalidXmlError(
                "Event was missing 'name' attribute".to_owned(),
            ));
        },
    };
    let (description, summary) = match description {
        Some(d) => d,
        None => {
            return Err(ProtocolParseError::InvalidXmlError(
                "Event was missing 'description' element".to_owned(),
            ));
        },
    };
    Ok(EventDesc { message: MessageDesc { name, since, description, summary, arguments } })
}

/// Read one `enum` element of an interface.
pub fn read_enum(node: &Node) -> (r: Result<EnumDesc, ProtocolParseError>)
    ensures
        match r {
            Ok(d) => spec_read_enum(*node) == Ok::<EnumDescView, ()>(d@),
            Err(_) => spec_read_enum(*node) is Err,
        },
{
    let ghost attrs = node.attributes@;
    let mut name: Option<String> = None;
    let mut since: Option<i32> = None;
    let mut bitfield: Option<bool> = None;
    let n = node.attributes.len();
    let mut i: usize = 0;
    proof {
        assert(attrs.skip(0) =~= attrs);
    }
    while i < n
        invariant
            i <= n,
            n == node.attributes@.len(),
            attrs == node.attributes@,
            fold_enum_attrs(attrs, None, None, None) == fold_enum_attrs(
                attrs.skip(i as int),
                opt_str_view(&name),
                since,
                bitfield,
            ),
        decreases n - i,
    {
        proof {
            assert(attrs.skip(i as int)[0] == attrs[i as int]);
            assert(attrs.skip(i as int).drop_first() =~= attrs.skip(i + 1 as int));
        }
        let k = &node.attributes[i].0;
        let v = &node.attributes[i].1;
        if crate::interface::str_eq(k.as_str(), "name") {
            if name.is_some() {
                return Err(ProtocolParseError::InvalidXmlError(
                    "Enum has multiple name attributes".to_owned(),
                ));
            }
            name = Some(v.clone());
        } else if crate::interface::str_eq(k.as_str(), "since") {
            let x = match parse_i32_radix(v.as_str(), false) {
                Some(x) => x,
                None => {
                    return Err(ProtocolParseError::InvalidXmlError(
                        "Version was not an integer".to_owned(),
                    ));
                },
            };
            if since.is_some() {
                return Err(ProtocolParseError::InvalidXmlError(
                    "Enum has multiple 'since' attributes".to_owned(),
                ));
            }
            since = Some(x);
        } else if crate::interface::str_eq(k.as_str(), "bitfield") {
            let b = match parse_bool(v.as_str()) {
                Some(b) => b,
                None => {
                    return Err(ProtocolParseError::InvalidXmlError(
                        "Unknown boolean value".to_owned(),
                    ));
                },
            };
            if bitfield.is_some() {
                return Err(ProtocolParseError::InvalidXmlError(
                    "Enum has multiple 'bitfield' attributes".to_owned(),
                ));
            }
            bitfield = Some(b);
        } else {
            return Err(ProtocolParseError::InvalidXmlError(
                "Enum had unexpected attribute".to_owned(),
            ));
        }
        i = i + 1;
    }
    proof {
        assert(attrs.skip(n as int) =~= Seq::<(String, String)>::empty());
    }
    let name = match name {
        Some(x) => x,
        None => {
            return Err(ProtocolParseError::InvalidXmlError(
                "Enum missing 'name' attribute".to_owned(),
            ));
        },
    };
    let ghost children = node.children@;
    let mut desc: Option<(String, String)> = None;
    let mut entries: Vec<EntryDesc> = Vec::new();
    let m = node.children.len();
    let mut j: usize = 0;
    proof {
        assert(children.skip(0) =~= children);
        lemma_vec_deep_view_is(&entries);
        assert(entries.deep_view() =~= Seq::<EntryDescView>::empty());
    }
    while j < m
        invariant
            j <= m,
            m == node.children@.len(),
            children == node.children@,
            fold_enum_children(children, None, Seq::empty()) == fold_enum_children(
                children.skip(j as int),
                opt_pair_view(&desc),
                entries.deep_view(),
            ),
        decreases m - j,
    {
        proof {
            assert(children.skip(j as int)[0] == children[j as int]);
            assert(children.skip(j as int).drop_first() =~= children.skip(j + 1 as int));
        }
        match &node.children[j] {
            Element::Text(_) => {},
            Element::Node(nd) => {
                if crate::interface::str_eq(nd.name.as_str(), "description") {
                    let d = read_description(nd)?;
                    if desc.is_some() {
                        return Err(ProtocolParseError::InvalidXmlError(
                            "Enum had multiple 'description' elements".to_owned(),
                        ));
                    }
                    desc = Some(d);
                } else if crate::interface::str_eq(nd.name.as_str(), "entry") {
                    let e = read_entry(nd)?;
                    let ghost eghost = e;
                    let ghost prevs = entries@;
                    proof {
                        lemma_vec_deep_view_is(&entries);
                    }
                    let ghost prevdv = entries.deep_view();
                    entries.push(e);
                    proof {
                        lemma_vec_deep_view_is(&entries);
                        lemma_seq_deep_view_push(prevs, eghost);
                        assert(entries.deep_view() == prevdv.push(eghost@));
                    }
                } else {
                    return Err(ProtocolParseError::InvalidXmlError(
                        "Enum had unexpected child element".to_owned(),
                    ));
                }
            },
        }
        j = j + 1;
    }
    proof {
        assert(children.skip(m as int) =~= Seq::<Element>::empty());
    }
    let (description, summary) = match desc {
        Some(d) => d,
        None => (String::new(), String::new()),
    };
    let bitfield = match bitfield {
        Some(b) => b,
        None => false,
    };
    Ok(EnumDesc { name, bitfield, since, description, summary, entries })
}

/// Read one `interface` element of a protocol.
pub fn read_interface(node: &Node) -> (r: Result<InterfaceDesc, ProtocolParseError>)
    ensures
        match r {
            Ok(d) => spec_read_interface(*node) == Ok::<InterfaceDescView, ()>(d@),
            Err(_) => spec_read_interface(*node) is Err,
        },
{
    let ghost attrs = node.attributes@;
    let mut name: Option<String> = None;
    let mut version: Option<i32> = None;
    let n = node.attributes.len();
    let mut i: usize = 0;
    proof {
        assert(attrs.skip(0) =~= attrs);
    }
    while i < n
        invariant
            i <= n,
            n == node.attributes@.len(),
            attrs == node.attributes@,
            fold_iface_attrs(attrs, None, None) == fold_iface_attrs(
                attrs.skip(i as int),
                opt_str_view(&name),
                version,
            ),
        decreases n - i,
    {
        proof {
            assert(attrs.skip(i as int)[0] == attrs[i as int]);
            assert(attrs.skip(i as int).drop_first() =~= attrs.skip(i + 1 as int));
        }
        let k = &node.attributes[i].0;
        let v = &node.attributes[i].1;
        if crate::interface::str_eq(k.as_str(), "name") {
            if name.is_some() {
                return Err(ProtocolParseError::InvalidXmlError(
                    "Interface has multiple 'name' attributes".to_owned(),
                ));
            }
            name = Some(v.clone());
        } else if crate::interface::str_eq(k.as_str(), "version") {
            let x = match parse_i32_radix(v.as_str(), false) {
                Some(x) => x,
                None => {
                    return Err(ProtocolParseError::InvalidXmlError(
                        "Version was not an integer".to_owned(),
                    ));
                },
            };
            if version.is_some() {
                return Err(ProtocolParseError::InvalidXmlError(
                    "Interface has multiple 'version' attributes".to_owned(),
                ));
            }
            version = Some(x);
        } else {
            return Err(ProtocolParseError::InvalidXmlError(
                "Got unexpected attribute for interface".to_owned(),
            ));
        }
        i = i + 1;
    }
    proof {
        assert(attrs.skip(n as int) =~= Seq::<(String, String)>::empty());
    }
    let name = match name {
        Some(x) => x,
        None => {
            return Err(ProtocolParseError::InvalidXmlError(
                "Interface was missing a 'name' attribute".to_owned(),
            ));
        },
    };
    let version = match version {
        Some(x) => x,
        None => {
            return Err(ProtocolParseError::InvalidXmlError(
                "Interface was missing a 'version' attribute".to_owned(),
            ));
        },
    };
    let ghost children = node.children@;
    let mut desc: Option<(String, String)> = None;
    let mut requests: Vec<RequestDesc> = Vec::new();
    let mut events: Vec<EventDesc> = Vec::new();
    let mut enums: Vec<EnumDesc> = Vec::new();
    let m = node.children.len();
    let mut j: usize = 0;
    proof {
        assert(children.skip(0) =~= children);
        lemma_vec_deep_view_is(&requests);
        lemma_vec_deep_view_is(&events);
        lemma_vec_deep_view_is(&enums);
        assert(requests.deep_view() =~= Seq::<RequestDescView>::empty());
        assert(events.deep_view() =~= Seq::<EventDescView>::empty());
        assert(enums.deep_view() =~= Seq::<EnumDescView>::empty());
    }
    while j < m
        invariant
            j <= m,
            m == node.children@.len(),
            children == node.children@,
            fold_iface_children(children, None, Seq::empty(), Seq::empty(), Seq::empty())
                == fold_iface_children(
                children.skip(j as int),
                opt_pair_view(&desc),
                requests.deep_view(),
                events.deep_view(),
                enums.deep_view(),
            ),
        decreases m - j,
    {
        proof {
            assert(children.skip(j as int)[0] == children[j as int]);
            assert(children.skip(j as int).drop_first() =~= children.skip(j + 1 as int));
        }
        match &node.children[j] {
            Element::Text(_) => {},
            Element::Node(nd) => {
                if crate::interface::str_eq(nd.name.as_str(), "description") {
                    let d = read_description(nd)?;
                    if desc.is_some() {
                        return Err(ProtocolParseError::InvalidXmlError(
                            "Interface has multiple 'description' elements".to_owned(),
                        ));
                    }
                    desc = Some(d);
                } else if crate::interface::str_eq(nd.name.as_str(), "request") {
                    let x = read_request(nd)?;
                    let ghost xg = x;
                    let ghost prevs = requests@;
                    proof {
                        lemma_vec_deep_view_is(&requests);
                    }
                    let ghost prevdv = requests.deep_view();
                    requests.push(x);
                    proof {
                        lemma_vec_deep_view_is(&requests);
                        lemma_seq_deep_view_push(prevs, xg);
                        assert(requests.deep_view() == prevdv.push(xg@));
                    }
                } else if crate::interface::str_eq(nd.name.as_str(), "event") {
                    let x = read_event(nd)?;
                    let ghost xg = x;
                    let ghost prevs = events@;
                    proof {
                        lemma_vec_deep_view_is(&events);
                    }
                    let ghost prevdv = events.deep_view();
                    events.push(x);
                    proof {
                        lemma_vec_deep_view_is(&events);
                        lemma_seq_deep_view_push(prevs, xg);
                        assert(events.deep_view() == prevdv.push(xg@));
                    }
                } else if crate::interface::str_eq(nd.name.as_str(), "enum") {
                    let x = read_enum(nd)?;
                    let ghost xg = x;
                    let ghost prevs = enums@;
                    proof {
                        lemma_vec_deep_view_is(&enums);
                    }
                    let ghost prevdv = enums.deep_view();
                    enums.push(x);
                    proof {
                        lemma_vec_deep_view_is(&enums);
                        lemma_seq_deep_view_push(prevs, xg);
                        assert(enums.deep_view() == prevdv.push(xg@));
                    }
                } else {
                    return Err(ProtocolParseError::InvalidXmlError(
                        "Got unexpected element in interface".to_owned(),
                    ));
                }
            },
        }
        j = j + 1;
    }
    proof {
        assert(children.skip(m as int) =~= Seq::<Element>::empty());
    }
    let (description, summary) = match desc {
        Some(d) => d,
        None => {
            return Err(ProtocolParseError::InvalidXmlError(
                "Interface was missing a 'description' element".to_owned(),
            ));
        },
    };
    Ok(InterfaceDesc { name, version, description, summary, requests, events, enums })
}

/// Read the `copyright` element: text only.
pub fn read_copyright(node: &Node) -> (r: Result<String, ProtocolParseError>)
    ensures
        match r {
            Ok(c) => spec_read_copyright(*node) == Ok::<Seq<char>, ()>(c@),
            Err(_) => spec_read_copyright(*node) is Err,
        },
{
    let ghost children = node.children@;
    let mut content: Option<String> = None;
    let m = node.children.len();
    let mut j: usize = 0;
    proof {
        assert(children.skip(0) =~= children);
    }
    while j < m
        invariant
            j <= m,
            m == node.children@.len(),
            children == node.children@,
            fold_copyright_children(children, None) == fold_copyright_children(
                children.skip(j as int),
                opt_str_view(&content),
            ),
        decreases m - j,
    {
        proof {
            assert(children.skip(j as int)[0] == children[j as int]);
            assert(children.skip(j as int).drop_first() =~= children.skip(j + 1 as int));
        }
        match &node.children[j] {
            Element::Node(_) => {
                return Err(ProtocolParseError::InvalidXmlError(
                    "Unexpected node in copyright statement".to_owned(),
                ));
            },
            Element::Text(t) => {
                if content.is_some() {
                    return Err(ProtocolParseError::InvalidXmlError(
                        "Multiple text nodes found in copyright statement".to_owned(),
                    ));
                }
                content = Some(t.clone());
            },
        }
        j = j + 1;
    }
    proof {
        assert(children.skip(m as int) =~= Seq::<Element>::empty());
    }
    Ok(
        match content {
            Some(c) => c,
            None => String::new(),
        },
    )
}

/// Read a whole `protocol` element: its name, its copyright and every
/// interface, in document order.
pub fn read_protocol(node: Node) -> (r: Result<ProtocolDesc, ProtocolParseError>)
    ensures
        match r {
            Ok(p) => spec_read_protocol(node) == Ok::<ProtocolDescView, ()>(p@),
            Err(_) => spec_read_protocol(node) is Err,
        },
{
    let ghost attrs = node.attributes@;
    let name = match find_first_attr(&node.attributes, "name") {
        Some(x) => x,
        None => {
            return Err(ProtocolParseError::InvalidXmlError(
                "Protocol node has no 'name' attribute".to_owned(),
            ));
        },
    };
    let ghost children = node.children@;
    let mut copyright: Option<String> = None;
    let mut interfaces: Vec<InterfaceDesc> = Vec::new();
    let m = node.children.len();
    let mut j: usize = 0;
    proof {
        assert(children.skip(0) =~= children);
        lemma_vec_deep_view_is(&interfaces);
        assert(interfaces.deep_view() =~= Seq::<InterfaceDescView>::empty());
    }
    while j < m
        invariant
            j <= m,
            m == node.children@.len(),
            children == node.children@,
            attrs == node.attributes@,
            first_attr(attrs, "name"@) is Some,
            fold_protocol_children(children, None, Seq::empty()) == fold_protocol_children(
                children.skip(j as int),
                opt_str_view(&copyright),
                interfaces.deep_view(),
            ),
        decreases m - j,
    {
        proof {
            assert(children.skip(j as int)[0] == children[j as int]);
            assert(children.skip(j as int).drop_first() =~= children.skip(j + 1 as int));
        }
        match &node.children[j] {
            Element::Text(_) => {},
            Element::Node(nd) => {
                if crate::interface::str_eq(nd.name.as_str(), "copyright") {
                    if copyright.is_some() {
                        return Err(ProtocolParseError::InvalidXmlError(
                            "Multiple copyright statements found".to_owned(),
                        ));
                    }
                    let c = read_copyright(nd)?;
                    copyright = Some(c);
                } else if crate::interface::str_eq(nd.name.as_str(), "interface") {
                    let x = read_interface(nd)?;
                    let ghost xg = x;
                    let ghost prevs = interfaces@;
                    proof {
                        lemma_vec_deep_view_is(&interfaces);
                    }
                    let ghost prevdv = interfaces.deep_view();
                    interfaces.push(x);
                    proof {
                        lemma_vec_deep_view_is(&interfaces);
                        lemma_seq_deep_view_push(prevs, xg);
                        assert(interfaces.deep_view() == prevdv.push(xg@));
                    }
                } else {
                    return Err(ProtocolParseError::InvalidXmlError(
                        "Unexpected protocol child element".to_owned(),
                    ));
                }
            },
        }
        j = j + 1;
    }
    proof {
        assert(children.skip(m as int) =~= Seq::<Element>::empty());
    }
    let copyright = match copyright {
        Some(c) => c,
        None => {
            return Err(ProtocolParseError::InvalidXmlError(
                "Protocol node has no copyright definition".to_owned(),
            ));
        },
    };
    Ok(ProtocolDesc { name, copyright, interfaces })
}


/// The value of the first attribute with the given key, if any.
fn find_first_attr(attributes: &Vec<(String, String)>, key: &str) -> (r: Option<String>)
    ensures
        opt_str_view(&r) == first_attr(attributes@, key@),
{
    let n = attributes.len();
    let mut i: usize = 0;
    proof {
        assert(attributes@.skip(0) =~= attributes@);
    }
    while i < n
        invariant
            i <= n,
            n == attributes@.len(),
            first_attr(attributes@, key@) == first_attr(attributes@.skip(i as int), key@),
        decreases n - i,
    {
        proof {
            assert(attributes@.skip(i as int)[0] == attributes@[i as int]);
            assert(attributes@.skip(i as int).drop_first() =~= attributes@.skip(i + 1 as int));
        }
        if crate::interface::str_eq(attributes[i].0.as_str(), key) {
            return Some(attributes[i].1.clone());
        }
        i = i + 1;
    }
    proof {
        assert(attributes@.skip(n as int) =~= Seq::<(String, String)>::empty());
    }
    None
}

impl Clone for ArgumentDesc {
    fn clone(&self) -> (r: Self)
        ensures
            r@ == self@,
    {
        ArgumentDesc {
            name: self.name.clone(),
            summary: self.summary.clone(),
            arg_type: self.arg_type,
            interface: match &self.interface {
                Some(i) => Some(i.clone()),
                None => None,
            },
            enum_type: match &self.enum_type {
                Some((ns, e)) => Some(
                    (
                        match ns {
                            Some(n) => Some(n.clone()),
                            None => None,
                        },
                        e.clone(),
                    ),
                ),
                None => None,
            },
            allow_null: self.allow_null,
        }
    }
}

/// Copy one message description, keeping every argument.
pub fn clone_message_desc(m: &MessageDesc) -> (r: MessageDesc)
    ensures
        r@ == m@,
{
    let mut arguments: Vec<ArgumentDesc> = Vec::new();
    let n = m.arguments.len();
    let mut i: usize = 0;
    proof {
        lemma_vec_deep_view_is(&arguments);
        assert(arguments.deep_view() =~= m.arguments.deep_view().take(0));
    }
    while i < n
        invariant
            i <= n,
            n == m.arguments@.len(),
            arguments@.len() == i,
            arguments.deep_view() == m.arguments.deep_view().take(i as int),
        decreases n - i,
    {
        let c = m.arguments[i].clone();
        let ghost cg = c;
        let ghost prevs = arguments@;
        proof {
            lemma_vec_deep_view_is(&arguments);
        }
        let ghost prevdv = arguments.deep_view();
        arguments.push(c);
        proof {
            lemma_vec_deep_view_is(&arguments);
            lemma_seq_deep_view_push(prevs, cg);
            assert(arguments.deep_view() == prevdv.push(cg@));
            assert(arguments.deep_view() =~= m.arguments.deep_view().take(i + 1 as int));
        }
        i = i + 1;
    }
    proof {
        assert(m.arguments.deep_view().take(n as int) =~= m.arguments.deep_view());
    }
    MessageDesc {
        name: m.name.clone(),
        since: m.since,
        description: m.description.clone(),
        summary: m.summary.clone(),
        arguments,
    }
}

/// The messages of a request list, in declaration order.
pub open spec fn request_messages(rs: Seq<RequestDescView>) -> Seq<MessageDescView> {
    Seq::new(rs.len(), |i: int| rs[i].message)
}

/// The messages of an event list, in declaration order.
pub open spec fn event_messages(es: Seq<EventDescView>) -> Seq<MessageDescView> {
    Seq::new(es.len(), |i: int| es[i].message)
}

/// Copy the message of every request.
pub fn request_messages_vec(rs: &Vec<RequestDesc>) -> (r: Vec<MessageDesc>)
    ensures
        r.deep_view() == request_messages(rs.deep_view()),
{
    let mut out: Vec<MessageDesc> = Vec::new();
    let n = rs.len();
    let mut i: usize = 0;
    proof {
        lemma_vec_deep_view_is(&out);
        assert(out.deep_view() =~= request_messages(rs.deep_view()).take(0));
    }
    while i < n
        invariant
            i <= n,
            n == rs@.len(),
            out@.len() == i,
            out.deep_view() == request_messages(rs.deep_view()).take(i as int),
        decreases n - i,
    {
        let c = clone_message_desc(&rs[i].message);
        let ghost cg = c;
        let ghost prevs = out@;
        proof {
            lemma_vec_deep_view_is(&out);
        }
        let ghost prevdv = out.deep_view();
        out.push(c);
        proof {
            lemma_vec_deep_view_is(&out);
            lemma_seq_deep_view_push(prevs, cg);
            assert(out.deep_view() == prevdv.push(cg@));
            assert(rs.deep_view()[i as int] == rs@[i as int]@);
            assert(out.deep_view() =~= request_messages(rs.deep_view()).take(i + 1 as int));
        }
        i = i + 1;
    }
    proof {
        assert(request_messages(rs.deep_view()).take(n as int) =~= request_messages(
            rs.deep_view(),
        ));
    }
    out
}

/// Copy the message of every event.
pub fn event_messages_vec(es: &Vec<EventDesc>) -> (r: Vec<MessageDesc>)
    ensures
        r.deep_view() == event_messages(es.deep_view()),
{
    let mut out: Vec<MessageDesc> = Vec::new();
    let n = es.len();
    let mut i: usize = 0;
    proof {
        lemma_vec_deep_view_is(&out);
        assert(out.deep_view() =~= event_messages(es.deep_view()).take(0));
    }
    while i < n
        invariant
            i <= n,
            n == es@.len(),
            out@.len() == i,
            out.deep_view() == event_messages(es.deep_view()).take(i as int),
        decreases n - i,
    {
        let c = clone_message_desc(&es[i].message);
        let ghost cg = c;
        let ghost prevs = out@;
        proof {
            lemma_vec_deep_view_is(&out);
        }
        let ghost prevdv = out.deep_view();
        out.push(c);
        proof {
            lemma_vec_deep_view_is(&out);
            lemma_seq_deep_view_push(prevs, cg);
            assert(out.deep_view() == prevdv.push(cg@));
            assert(es.deep_view()[i as int] == es@[i as int]@);
            assert(out.deep_view() =~= event_messages(es.deep_view()).take(i + 1 as int));
        }
        i = i + 1;
    }
    proof {
        assert(event_messages(es.deep_view()).take(n as int) =~= event_messages(
            es.deep_view(),
        ));
    }
    out
}

} // verus!
