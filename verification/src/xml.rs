use vstd::prelude::*;
use vstd::string::*;

use crate::scanner::{
    spec_read_protocol, Element, Node, ProtocolDesc, ProtocolDescView, ProtocolParseError,
};

verus! {

#[verifier::external_type_specification]
#[verifier::external_body]
#[verifier::reject_recursive_types(R)]
pub struct ExReader<R>(quick_xml::reader::Reader<R>);

#[verifier::external_type_specification]
#[verifier::external_body]
pub struct ExBytesStart<'a>(quick_xml::events::BytesStart<'a>);

/// One event as the XML reader hands it out, before this library turns it
/// into its own token form.
pub enum RawEvent<'a> {
    Open(quick_xml::events::BytesStart<'a>),
    Close,
    EmptyTag(quick_xml::events::BytesStart<'a>),
    Text(String),
    Reference(String),
    Skip,
    Eof,
    Fault,
}

/// Relies on quick_xml::Reader::from_str: an XML reader over the document.
/// Text is kept verbatim, so runs split by references merge back losslessly.
#[verifier::external_body]
fn xml_reader_from_str<'a>(s: &'a str) -> quick_xml::reader::Reader<&'a [u8]> {
    quick_xml::reader::Reader::from_str(s)
}

/// Relies on quick_xml::Reader::read_event: the next token of the document,
/// with each reader event moved into the matching variant and text content
/// taken owned.
#[verifier::external_body]
fn xml_read_event<'a>(r: &mut quick_xml::reader::Reader<&'a [u8]>) -> (ev: RawEvent<'a>) {
    match r.read_event() {
        Err(_) => RawEvent::Fault,
        Ok(quick_xml::events::Event::Start(e)) => RawEvent::Open(e),
        Ok(quick_xml::events::Event::End(_)) => RawEvent::Close,
        Ok(quick_xml::events::Event::Empty(e)) => RawEvent::EmptyTag(e),
        Ok(quick_xml::events::Event::Text(t)) => RawEvent::Text(t.into_inner().into_owned()),
        Ok(quick_xml::events::Event::GeneralRef(e)) => RawEvent::Reference((*e).to_owned()),
        Ok(quick_xml::events::Event::Eof) => RawEvent::Eof,
        Ok(_) => RawEvent::Skip,
    }
}

/// Relies on quick_xml::events::BytesStart::name: the tag's name.
#[verifier::external_body]
fn tag_name(e: &quick_xml::events::BytesStart<'_>) -> String {
    e.name().0.to_owned()
}

/// Relies on quick_xml's attribute iterator: the key and unescaped value of
/// each attribute of the tag, in document order, or nothing when any
/// attribute is malformed. The iteration happens behind this boundary
/// because nothing observable bounds the opaque iterator for a verified
/// loop.
#[verifier::external_body]
fn tag_attributes_list(e: &quick_xml::events::BytesStart<'_>) -> Option<Vec<(String, String)>> {
    let mut out: Vec<(String, String)> = Vec::new();
    for attr in e.attributes() {
        let attr = attr.ok()?;
        let key = attr.key.0.to_owned();
        let value = attr.normalized_value(quick_xml::XmlVersion::Implicit1_0).ok()?.into_owned();
        out.push((key, value));
    }
    Some(out)
}

/// Relies on char::from_u32: accepts exactly the valid scalar values (not a
/// surrogate, not above the last code point) and returns the character with
/// that code.
#[verifier::external_body]
fn char_from_u32(v: u32) -> (r: Option<char>)
    ensures
        r matches Some(c) ==> c as u32 == v,
{
    char::from_u32(v)
}

/// Relies on char's text form: a one-character string.
#[verifier::external_body]
pub(crate) fn char_to_string(c: char) -> (r: String)
    ensures
        r@ == seq![c],
{
    c.to_string()
}

/// A flattened XML document: open tags with their attributes, close tags,
/// and text, in document order.
pub enum XmlToken {
    Open(String, Vec<(String, String)>),
    Close,
    Text(String),
}

pub enum XmlTokenView {
    Open(Seq<char>, Seq<(Seq<char>, Seq<char>)>),
    Close,
    Text(Seq<char>),
}

impl View for XmlToken {
    type V = XmlTokenView;

    open spec fn view(&self) -> XmlTokenView {
        match self {
            XmlToken::Open(n, a) => XmlTokenView::Open(n@, a.deep_view()),
            XmlToken::Close => XmlTokenView::Close,
            XmlToken::Text(t) => XmlTokenView::Text(t@),
        }
    }
}

impl DeepView for XmlToken {
    type V = XmlTokenView;

    open spec fn deep_view(&self) -> XmlTokenView {
        self.view()
    }
}

/// The token stream an element spells: its open tag, its children's tokens,
/// and its close tag; text is one token.
pub open spec fn lin_element(e: Element) -> Seq<XmlTokenView>
    decreases e,
{
    match e {
        Element::Text(t) => seq![XmlTokenView::Text(t@)],
        Element::Node(n) => seq![
            XmlTokenView::Open(n.name@, n.attributes.deep_view()),
        ] + lin_elements(n.children@) + seq![XmlTokenView::Close],
    }
}

/// The token stream a forest of elements spells, in order.
pub open spec fn lin_elements(s: Seq<Element>) -> Seq<XmlTokenView>
    decreases s,
{
    if s.len() == 0 {
        Seq::empty()
    } else {
        lin_elements(s.drop_last()) + lin_element(s.last())
    }
}

/// The token stream the still-open part of the builder's stack spells: each
/// frame's open tag followed by the children gathered for it so far.
pub open spec fn lin_stack(s: Seq<Node>) -> Seq<XmlTokenView>
    decreases s,
{
    if s.len() == 0 {
        Seq::empty()
    } else {
        lin_stack(s.drop_last()) + seq![
            XmlTokenView::Open(s.last().name@, s.last().attributes.deep_view()),
        ] + lin_elements(s.last().children@)
    }
}



/// Is the token stream balanced: every close has an open before it, and
/// every open is closed? `d` counts the tags still open.
pub open spec fn depth_ok(toks: Seq<XmlTokenView>, d: int) -> bool
    decreases toks.len(),
{
    if toks.len() == 0 {
        d == 0
    } else {
        match toks[0] {
            XmlTokenView::Open(_, _) => depth_ok(toks.drop_first(), d + 1),
            XmlTokenView::Close => d > 0 && depth_ok(toks.drop_first(), d - 1),
            XmlTokenView::Text(_) => depth_ok(toks.drop_first(), d),
        }
    }
}

/// Build the element forest a token stream spells. On success the forest
/// spells back exactly the given tokens, which pins the tree down; and
/// exactly the balanced streams succeed.
pub fn assemble_tree(tokens: Vec<XmlToken>) -> (r: Result<Vec<Element>, ProtocolParseError>)
    ensures
        r matches Ok(elems) ==> tokens.deep_view() == lin_elements(elems@),
        r is Ok <==> depth_ok(tokens.deep_view(), 0),
{
    let ghost toks = tokens.deep_view();
    let mut elements: Vec<Element> = Vec::new();
    let mut stack: Vec<Node> = Vec::new();
    let n = tokens.len();
    let mut i: usize = 0;
    proof {
        crate::scanner::lemma_vec_deep_view_is(&tokens);
        assert(lin_elements(elements@) + lin_stack(stack@) =~= toks.take(0));
        assert(toks.skip(0) =~= toks);
    }
    while i < n
        invariant
            i <= n,
            n == tokens@.len(),
            toks == tokens.deep_view(),
            toks.len() == n,
            lin_elements(elements@) + lin_stack(stack@) == toks.take(i as int),
            depth_ok(toks, 0) == depth_ok(toks.skip(i as int), stack@.len() as int),
        decreases n - i,
    {
        proof {
            crate::scanner::lemma_vec_deep_view_is(&tokens);
            assert(toks[i as int] == tokens@[i as int]@);
            assert(toks.take(i + 1 as int) =~= toks.take(i as int).push(toks[i as int]));
            assert(toks.skip(i as int)[0] == toks[i as int]);
            assert(toks.skip(i as int).drop_first() =~= toks.skip(i + 1 as int));
        }
        match &tokens[i] {
            XmlToken::Open(name, attributes) => {
                let node = Node {
                    name: name.clone(),
                    attributes: clone_attrs(attributes),
                    children: Vec::new(),
                };
                let ghost ng = node;
                let ghost prevstack = stack@;
                stack.push(node);
                proof {
                    assert(stack@.drop_last() =~= prevstack);
                    assert(lin_elements(ng.children@) =~= Seq::<XmlTokenView>::empty());
                    assert(lin_elements(elements@) + lin_stack(stack@) =~= toks.take(
                        i + 1 as int,
                    ));
                }
            },
            XmlToken::Text(t) => {
                if stack.len() == 0 {
                    let e = Element::Text(t.clone());
                    let ghost eg = e;
                    let ghost prevelems = elements@;
                    elements.push(e);
                    proof {
                        assert(elements@.drop_last() =~= prevelems);
                        assert(lin_element(eg) =~= seq![toks[i as int]]);
                        assert(lin_elements(elements@) == lin_elements(prevelems) + lin_element(
                            eg,
                        ));
                        assert(lin_elements(elements@) + lin_stack(stack@) =~= toks.take(
                            i + 1 as int,
                        ));
                    }
                } else {
                    let mut top = stack_pop(&mut stack);
                    let ghost prevtop = top;
                    let ghost prevstack = stack@;
                    let e = Element::Text(t.clone());
                    let ghost eg = e;
                    let ghost prevchildren = top.children@;
                    top.children.push(e);
                    let ghost newtop = top;
                    stack.push(top);
                    proof {
                        assert(stack@.drop_last() =~= prevstack);
                        assert(stack@.last() == newtop);
                        assert(newtop.children@.drop_last() =~= prevchildren);
                        assert(newtop.children@.last() == eg);
                        assert(lin_element(eg) =~= seq![toks[i as int]]);
                        assert(lin_elements(newtop.children@) == lin_elements(prevchildren)
                            + lin_element(eg));
                        assert(prevstack.push(prevtop).drop_last() =~= prevstack);
                        assert(prevstack.push(prevtop).last() == prevtop);
                        assert(lin_stack(prevstack.push(prevtop)) == lin_stack(prevstack) + seq![
                            XmlTokenView::Open(prevtop.name@, prevtop.attributes.deep_view()),
                        ] + lin_elements(prevchildren));
                        assert(lin_stack(stack@) == lin_stack(prevstack) + seq![
                            XmlTokenView::Open(newtop.name@, newtop.attributes.deep_view()),
                        ] + lin_elements(newtop.children@));
                        assert(newtop.name@ == prevtop.name@);
                        assert(newtop.attributes.deep_view() == prevtop.attributes.deep_view());
                        assert(lin_elements(elements@) + lin_stack(stack@) =~= toks.take(
                            i + 1 as int,
                        ));
                    }
                }
            },
            XmlToken::Close => {
                if stack.len() == 0 {
                    proof {
                        assert(!depth_ok(toks.skip(i as int), 0));
                    }
                    return Err(ProtocolParseError::XmlParseError(
                        "Close tag without a matching open tag".to_owned(),
                    ));
                }
                let top = stack_pop(&mut stack);
                let ghost topg = top;
                let e = Element::Node(top);
                let ghost eg = e;
                if stack.len() == 0 {
                    let ghost prevelems = elements@;
                    let ghost prevstack = stack@;
                    elements.push(e);
                    proof {
                        assert(elements@.drop_last() =~= prevelems);
                        assert(elements@.last() == eg);
                        assert(lin_element(eg) =~= seq![
                            XmlTokenView::Open(topg.name@, topg.attributes.deep_view()),
                        ] + lin_elements(topg.children@) + seq![XmlTokenView::Close]);
                        assert(lin_elements(elements@) == lin_elements(prevelems) + lin_element(
                            eg,
                        ));
                        assert(prevstack.push(topg).drop_last() =~= prevstack);
                        assert(prevstack.push(topg).last() == topg);
                        assert(lin_stack(prevstack.push(topg)) == lin_stack(prevstack) + seq![
                            XmlTokenView::Open(topg.name@, topg.attributes.deep_view()),
                        ] + lin_elements(topg.children@));
                        assert(lin_elements(elements@) + lin_stack(stack@) =~= toks.take(
                            i + 1 as int,
                        ));
                    }
                } else {
                    let mut parent = stack_pop(&mut stack);
                    let ghost parentg = parent;
                    let ghost prevstack = stack@;
                    let ghost prevchildren = parent.children@;
                    parent.children.push(e);
                    let ghost newparent = parent;
                    stack.push(parent);
                    proof {
                        let ghost stack1 = prevstack.push(parentg);
                        let ghost stack0 = stack1.push(topg);
                        assert(stack@.drop_last() =~= prevstack);
                        assert(stack@.last() == newparent);
                        assert(newparent.children@.drop_last() =~= prevchildren);
                        assert(newparent.children@.last() == eg);
                        assert(lin_elements(newparent.children@) == lin_elements(prevchildren)
                            + lin_element(eg));
                        assert(lin_element(eg) =~= seq![
                            XmlTokenView::Open(topg.name@, topg.attributes.deep_view()),
                        ] + lin_elements(topg.children@) + seq![XmlTokenView::Close]);
                        assert(stack0.drop_last() =~= stack1);
                        assert(stack1.drop_last() =~= prevstack);
                        assert(stack0.last() == topg);
                        assert(stack1.last() == parentg);
                        assert(lin_stack(stack0) == lin_stack(stack1) + seq![
                            XmlTokenView::Open(topg.name@, topg.attributes.deep_view()),
                        ] + lin_elements(topg.children@));
                        assert(lin_stack(stack1) == lin_stack(prevstack) + seq![
                            XmlTokenView::Open(parentg.name@, parentg.attributes.deep_view()),
                        ] + lin_elements(prevchildren));
                        assert(lin_stack(stack@) == lin_stack(prevstack) + seq![
                            XmlTokenView::Open(newparent.name@, newparent.attributes.deep_view()),
                        ] + lin_elements(newparent.children@));
                        assert(newparent.name@ == parentg.name@);
                        assert(newparent.attributes.deep_view() == parentg.attributes.deep_view());
                        assert(lin_elements(elements@) + lin_stack(stack@) =~= toks.take(
                            i + 1 as int,
                        ));
                    }
                }
            },
        }
        i = i + 1;
    }
    proof {
        assert(toks.skip(n as int) =~= Seq::<XmlTokenView>::empty());
    }
    if stack.len() != 0 {
        proof {
            assert(!depth_ok(toks.skip(n as int), stack@.len() as int));
        }
        return Err(ProtocolParseError::XmlParseError(
            "Open tag was never closed".to_owned(),
        ));
    }
    proof {
        assert(lin_stack(stack@) =~= Seq::<XmlTokenView>::empty());
        assert(toks.take(n as int) =~= toks);
        assert(tokens.deep_view() == toks);
        assert(lin_elements(elements@) =~= toks);
        assert(depth_ok(toks.skip(n as int), 0));
    }
    Ok(elements)
}


/// Copy an attribute list, keeping every pair.
fn clone_attrs(v: &Vec<(String, String)>) -> (r: Vec<(String, String)>)
    ensures
        r.deep_view() == v.deep_view(),
{
    let mut r: Vec<(String, String)> = Vec::new();
    let n = v.len();
    let mut i: usize = 0;
    proof {
        crate::scanner::lemma_vec_deep_view_is(&r);
        assert(r.deep_view() =~= v.deep_view().take(0));
    }
    while i < n
        invariant
            i <= n,
            n == v@.len(),
            r@.len() == i,
            r.deep_view() == v.deep_view().take(i as int),
        decreases n - i,
    {
        let p = (v[i].0.clone(), v[i].1.clone());
        let ghost pg = p;
        let ghost prevs = r@;
        proof {
            crate::scanner::lemma_vec_deep_view_is(&r);
        }
        let ghost prevdv = r.deep_view();
        r.push(p);
        proof {
            crate::scanner::lemma_vec_deep_view_is(&r);
            crate::scanner::lemma_seq_deep_view_push(prevs, pg);
            assert(r.deep_view() == prevdv.push(pg.deep_view()));
            assert(r.deep_view() =~= v.deep_view().take(i + 1 as int));
        }
        i = i + 1;
    }
    proof {
        assert(v.deep_view().take(n as int) =~= v.deep_view());
    }
    r
}

fn stack_pop(stack: &mut Vec<Node>) -> (r: Node)
    requires
        old(stack)@.len() > 0,
    ensures
        r == old(stack)@.last(),
        final(stack)@ == old(stack)@.drop_last(),
{
    let r = stack.pop().unwrap();
    proof {
        assert(final(stack)@ =~= old(stack)@.drop_last());
    }
    r
}

/// The most XML events one document may spell before it is refused as
/// oversized; termination of the gathering loop rests on this bound.
pub const MAX_XML_EVENTS: u64 = 0x1000_0000;

/// Resolve a general reference: one of the five predefined entities, or a
/// numeric character reference.
fn resolve_ref(name: &str) -> (r: Option<String>)
    ensures
        name@ == "lt"@ ==> (r matches Some(t) && t@ == "<"@),
        name@ == "gt"@ ==> (r matches Some(t) && t@ == ">"@),
        name@ == "amp"@ ==> (r matches Some(t) && t@ == "&"@),
        name@ == "apos"@ ==> (r matches Some(t) && t@ == "'"@),
        name@ == "quot"@ ==> (r matches Some(t) && t@ == "\""@),
        r matches Some(t) ==> t@.len() == 1,
{
    proof {
        reveal_strlit("lt");
        reveal_strlit("gt");
        reveal_strlit("amp");
        reveal_strlit("apos");
        reveal_strlit("quot");
        assert("lt"@.len() == 2 && "gt"@.len() == 2 && "amp"@.len() == 3 && "apos"@.len() == 4
            && "quot"@.len() == 4);
        assert("lt"@[0] == 'l' && "gt"@[0] == 'g' && "apos"@[0] == 'a' && "quot"@[0] == 'q');
        assert("lt"@ != "gt"@ && "lt"@ != "amp"@ && "lt"@ != "apos"@ && "lt"@ != "quot"@);
        assert("gt"@ != "amp"@ && "gt"@ != "apos"@ && "gt"@ != "quot"@);
        assert("amp"@ != "apos"@ && "amp"@ != "quot"@);
        assert("apos"@ != "quot"@);
    }
    if crate::interface::str_eq(name, "lt") {
        proof {
            reveal_strlit("<");
        }
        Some("<".to_owned())
    } else if crate::interface::str_eq(name, "gt") {
        proof {
            reveal_strlit(">");
        }
        Some(">".to_owned())
    } else if crate::interface::str_eq(name, "amp") {
        proof {
            reveal_strlit("&");
        }
        Some("&".to_owned())
    } else if crate::interface::str_eq(name, "apos") {
        proof {
            reveal_strlit("'");
        }
        Some("'".to_owned())
    } else if crate::interface::str_eq(name, "quot") {
        proof {
            reveal_strlit("\"");
        }
        Some("\"".to_owned())
    } else {
        let n = name.unicode_len();
        if n < 2 || name.get_char(0) != '#' {
            return None;
        }
        let hex = name.get_char(1) == 'x';
        let start: usize = if hex {
            2
        } else {
            1
        };
        if start >= n {
            return None;
        }
        let digits = name.substring_char(start, n);
        let v = match crate::scanner::parse_i32_radix(digits, hex) {
            Some(v) => v,
            None => {
                return None;
            },
        };
        if v < 0 {
            return None;
        }
        match char_from_u32(v as u32) {
            Some(c) => Some(char_to_string(c)),
            None => None,
        }
    }
}

/// Append text to the token list, merging it into a preceding text token so
/// that one run of character data stays one child.
fn push_text(tokens: &mut Vec<XmlToken>, t: String) {
    match tokens.pop() {
        None => {
            tokens.push(XmlToken::Text(t));
        },
        Some(last) => match last {
            XmlToken::Text(mut prev) => {
                prev.append(t.as_str());
                tokens.push(XmlToken::Text(prev));
            },
            other => {
                tokens.push(other);
                tokens.push(XmlToken::Text(t));
            },
        },
    }
}

/// Drain the reader into this library's token form. What comes back is
/// whatever the XML reader produced; the callers' contracts start at the
/// token list.
fn gather_tokens(reader: &mut quick_xml::reader::Reader<&[u8]>) -> (r: Result<
    Vec<XmlToken>,
    ProtocolParseError,
>) {
    let mut tokens: Vec<XmlToken> = Vec::new();
    let mut steps: u64 = 0;
    while steps < MAX_XML_EVENTS
        decreases MAX_XML_EVENTS - steps,
    {
        match xml_read_event(reader) {
            RawEvent::Eof => {
                return Ok(tokens);
            },
            RawEvent::Fault => {
                return Err(ProtocolParseError::XmlParseError(
                    "Failed to parse protocol XML description".to_owned(),
                ));
            },
            RawEvent::Open(e) => {
                let name = tag_name(&e);
                let attributes = match tag_attributes_list(&e) {
                    Some(a) => a,
                    None => {
                        return Err(ProtocolParseError::XmlParseError(
                            "Malformed attribute list".to_owned(),
                        ));
                    },
                };
                tokens.push(XmlToken::Open(name, attributes));
            },
            RawEvent::EmptyTag(e) => {
                let name = tag_name(&e);
                let attributes = match tag_attributes_list(&e) {
                    Some(a) => a,
                    None => {
                        return Err(ProtocolParseError::XmlParseError(
                            "Malformed attribute list".to_owned(),
                        ));
                    },
                };
                tokens.push(XmlToken::Open(name, attributes));
                tokens.push(XmlToken::Close);
            },
            RawEvent::Close => {
                tokens.push(XmlToken::Close);
            },
            RawEvent::Text(t) => {
                push_text(&mut tokens, t);
            },
            RawEvent::Reference(name) => {
                let t = match resolve_ref(name.as_str()) {
                    Some(t) => t,
                    None => {
                        return Err(ProtocolParseError::XmlParseError(
                            "Unknown entity reference".to_owned(),
                        ));
                    },
                };
                push_text(&mut tokens, t);
            },
            RawEvent::Skip => {},
        }
        steps = steps + 1;
    }
    Err(ProtocolParseError::XmlParseError("Document has too many events".to_owned()))
}

/// Which element the document's single `protocol` root is: text around it
/// is ignored, any other root element or a second root is refused.
pub open spec fn spec_pick_protocol(s: Seq<Element>, found: Option<Node>) -> Result<Node, ()>
    decreases s.len(),
{
    if s.len() == 0 {
        match found {
            Some(n) => Ok(n),
            None => Err(()),
        }
    } else {
        match s[0] {
            Element::Text(_) => spec_pick_protocol(s.drop_first(), found),
            Element::Node(n) => {
                if n.name@ == "protocol"@ {
                    if found is Some {
                        Err(())
                    } else {
                        spec_pick_protocol(s.drop_first(), Some(n))
                    }
                } else {
                    Err(())
                }
            },
        }
    }
}

/// Pull the single `protocol` root out of the parsed forest.
fn pick_protocol(elements: Vec<Element>) -> (r: Result<Node, ProtocolParseError>)
    ensures
        match r {
            Ok(n) => spec_pick_protocol(elements@, None) == Ok::<Node, ()>(n),
            Err(_) => spec_pick_protocol(elements@, None) is Err,
        },
{
    let ghost orig = elements@;
    let mut elems = elements;
    let mut found: Option<Node> = None;
    while elems.len() > 0
        invariant
            orig == elements@,
            spec_pick_protocol(orig, None) == spec_pick_protocol(elems@, found),
        decreases elems@.len(),
    {
        let ghost pre = elems@;
        let e = elems.remove(0);
        proof {
            assert(elems@ =~= pre.drop_first());
        }
        match e {
            Element::Text(_) => {},
            Element::Node(n) => {
                if crate::interface::str_eq(n.name.as_str(), "protocol") {
                    if found.is_some() {
                        return Err(ProtocolParseError::InvalidXmlError(
                            "Multiple protocol definitions found".to_owned(),
                        ));
                    }
                    found = Some(n);
                } else {
                    return Err(ProtocolParseError::InvalidXmlError(
                        "Unexpected root node".to_owned(),
                    ));
                }
            },
        }
    }
    match found {
        Some(n) => Ok(n),
        None => Err(ProtocolParseError::InvalidXmlError(
            "No protocol element found".to_owned(),
        )),
    }
}

/// Parse a protocol XML document that the reader walks: tokenize it, build
/// the element tree, find the `protocol` root and read it. Whatever the
/// XML reader produced, a returned description is one that the protocol
/// reader accepts for some element tree.
pub fn parse_protocol(reader: &mut quick_xml::reader::Reader<&[u8]>) -> (r: Result<
    ProtocolDesc,
    ProtocolParseError,
>)
    ensures
        r matches Ok(p) ==> exists|n: Node| #[trigger] spec_read_protocol(n) == Ok::<
            ProtocolDescView,
            (),
        >(p@),
{
    let tokens = match gather_tokens(reader) {
        Ok(t) => t,
        Err(e) => {
            return Err(e);
        },
    };
    let elements = match assemble_tree(tokens) {
        Ok(x) => x,
        Err(e) => {
            return Err(e);
        },
    };
    let node = match pick_protocol(elements) {
        Ok(n) => n,
        Err(e) => {
            return Err(e);
        },
    };
    let ghost wn = node;
    match crate::scanner::read_protocol(node) {
        Ok(p) => {
            proof {
                assert(spec_read_protocol(wn) == Ok::<ProtocolDescView, ()>(p@));
            }
            Ok(p)
        },
        Err(e) => Err(e),
    }
}

/// Parse a protocol XML document given as text.
pub fn parse_protocol_str(xml: &str) -> (r: Result<ProtocolDesc, ProtocolParseError>)
    ensures
        r matches Ok(p) ==> exists|n: Node| #[trigger] spec_read_protocol(n) == Ok::<
            ProtocolDescView,
            (),
        >(p@),
{
    let mut reader = xml_reader_from_str(xml);
    parse_protocol(&mut reader)
}

} // verus!
