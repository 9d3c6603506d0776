use wayland_core::scanner::{
    parse_bool, parse_value, read_protocol, Element, Node, ProtocolParseError,
};
use wayland_core::wire::ArgumentType;

fn attr(k: &str, v: &str) -> (String, String) {
    (String::from(k), String::from(v))
}

fn node(name: &str, attrs: Vec<(String, String)>, children: Vec<Element>) -> Node {
    Node { name: String::from(name), attributes: attrs, children }
}

fn description(summary: &str, text: &str) -> Element {
    Element::Node(node(
        "description",
        vec![attr("summary", summary)],
        vec![Element::Text(String::from(text))],
    ))
}

#[test]
fn parse_value_reads_both_bases() {
    assert_eq!(parse_value("42"), Some(42));
    assert_eq!(parse_value("-3"), Some(-3));
    assert_eq!(parse_value("0x1f"), Some(31));
    assert_eq!(parse_value("2147483647"), Some(i32::MAX));
    assert_eq!(parse_value("2147483648"), None);
    assert_eq!(parse_value("-2147483648"), Some(i32::MIN));
    assert_eq!(parse_value(""), None);
    assert_eq!(parse_value("1x"), None);
}

#[test]
fn parse_bool_accepts_exactly_the_two_words() {
    assert_eq!(parse_bool("true"), Some(true));
    assert_eq!(parse_bool("false"), Some(false));
    assert_eq!(parse_bool("True"), None);
}

#[test]
fn read_protocol_full_document() {
    let arg_node = node(
        "arg",
        vec![
            attr("name", "id"),
            attr("type", "new_id"),
            attr("interface", "wl_shm_pool"),
        ],
        vec![],
    );
    let request = node(
        "request",
        vec![attr("name", "create_pool")],
        vec![description("make a pool", "details"), Element::Node(arg_node)],
    );
    let event = node(
        "event",
        vec![attr("name", "format"), attr("since", "2")],
        vec![
            description("pixel format", ""),
            Element::Node(node(
                "arg",
                vec![
                    attr("name", "format"),
                    attr("type", "uint"),
                    attr("enum", "format"),
                ],
                vec![],
            )),
        ],
    );
    let entry = node(
        "entry",
        vec![attr("name", "argb8888"), attr("value", "0")],
        vec![],
    );
    let en = node(
        "enum",
        vec![attr("name", "format")],
        vec![Element::Node(entry)],
    );
    let iface = node(
        "interface",
        vec![attr("name", "wl_shm"), attr("version", "1")],
        vec![
            description("shared memory", "long text"),
            Element::Node(request),
            Element::Node(event),
            Element::Node(en),
        ],
    );
    let proto = node(
        "protocol",
        vec![attr("name", "wayland")],
        vec![
            Element::Node(node(
                "copyright",
                vec![],
                vec![Element::Text(String::from("c"))],
            )),
            Element::Node(iface),
        ],
    );
    let p = read_protocol(proto).unwrap();
    assert_eq!(p.name, "wayland");
    assert_eq!(p.copyright, "c");
    assert_eq!(p.interfaces.len(), 1);
    let i = &p.interfaces[0];
    assert_eq!(i.name, "wl_shm");
    assert_eq!(i.version, 1);
    assert_eq!(i.summary, "shared memory");
    assert_eq!(i.requests.len(), 1);
    assert_eq!(i.requests[0].message.name, "create_pool");
    assert!(!i.requests[0].destructor);
    assert_eq!(i.requests[0].message.arguments.len(), 1);
    assert_eq!(i.requests[0].message.arguments[0].arg_type, ArgumentType::NewId);
    assert_eq!(
        i.requests[0].message.arguments[0].interface.as_deref(),
        Some("wl_shm_pool")
    );
    assert_eq!(i.events.len(), 1);
    assert_eq!(i.events[0].message.since, Some(2));
    assert_eq!(
        i.events[0].message.arguments[0].enum_type,
        Some((None, String::from("format")))
    );
    assert_eq!(i.enums.len(), 1);
    assert_eq!(i.enums[0].entries[0].value, 0);
}

#[test]
fn read_protocol_requires_name_and_copyright() {
    let p1 = node("protocol", vec![], vec![]);
    assert!(matches!(
        read_protocol(p1),
        Err(ProtocolParseError::InvalidXmlError(_))
    ));
    let p2 = node("protocol", vec![attr("name", "x")], vec![]);
    assert!(read_protocol(p2).is_err());
}

#[test]
fn duplicate_and_unknown_attributes_are_refused() {
    let iface = node(
        "interface",
        vec![attr("name", "a"), attr("name", "b"), attr("version", "1")],
        vec![description("s", "")],
    );
    let proto = node(
        "protocol",
        vec![attr("name", "p")],
        vec![
            Element::Node(node(
                "copyright",
                vec![],
                vec![Element::Text(String::from("c"))],
            )),
            Element::Node(iface),
        ],
    );
    assert!(read_protocol(proto).is_err());
    let iface2 = node(
        "interface",
        vec![attr("name", "a"), attr("version", "1"), attr("wat", "x")],
        vec![description("s", "")],
    );
    let proto2 = node(
        "protocol",
        vec![attr("name", "p")],
        vec![
            Element::Node(node(
                "copyright",
                vec![],
                vec![Element::Text(String::from("c"))],
            )),
            Element::Node(iface2),
        ],
    );
    assert!(read_protocol(proto2).is_err());
}

#[test]
fn destructor_requests_are_marked() {
    let request = node(
        "request",
        vec![attr("name", "destroy"), attr("type", "destructor")],
        vec![description("tear down", "")],
    );
    let iface = node(
        "interface",
        vec![attr("name", "wl_thing"), attr("version", "3")],
        vec![description("s", ""), Element::Node(request)],
    );
    let proto = node(
        "protocol",
        vec![attr("name", "p")],
        vec![
            Element::Node(node(
                "copyright",
                vec![],
                vec![Element::Text(String::from("c"))],
            )),
            Element::Node(iface),
        ],
    );
    let p = read_protocol(proto).unwrap();
    assert!(p.interfaces[0].requests[0].destructor);
}
