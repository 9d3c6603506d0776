use wayland_core::generator::{
    define_enum, define_struct, generate_arg_arrays, generate_argument_type,
    generate_enum_definition, generate_message_enum, generate_message_parser,
    generate_message_struct_definition, generate_message_writer, generate_opcode_fn,
    generate_wire_arg_desc, i32_text, sanitize_enum_variant_name, snake_to_camel,
    EnumDefinition, MessageSide, StructData, StructDefinition,
};
use wayland_core::generator::{generate_api, generate_interface_impl};
use wayland_core::scanner::{
    ArgumentDesc, EntryDesc, EnumDesc, InterfaceDesc, MessageDesc, ProtocolDesc, RequestDesc,
};
use wayland_core::wire::ArgumentType;

#[test]
fn snake_camel_test() {
    assert_eq!(snake_to_camel("wow_cool"), String::from("WowCool"));
    assert_eq!(snake_to_camel("wow"), String::from("Wow"));
}

#[test]
fn sanitize_prefixes_numeric_names() {
    assert_eq!(sanitize_enum_variant_name("90"), String::from("_90"));
    assert_eq!(sanitize_enum_variant_name("transient"), String::from("transient"));
    // the rule reads names as unsigned 32-bit numbers: a sign is not a
    // digit, and the top of the unsigned range still counts as a number
    assert_eq!(sanitize_enum_variant_name("-5"), String::from("-5"));
    assert_eq!(
        sanitize_enum_variant_name("4294967295"),
        String::from("_4294967295")
    );
    assert_eq!(
        sanitize_enum_variant_name("4294967296"),
        String::from("4294967296")
    );
}

#[test]
fn number_text_renders_decimal() {
    assert_eq!(i32_text(0), String::from("0"));
    assert_eq!(i32_text(42), String::from("42"));
    assert_eq!(i32_text(-7), String::from("-7"));
    assert_eq!(i32_text(i32::MIN), String::from("-2147483648"));
    assert_eq!(i32_text(i32::MAX), String::from("2147483647"));
}

#[test]
fn argument_type_mapping() {
    let arg = |t: ArgumentType, iface: Option<&str>, null: bool| ArgumentDesc {
        name: String::from("a"),
        summary: String::new(),
        arg_type: t,
        interface: iface.map(String::from),
        enum_type: None,
        allow_null: null,
    };
    assert_eq!(generate_argument_type(&arg(ArgumentType::Int, None, false)), "i32");
    assert_eq!(generate_argument_type(&arg(ArgumentType::Uint, None, false)), "u32");
    assert_eq!(generate_argument_type(&arg(ArgumentType::Fixed, None, false)), "Fixed");
    assert_eq!(
        generate_argument_type(&arg(ArgumentType::String, None, true)),
        "Option<Vec<u8>>"
    );
    assert_eq!(
        generate_argument_type(&arg(ArgumentType::Object, Some("wl_surface"), false)),
        "Resource<super::wl_surface::WlSurface>"
    );
    assert_eq!(
        generate_argument_type(&arg(ArgumentType::NewId, None, false)),
        "NewResource<Untyped>"
    );
    assert_eq!(generate_argument_type(&arg(ArgumentType::Fd, None, false)), "RawFd");
    let mut e = arg(ArgumentType::Uint, None, false);
    e.enum_type = Some((Some(String::from("wl_output")), String::from("transform")));
    assert_eq!(
        generate_argument_type(&e),
        "super::wl_output::Transform"
    );
}

#[test]
fn enum_definition_plain() {
    let e = EnumDesc {
        name: String::from("error"),
        bitfield: false,
        since: None,
        description: String::new(),
        summary: String::new(),
        entries: vec![EntryDesc {
            name: String::from("invalid_object"),
            since: None,
            value: 0,
            summary: String::new(),
        }],
    };
    let out = generate_enum_definition(&e);
    assert!(out.contains("pub enum Error{InvalidObject = 0,}"));
    assert!(out.contains("impl TryFrom<u32> for Error"));
    assert!(out.contains("0 => Self::InvalidObject,"));
    assert!(out.contains("impl From<Error> for i32"));
}

#[test]
fn enum_definition_bitfield() {
    let e = EnumDesc {
        name: String::from("mode"),
        bitfield: true,
        since: None,
        description: String::new(),
        summary: String::new(),
        entries: vec![EntryDesc {
            name: String::from("current"),
            since: None,
            value: 1,
            summary: String::new(),
        }],
    };
    let out = generate_enum_definition(&e);
    assert!(out.starts_with("bitflags!{pub struct Mode:u32{const CURRENT = 1;}}"));
    assert!(out.contains("Self::from_bits(v).ok_or(InvalidEnumValue)"));
}

#[test]
fn message_parser_emission() {
    let msg = MessageDesc {
        name: String::from("create_pool"),
        since: None,
        description: String::new(),
        summary: String::new(),
        arguments: vec![
            ArgumentDesc {
                name: String::from("id"),
                summary: String::new(),
                arg_type: ArgumentType::NewId,
                interface: Some(String::from("wl_shm_pool")),
                enum_type: None,
                allow_null: false,
            },
            ArgumentDesc {
                name: String::from("fd"),
                summary: String::new(),
                arg_type: ArgumentType::Fd,
                interface: None,
                enum_type: None,
                allow_null: false,
            },
        ],
    };
    let out = generate_message_parser("wl_shm", &msg, MessageSide::Request);
    assert!(out.starts_with(
        "let val0 = reader.next_new_id()?.0;let val0 = client_map.add_new_id(val0);"
    ));
    assert!(out.contains("let val1 = reader.next_fd()?;"));
    assert!(out.ends_with("WlShmRequest::CreatePool(CreatePoolRequest{id: val0,fd: val1,})"));
}

#[test]
fn struct_and_enum_helpers() {
    let s = StructDefinition {
        derives: String::from("Debug"),
        name: String::from("Point"),
        visibility: String::from("pub"),
        data: StructData::Fields(vec![(String::from("x"), String::from("i32"))]),
    };
    assert_eq!(define_struct(&s), "#[derive(Debug)]pub struct Point{pub x:i32,}");
    let u = StructDefinition {
        derives: String::from("Debug"),
        name: String::from("Marker"),
        visibility: String::from("pub"),
        data: StructData::Unit,
    };
    assert_eq!(define_struct(&u), "#[derive(Debug)]pub struct Marker;");
    let e = EnumDefinition {
        derives: String::from("Debug"),
        name: String::from("Shape"),
        visibility: String::from("pub"),
        variants: vec![
            (String::from("Dot"), StructData::Unit),
            (
                String::from("Rect"),
                StructData::Tuple(vec![String::from("i32"), String::from("i32")]),
            ),
        ],
    };
    assert_eq!(define_enum(&e), "#[derive(Debug)]pub enum Shape{Dot,Rect(i32,i32),}");
}

#[test]
fn wire_descriptor_and_tables() {
    let a = ArgumentDesc {
        name: String::from("surface"),
        summary: String::new(),
        arg_type: ArgumentType::Object,
        interface: Some(String::from("wl_surface")),
        enum_type: None,
        allow_null: true,
    };
    assert_eq!(
        generate_wire_arg_desc(&a),
        "ArgumentDesc{arg_type:ArgumentType::Object,interface:Some(\"wl_surface\"),allow_null:true},"
    );
    let msg = MessageDesc {
        name: String::from("attach"),
        since: None,
        description: String::new(),
        summary: String::new(),
        arguments: vec![a],
    };
    assert_eq!(
        generate_arg_arrays(&vec![msg]),
        "&[&[ArgumentDesc{arg_type:ArgumentType::Object,interface:Some(\"wl_surface\"),allow_null:true},],]"
    );
    let none: Vec<MessageDesc> = vec![];
    assert_eq!(generate_arg_arrays(&none), "&[]");
}

#[test]
fn opcode_function_counts_in_declaration_order() {
    let m = |name: &str, with_args: bool| MessageDesc {
        name: String::from(name),
        since: None,
        description: String::new(),
        summary: String::new(),
        arguments: if with_args {
            vec![ArgumentDesc {
                name: String::from("x"),
                summary: String::new(),
                arg_type: ArgumentType::Uint,
                interface: None,
                enum_type: None,
                allow_null: false,
            }]
        } else {
            vec![]
        },
    };
    let out = generate_opcode_fn(&vec![m("sync", true), m("get_registry", true), m("stop", false)]);
    assert_eq!(
        out,
        "fn opcode(&self)->u16{match *self{Self::Sync(_) => 0,Self::GetRegistry(_) => 1,Self::Stop => 2,}}"
    );
}

#[test]
fn message_writer_mirrors_the_parser() {
    let msg = MessageDesc {
        name: String::from("global"),
        since: None,
        description: String::new(),
        summary: String::new(),
        arguments: vec![
            ArgumentDesc {
                name: String::from("name"),
                summary: String::new(),
                arg_type: ArgumentType::Uint,
                interface: None,
                enum_type: None,
                allow_null: false,
            },
            ArgumentDesc {
                name: String::from("interface"),
                summary: String::new(),
                arg_type: ArgumentType::String,
                interface: None,
                enum_type: None,
                allow_null: false,
            },
            ArgumentDesc {
                name: String::from("id"),
                summary: String::new(),
                arg_type: ArgumentType::NewId,
                interface: None,
                enum_type: None,
                allow_null: false,
            },
        ],
    };
    let out = generate_message_writer(&msg);
    let mut expect = String::new();
    expect.push_str("args.push(DynArgument::Uint(data.name.into()));");
    expect.push_str("args.push(DynArgument::String(Some(data.interface.clone())));");
    expect.push_str("let(id,title) = client_map.try_get_new_id(&data.id);");
    expect.push_str("args.push(DynArgument::NewId(id,Some(title)));");
    assert_eq!(out, expect);
}

#[test]
fn message_struct_and_enum_emission() {
    let sync = MessageDesc {
        name: String::from("sync"),
        since: None,
        description: String::new(),
        summary: String::new(),
        arguments: vec![ArgumentDesc {
            name: String::from("callback"),
            summary: String::new(),
            arg_type: ArgumentType::NewId,
            interface: Some(String::from("wl_callback")),
            enum_type: None,
            allow_null: false,
        }],
    };
    let stop = MessageDesc {
        name: String::from("stop"),
        since: None,
        description: String::new(),
        summary: String::new(),
        arguments: vec![],
    };
    assert_eq!(
        generate_message_struct_definition(&sync, MessageSide::Request),
        "#[derive(Debug)]pub struct SyncRequest{pub callback: NewResource<super::wl_callback::WlCallback>,}"
    );
    assert_eq!(
        generate_message_enum("wl_display", &vec![sync, stop], MessageSide::Request),
        "#[derive(Debug)]pub enum WlDisplayRequest{Sync(SyncRequest),Stop,}"
    );
}

#[test]
fn whole_artifact_emission() {
    let sync = RequestDesc {
        message: MessageDesc {
            name: String::from("sync"),
            since: None,
            description: String::new(),
            summary: String::new(),
            arguments: vec![ArgumentDesc {
                name: String::from("callback"),
                summary: String::new(),
                arg_type: ArgumentType::NewId,
                interface: Some(String::from("wl_callback")),
                enum_type: None,
                allow_null: false,
            }],
        },
        destructor: false,
    };
    let iface = InterfaceDesc {
        name: String::from("wl_display"),
        version: 1,
        description: String::new(),
        summary: String::new(),
        requests: vec![sync],
        events: vec![],
        enums: vec![],
    };
    let impl_text = generate_interface_impl(&iface);
    assert!(impl_text.starts_with("impl Interface for WlDisplay{type Request = WlDisplayRequest;"));
    assert!(impl_text.contains("const NAME:&'static str = \"wl_display\";const VERSION:u32 = 1;"));
    assert!(impl_text.contains(
        "const REQUESTS:&'static [&'static [ArgumentDesc]] = &[&[ArgumentDesc{arg_type:ArgumentType::NewId,interface:Some(\"wl_callback\"),allow_null:false},],];"
    ));
    assert!(impl_text.contains("const EVENTS:&'static [&'static [ArgumentDesc]] = &[];"));
    assert!(impl_text.ends_with("fn new()->Self{Self}}"));

    let protocol = ProtocolDesc {
        name: String::from("wayland"),
        copyright: String::new(),
        interfaces: vec![iface],
    };
    let api = generate_api(&protocol);
    assert!(api.starts_with("pub mod wl_display{#![allow(unused)]use super::*;"));
    assert!(api.contains("#[derive(Debug,Clone,Copy)]pub struct WlDisplay;"));
    assert!(api.contains("impl Message for WlDisplayRequest{type ClientMap = ClientMap;"));
    assert!(api.contains("fn opcode(&self)->u16{match *self{Self::Sync(_) => 0,}}"));
    assert!(api.contains("fn from_args(client_map:Self::ClientMap,opcode:u16,args:Vec<DynArgument>)"));
    assert!(api.contains(
        "0 => {let val0 = reader.next_new_id()?.0;let val0 = client_map.add_new_id(val0);WlDisplayRequest::Sync(SyncRequest{callback: val0,})},"
    ));
    assert!(api.contains("_=>return Err(FromArgsError::UnknownOpcode(opcode)),})}"));
    assert!(api.contains("Self::Sync(ref data) => {let(id,title) = client_map.try_get_new_id(&data.callback);args.push(DynArgument::NewId(id,None));},"));
    assert!(api.contains("#[derive(Debug)]pub struct SyncRequest{pub callback: NewResource<super::wl_callback::WlCallback>,}"));
    assert!(api.ends_with("pub mod prelude{pub use super::wl_display::{self,WlDisplay,WlDisplayRequest,WlDisplayEvent};}"));
}
