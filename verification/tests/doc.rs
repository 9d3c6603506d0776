use wayland_core::doc::{combine_whitespace, generate_docs, MarkdownGenerator};
use wayland_core::scanner::{
    ArgumentDesc, EnumDesc, EntryDesc, InterfaceDesc, MessageDesc, ProtocolDesc, RequestDesc,
};
use wayland_core::wire::ArgumentType;

#[test]
fn whitespace_runs_collapse_to_one_space() {
    assert_eq!(combine_whitespace("a  b\n\tc"), "a b c");
    assert_eq!(combine_whitespace("  x "), " x ");
    assert_eq!(combine_whitespace(""), "");
}

#[test]
fn markdown_documentation_walk() {
    let arg = ArgumentDesc {
        name: String::from("id"),
        summary: String::from("the new  object"),
        arg_type: ArgumentType::NewId,
        interface: Some(String::from("wl_shm_pool")),
        enum_type: None,
        allow_null: false,
    };
    let request = RequestDesc {
        message: MessageDesc {
            name: String::from("create_pool"),
            since: Some(2),
            description: String::from("makes a pool"),
            summary: String::from("pool maker"),
            arguments: vec![arg],
        },
        destructor: false,
    };
    let en = EnumDesc {
        name: String::from("error"),
        bitfield: false,
        since: None,
        description: String::new(),
        summary: String::new(),
        entries: vec![EntryDesc {
            name: String::from("invalid_format"),
            since: None,
            value: 0,
            summary: String::from("bad"),
        }],
    };
    let iface = InterfaceDesc {
        name: String::from("wl_shm"),
        version: 1,
        description: String::from("shared   memory"),
        summary: String::from("shm"),
        requests: vec![request],
        events: vec![],
        enums: vec![en],
    };
    let protocol = ProtocolDesc {
        name: String::from("wayland"),
        copyright: String::new(),
        interfaces: vec![iface],
    };
    let mut sink = MarkdownGenerator::new();
    let out = generate_docs(&protocol, &mut sink).unwrap();
    assert!(out.starts_with("# 1 Interface: wl_shm (version 1)\n\n"));
    assert!(out.contains("shared memory\n\n"));
    assert!(out.contains("## 1.1 Requests\n\n"));
    assert!(out.contains("### 1.1.1 create_pool (since version 2)\n\n"));
    assert!(out.contains("#### 1.1.1.1 Arguments\n\n"));
    assert!(out.contains("##### 1.1.1.1.1 id: new_id\n\n"));
    assert!(out.contains("Interface: wl_shm_pool\n\n"));
    assert!(out.contains("Non-nullable\n\n"));
    assert!(out.contains("## 1.2 Enums\n\n"));
    assert!(out.contains("### 1.2.1 Enum: error\n\n"));
    // paragraphs collapse blank runs, so the line break folds to a space
    assert!(out.contains(" - invalid_format = 0: bad \n\n"));
}
