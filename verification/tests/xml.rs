use wayland_core::xml::parse_protocol_str;

#[test]
fn parse_protocol_str_reads_a_document() {
    let xml = r#"<?xml version="1.0"?>
<protocol name="wayland">
  <copyright>example</copyright>
  <interface name="wl_shm" version="1">
    <description summary="shared memory">Long &lt;text&gt; here.</description>
    <request name="create_pool">
      <description summary="make a pool"></description>
      <arg name="id" type="new_id" interface="wl_shm_pool"/>
      <arg name="fd" type="fd"/>
      <arg name="size" type="int"/>
    </request>
    <enum name="error">
      <entry name="invalid_format" value="0" summary="bad"/>
    </enum>
  </interface>
</protocol>
"#;
    let p = parse_protocol_str(xml).unwrap();
    assert_eq!(p.name, "wayland");
    assert_eq!(p.copyright, "example");
    assert_eq!(p.interfaces.len(), 1);
    let i = &p.interfaces[0];
    assert_eq!(i.name, "wl_shm");
    assert_eq!(i.version, 1);
    assert_eq!(i.description, "Long <text> here.");
    assert_eq!(i.requests.len(), 1);
    assert_eq!(i.requests[0].message.arguments.len(), 3);
    assert_eq!(i.requests[0].message.arguments[1].name, "fd");
    assert_eq!(i.enums[0].entries[0].name, "invalid_format");
}

#[test]
fn unbalanced_documents_are_refused() {
    assert!(parse_protocol_str("<protocol name=\"p\"><copyright>c</copyright>").is_err());
    assert!(parse_protocol_str("<wat/>").is_err());
    assert!(parse_protocol_str("").is_err());
}
