use wayland_core::interface::{
    str_eq, DynInterface, InterfaceDebug, InterfaceTitle, ProtocolRegistry,
};
use wayland_core::wire::{ArgumentDesc, ArgumentType};

fn iface(name: &str, version: u32) -> DynInterface {
    DynInterface::new(String::from(name), version, vec![], vec![])
}

#[test]
fn registry_finds_the_first_matching_interface() {
    let mut reg = ProtocolRegistry::new();
    reg.register_interface(iface("wl_output", 3));
    let mut output_v1 = iface("wl_output", 1);
    output_v1.requests.push(vec![ArgumentDesc {
        arg_type: ArgumentType::Uint,
        interface: None,
        allow_null: false,
    }]);
    reg.register_interface(output_v1);
    reg.register_protocol(&vec![iface("wl_seat", 7)]);
    let hit = reg
        .find_interface(&InterfaceTitle::new(String::from("wl_output"), 3))
        .unwrap();
    assert_eq!(hit.name, "wl_output");
    assert_eq!(hit.version, 3);
    assert_eq!(hit.requests.len(), 0);
    let seat = reg
        .find_interface(&InterfaceTitle::new(String::from("wl_seat"), 7))
        .unwrap();
    assert_eq!(seat.version(), 7);
    assert!(reg
        .find_interface(&InterfaceTitle::new(String::from("wl_seat"), 1))
        .is_none());
    assert!(reg
        .find_interface(&InterfaceTitle::new(String::from("wl_pointer"), 1))
        .is_none());
}

#[test]
fn anonymous_interfaces_have_no_schema() {
    let a = DynInterface::new_anonymous();
    assert_eq!(a.name(), "anonymous");
    assert_eq!(a.version, 0);
    assert!(a.requests.is_empty());
    assert!(a.events.is_empty());
    let t = a.title();
    assert_eq!(t.name, "anonymous");
}

#[test]
fn string_comparison_is_exact() {
    assert!(str_eq("wl_shm", "wl_shm"));
    assert!(!str_eq("wl_shm", "wl_shm_pool"));
    assert!(!str_eq("", "a"));
    assert!(str_eq("", ""));
}
