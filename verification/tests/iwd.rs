use rustybar::config::IwdConfig;
use rustybar::tiles::iwd::{
    get_interface_path, iwd_block, iwd_block_for, Interface, ManagedObject, ManagedObjects, Property,
};
use rustybar::tiles::TileError;

fn prop(name: &str, text: Option<&str>) -> Property {
    Property { name: name.to_string(), text: text.map(String::from) }
}

fn iface(name: &str, properties: Vec<Property>) -> Interface {
    Interface { name: name.to_string(), properties }
}

fn object(path: &str, interfaces: Vec<Interface>) -> ManagedObject {
    ManagedObject { path: path.to_string(), interfaces }
}

fn objects(connected: Option<&str>) -> ManagedObjects {
    ManagedObjects::new(object_list(connected)).unwrap()
}

fn object_list(connected: Option<&str>) -> Vec<ManagedObject> {
    vec![
        object("/net/connman/iwd", vec![iface("net.connman.iwd.AgentManager", vec![])]),
        object(
            "/net/connman/iwd/0/4",
            vec![
                iface("net.connman.iwd.Device", vec![prop("Name", Some("wlan0")), prop("Powered", None)]),
                iface("net.connman.iwd.Station", vec![prop("ConnectedNetwork", connected)]),
            ],
        ),
        object(
            "/net/connman/iwd/0/4/486f6d65_psk",
            vec![iface("net.connman.iwd.Network", vec![prop("Name", Some("Home"))])],
        ),
        object("/net/connman/iwd/0/4/4f6666696365_psk", vec![iface("net.connman.iwd.Network", vec![])]),
    ]
}

fn config(name: &str) -> IwdConfig {
    IwdConfig { interface: name.to_string() }
}

#[test]
fn finds_device_path() {
    let os = objects(None);
    assert_eq!(get_interface_path(&os, "wlan0"), Some("/net/connman/iwd/0/4".to_string()));
    assert_eq!(get_interface_path(&os, "wlan1"), None);
    assert_eq!(get_interface_path(&ManagedObjects::new(Vec::new()).unwrap(), "wlan0"), None);
}

#[test]
fn connected_network_is_shown() {
    let os = objects(Some("/net/connman/iwd/0/4/486f6d65_psk"));
    let b = iwd_block(&os, &config("wlan0")).unwrap();
    assert_eq!(b.full_text, "wlan0: Home");
    assert_eq!(b.name, "wlan0");
    assert_eq!(b.short_text, None);
}

#[test]
fn disconnected_device() {
    let b = iwd_block(&objects(None), &config("wlan0")).unwrap();
    assert_eq!(b.full_text, "wlan0: disconnected");
}

#[test]
fn invalid_network_path_counts_as_disconnected() {
    let b = iwd_block(&objects(Some("not a path")), &config("wlan0")).unwrap();
    assert_eq!(b.full_text, "wlan0: disconnected");
}

#[test]
fn network_without_name_is_an_error() {
    let os = objects(Some("/net/connman/iwd/0/4/4f6666696365_psk"));
    assert_eq!(iwd_block(&os, &config("wlan0")).unwrap_err(), TileError::NetworkNameMissing);
    let os = objects(Some("/net/connman/iwd/0/9"));
    assert_eq!(iwd_block(&os, &config("wlan0")).unwrap_err(), TileError::NetworkNameMissing);
}

#[test]
fn unknown_interface_is_an_error() {
    assert_eq!(iwd_block(&objects(None), &config("eth0")).unwrap_err(), TileError::InterfaceNotFound);
    assert_eq!(
        iwd_block_for(&objects(None), &config("eth0"), Some("/x".to_string())).unwrap_err(),
        TileError::InterfaceNotFound
    );
}

#[test]
fn block_for_given_network() {
    let os = objects(None);
    let b = iwd_block_for(&os, &config("wlan0"), Some("/net/connman/iwd/0/4/486f6d65_psk".to_string())).unwrap();
    assert_eq!(b.full_text, "wlan0: Home");
    let b = iwd_block_for(&os, &config("wlan0"), None).unwrap();
    assert_eq!(b.full_text, "wlan0: disconnected");
}

#[test]
fn object_path_grammar_decides_connection() {
    let b = |p: &str| iwd_block(&objects(Some(p)), &config("wlan0"));
    assert_eq!(b("/net//iwd").unwrap().full_text, "wlan0: disconnected");
    assert_eq!(b("/net/iwd/").unwrap().full_text, "wlan0: disconnected");
    assert_eq!(b("net/iwd").unwrap().full_text, "wlan0: disconnected");
    assert_eq!(b("/net/iwd-x").unwrap().full_text, "wlan0: disconnected");
    assert_eq!(b("").unwrap().full_text, "wlan0: disconnected");
    assert_eq!(b("/").unwrap_err(), TileError::NetworkNameMissing);
    assert_eq!(b("/net_1/A9").unwrap_err(), TileError::NetworkNameMissing);
    assert_eq!(
        b("/net/connman/iwd/0/4/486f6d65_psk\0 tail").unwrap_err(),
        TileError::NetworkNameMissing
    );
}

#[test]
fn repeated_keys_are_refused() {
    let mut os = object_list(None);
    os.push(object("/net/connman/iwd", vec![]));
    assert!(ManagedObjects::new(os).is_none());
    let os = vec![object("/a", vec![iface("x", vec![]), iface("x", vec![])])];
    assert!(ManagedObjects::new(os).is_none());
    let os = vec![object("/a", vec![iface("x", vec![prop("N", None), prop("N", Some("v"))])])];
    assert!(ManagedObjects::new(os).is_none());
    let os = vec![object("/a", vec![iface("x", vec![prop("N", None)]), iface("y", vec![prop("N", None)])])];
    assert_eq!(ManagedObjects::new(os).unwrap().objects().len(), 1);
}

#[test]
fn error_messages() {
    assert_eq!(TileError::InterfaceNotFound.message(), "Couldn't find interface");
    assert_eq!(TileError::NetworkNameMissing.message(), "Unable to get network name");
}
