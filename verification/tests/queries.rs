//! Tests for the topology index and the resolution queries, including the
//! board scenarios and the idempotence of repeated queries.

use schematic::model::{
    App, Board, Connection, Device, DeviceStatus, Expose, Function, GrammarKind, Net, Pin,
    SchematicError, Soc,
};
use schematic::queries::{
    find_device_using_pin, find_peripheral_using_pin, list_exposes, list_peripheral_pins,
    list_pins_used_by_device, net_used_by,
};
use schematic::peripherals::list_peripherals;

fn pin(name: &str, pinmux: &[&str]) -> Pin {
    Pin {
        name: name.to_string(),
        pinmux: pinmux.iter().map(|m| Function::parse(m)).collect(),
    }
}

fn soc(pins: Vec<Pin>) -> Soc {
    Soc { name: "soc1".to_string(), description: None, buses: vec![], pins }
}

fn device(name: &str, connects: &[&str]) -> Device {
    Device {
        name: name.to_string(),
        connects: connects.iter().map(|c| Connection::parse(c).unwrap()).collect(),
        buses: vec![],
        pins: vec![],
    }
}

fn board(devices: Vec<Device>, exposes: Vec<Expose>) -> Board {
    Board {
        name: "board1".to_string(),
        description: None,
        soc: "soc1".to_string(),
        devices,
        exposes,
    }
}

fn app(devices: &[&str]) -> App {
    App {
        name: "app1".to_string(),
        description: None,
        devices: devices.iter().map(|d| d.to_string()).collect(),
    }
}

/// The fixture of scenario A: one SoC pin PB2 offering uart0.txd and
/// gpio, one device sensor1 using PB2 as gpio.
fn fixture_a() -> (Soc, Board) {
    let s = soc(vec![pin("PB2", &["uart0.txd", "gpio"])]);
    let b = board(vec![device("sensor1", &["PB2@gpio"])], vec![]);
    (s, b)
}

#[test]
fn function_accessors() {
    let f = Function::parse("uart0.txd");
    assert_eq!(f.peripheral(), "uart0");
    assert_eq!(f.signal(), Some("txd"));
    assert!(f.is("uart0"));
    assert!(!f.is("uart1"));
    let g = Function::parse("gpio");
    assert_eq!(g.peripheral(), "gpio");
    assert_eq!(g.signal(), None);
    assert!(g.is("gpio"));
}

#[test]
fn app_uses_membership() {
    let a = app(&["d1", "d2"]);
    assert!(a.uses("d1"));
    assert!(!a.uses("d3"));
    assert_eq!(a.status("d2"), DeviceStatus::Used);
    assert_eq!(a.status("d3"), DeviceStatus::Free);
}

#[test]
fn combined_net_space_order() {
    let (s, b) = fixture_c();
    let soc_nets = s.nets();
    assert_eq!(soc_nets.len(), 1);
    assert_eq!(soc_nets[0].0, Net::Direct { pin: "PB2".to_string() });
    assert_eq!(soc_nets[0].1.len(), 2);
    let expander_nets = b.devices[0].nets();
    assert_eq!(expander_nets.len(), 1);
    assert_eq!(
        expander_nets[0].0,
        Net::Device { device: "expander1".to_string(), pin: "P0".to_string() }
    );
    let space = schematic::topology::board_nets(&s, &b);
    assert_eq!(space.len(), 2);
    assert_eq!(space[0].0, Net::Direct { pin: "PB2".to_string() });
    assert_eq!(
        space[1].0,
        Net::Device { device: "expander1".to_string(), pin: "P0".to_string() }
    );
}

#[test]
fn devices_with_status_total_and_ordered() {
    let b = board(
        vec![device("d1", &[]), device("d2", &[]), device("d3", &[])],
        vec![],
    );
    let a = app(&["d2"]);
    let rows = b.devices_with_status(&a);
    assert_eq!(rows.len(), 3);
    assert_eq!(rows[0].0.name, "d1");
    assert_eq!(rows[0].1, DeviceStatus::Free);
    assert_eq!(rows[1].0.name, "d2");
    assert_eq!(rows[1].1, DeviceStatus::Used);
    assert_eq!(rows[2].0.name, "d3");
    assert_eq!(rows[2].1, DeviceStatus::Free);
}

#[test]
fn connected_ignores_signal() {
    let d = device("sensor1", &["PB2@uart0.txd"]);
    let net = Net::parse("PB2").unwrap();
    assert!(d.connected(&net, &Function::parse("uart0.rxd")));
    assert!(d.connected(&net, &Function::parse("uart0")));
    assert!(!d.connected(&net, &Function::parse("uart1.txd")));
    assert!(!d.connected(&Net::parse("PB3").unwrap(), &Function::parse("uart0.txd")));
}

#[test]
fn connection_to_first_match_wins() {
    let d = device("d1", &["PB2@gpio", "PB2@uart0.txd"]);
    let net = Net::parse("PB2").unwrap();
    let conn = d.connection_to(&net).unwrap();
    assert_eq!(conn.function, Function::Simple("gpio".to_string()));
}

#[test]
fn device_by_name_finds_first() {
    let b = board(vec![device("d1", &[]), device("d2", &["PB2@gpio"])], vec![]);
    assert_eq!(b.device_by_name("d2").unwrap().connects.len(), 1);
    assert!(b.device_by_name("nope").is_none());
}

#[test]
fn devices_as_set_deduplicates() {
    let a = app(&["d1", "d2", "d1", "d3", "d2"]);
    let mut set = a.devices_as_set();
    set.sort();
    assert_eq!(set, vec!["d1".to_string(), "d2".to_string(), "d3".to_string()]);
}

#[test]
fn status_text() {
    assert_eq!(DeviceStatus::Used.to_string(), "Used");
    assert_eq!(DeviceStatus::Free.to_string(), "Free");
}

#[test]
fn scenario_a_list_devices() {
    let (_s, b) = fixture_a();
    let a = app(&["sensor1"]);
    let rows = b.devices_with_status(&a);
    assert_eq!(rows.len(), 1);
    assert_eq!(rows[0].0.name, "sensor1");
    assert_eq!(rows[0].1, DeviceStatus::Used);
}

#[test]
fn scenario_a_find_device_using_pin() {
    let (s, b) = fixture_a();
    let a = app(&["sensor1"]);
    let rows = find_device_using_pin(&s, &b, &a, "PB2").unwrap();
    assert_eq!(rows.len(), 1);
    assert_eq!(rows[0].device, "sensor1");
    assert_eq!(rows[0].status, DeviceStatus::Used);
    assert_eq!(rows[0].function, Function::Simple("gpio".to_string()));
}

#[test]
fn scenario_b_list_devices() {
    let (_s, b) = fixture_a();
    let a = app(&[]);
    let rows = b.devices_with_status(&a);
    assert_eq!(rows.len(), 1);
    assert_eq!(rows[0].1, DeviceStatus::Free);
}

#[test]
fn scenario_b_pins_used_by_device() {
    let (_s, b) = fixture_a();
    let a = app(&[]);
    let rows = list_pins_used_by_device(&b, &a, "sensor1").unwrap();
    assert_eq!(rows.len(), 1);
    assert_eq!(rows[0].net, Net::Direct { pin: "PB2".to_string() });
    assert_eq!(rows[0].function, Function::Simple("gpio".to_string()));
    assert_eq!(rows[0].used_by, None);
}

#[test]
fn pins_used_by_device_reports_first_used_consumer() {
    let (_s, b) = fixture_a();
    let a = app(&["sensor1"]);
    let rows = list_pins_used_by_device(&b, &a, "sensor1").unwrap();
    assert_eq!(rows[0].used_by, Some("sensor1".to_string()));
}

#[test]
fn device_without_connections_yields_empty_list() {
    let b = board(vec![device("bare1", &[])], vec![]);
    let a = app(&["bare1"]);
    let rows = list_pins_used_by_device(&b, &a, "bare1").unwrap();
    assert!(rows.is_empty());
}

#[test]
fn pins_used_by_unknown_device_is_not_found() {
    let (_s, b) = fixture_a();
    let a = app(&[]);
    match list_pins_used_by_device(&b, &a, "nope") {
        Err(SchematicError::NotFound { name }) => assert_eq!(name, "nope"),
        other => panic!("expected NotFound, got {:?}", other),
    }
}

/// The fixture of scenario C: an IO expander exposing its own pin P0, and
/// a sensor connected behind it.
fn fixture_c() -> (Soc, Board) {
    let s = soc(vec![pin("PB2", &["uart0.txd", "gpio"])]);
    let mut expander = device("expander1", &["PB2@gpio"]);
    expander.pins = vec![pin("P0", &["i2c0.sda"])];
    let tempsensor = device("tempsensor", &["expander1:P0@i2c0.sda"]);
    let b = board(vec![expander, tempsensor], vec![]);
    (s, b)
}

#[test]
fn scenario_c_parse_net() {
    assert_eq!(
        Net::parse("expander1:P0").unwrap(),
        Net::Device { device: "expander1".to_string(), pin: "P0".to_string() }
    );
}

#[test]
fn scenario_c_find_device_behind_expander() {
    let (s, b) = fixture_c();
    let a = app(&["tempsensor"]);
    let rows = find_device_using_pin(&s, &b, &a, "expander1:P0").unwrap();
    assert_eq!(rows.len(), 1);
    assert_eq!(rows[0].device, "tempsensor");
    assert_eq!(rows[0].status, DeviceStatus::Used);
    assert_eq!(
        rows[0].function,
        Function::Peripheral { name: "i2c0".to_string(), signal: "sda".to_string() }
    );
}

#[test]
fn scenario_d_unknown_pin_is_not_found() {
    let (s, b) = fixture_a();
    let a = app(&[]);
    match find_device_using_pin(&s, &b, &a, "ZZZ") {
        Err(SchematicError::NotFound { name }) => assert_eq!(name, "ZZZ"),
        other => panic!("expected NotFound, got {:?}", other),
    }
}

#[test]
fn find_device_rejects_malformed_pin() {
    let (s, b) = fixture_a();
    let a = app(&[]);
    match find_device_using_pin(&s, &b, &a, ":") {
        Err(SchematicError::InvalidFormat { text, grammar }) => {
            assert_eq!(text, ":");
            assert_eq!(grammar, GrammarKind::Net);
        }
        other => panic!("expected InvalidFormat, got {:?}", other),
    }
}

#[test]
fn known_pin_without_consumers_is_empty_not_error() {
    let s = soc(vec![pin("PB9", &["gpio"])]);
    let b = board(vec![], vec![]);
    let a = app(&[]);
    let rows = find_device_using_pin(&s, &b, &a, "PB9").unwrap();
    assert!(rows.is_empty());
}

#[test]
fn peripherals_from_soc() {
    let (s, b) = fixture_a();
    let a = app(&["sensor1"]);
    let report = list_peripherals(&s, &b, &a);
    assert_eq!(report.soc.len(), 2);
    let uart = report.soc.iter().find(|e| e.name == "uart0").unwrap();
    assert!(uart.consumers.is_empty());
    let gpio = report.soc.iter().find(|e| e.name == "gpio").unwrap();
    assert_eq!(gpio.consumers.len(), 1);
    assert_eq!(gpio.consumers[0].device, "sensor1");
    assert_eq!(gpio.consumers[0].status, DeviceStatus::Used);
    assert!(report.sections.is_empty());
}

#[test]
fn peripherals_from_expander_device() {
    let (s, b) = fixture_c();
    let a = app(&["tempsensor"]);
    let report = list_peripherals(&s, &b, &a);
    assert_eq!(report.sections.len(), 1);
    let section = &report.sections[0];
    assert_eq!(section.device, "expander1");
    assert_eq!(section.status, DeviceStatus::Free);
    assert_eq!(section.peripherals.len(), 1);
    assert_eq!(section.peripherals[0].name, "i2c0");
    assert_eq!(section.peripherals[0].consumers.len(), 1);
    assert_eq!(section.peripherals[0].consumers[0].device, "tempsensor");
    assert_eq!(section.peripherals[0].consumers[0].status, DeviceStatus::Used);
}

#[test]
fn peripherals_names_each_consumer_once() {
    let s = soc(vec![pin("PB2", &["gpio"]), pin("PB3", &["gpio"])]);
    let b = board(
        vec![device("d1", &["PB2@gpio", "PB3@gpio"])],
        vec![],
    );
    let a = app(&[]);
    let report = list_peripherals(&s, &b, &a);
    assert_eq!(report.soc.len(), 1);
    assert_eq!(report.soc[0].name, "gpio");
    assert_eq!(report.soc[0].consumers.len(), 1);
    assert_eq!(report.soc[0].consumers[0].device, "d1");
    assert_eq!(report.soc[0].consumers[0].status, DeviceStatus::Free);
}

#[test]
fn peripheral_pins_lists_matching_nets() {
    let (s, b) = fixture_a();
    let a = app(&["sensor1"]);
    let rows = list_peripheral_pins(&s, &b, &a, "gpio");
    assert_eq!(rows.len(), 1);
    assert_eq!(rows[0].net, Net::Direct { pin: "PB2".to_string() });
    assert_eq!(rows[0].function, Function::Simple("gpio".to_string()));
    assert_eq!(rows[0].used_by, Some("sensor1".to_string()));
}

#[test]
fn peripheral_pins_unknown_peripheral_is_empty() {
    let (s, b) = fixture_a();
    let a = app(&[]);
    let rows = list_peripheral_pins(&s, &b, &a, "spi9");
    assert!(rows.is_empty());
}

#[test]
fn find_peripheral_using_pin_reports_pinmux() {
    let (s, b) = fixture_a();
    let a = app(&["sensor1"]);
    let rows = find_peripheral_using_pin(&s, &b, &a, "PB2").unwrap();
    assert_eq!(rows.len(), 2);
    assert_eq!(
        rows[0].function,
        Function::Peripheral { name: "uart0".to_string(), signal: "txd".to_string() }
    );
    assert!(rows[0].consumers.is_empty());
    assert_eq!(rows[1].function, Function::Simple("gpio".to_string()));
    assert_eq!(rows[1].consumers.len(), 1);
    assert_eq!(rows[1].consumers[0].device, "sensor1");
    assert_eq!(rows[1].consumers[0].status, DeviceStatus::Used);
}

#[test]
fn find_peripheral_using_unknown_pin_is_not_found() {
    let (s, b) = fixture_a();
    let a = app(&[]);
    match find_peripheral_using_pin(&s, &b, &a, "QQ1") {
        Err(SchematicError::NotFound { name }) => assert_eq!(name, "QQ1"),
        other => panic!("expected NotFound, got {:?}", other),
    }
}

#[test]
fn exposes_resolve_usage() {
    let (s, mut b) = fixture_a();
    let _ = s;
    b.exposes = vec![Expose {
        name: "CN1".to_string(),
        pins: vec![Net::parse("PB2").unwrap(), Net::parse("PB9").unwrap()],
    }];
    let a = app(&["sensor1"]);
    let rows = list_exposes(&b, &a);
    assert_eq!(rows.len(), 1);
    assert_eq!(rows[0].connector, "CN1");
    assert_eq!(rows[0].pins.len(), 2);
    assert_eq!(rows[0].pins[0].net, Net::Direct { pin: "PB2".to_string() });
    assert_eq!(rows[0].pins[0].used_by, Some("sensor1".to_string()));
    assert_eq!(rows[0].pins[1].used_by, None);
}

#[test]
fn no_exposes_is_empty_not_error() {
    let (_s, b) = fixture_a();
    let a = app(&[]);
    assert!(list_exposes(&b, &a).is_empty());
}

#[test]
fn dangling_net_reference_degrades_to_no_match() {
    let s = soc(vec![pin("PB2", &["gpio"])]);
    let b = board(vec![device("d1", &["PB7@gpio"])], vec![]);
    let a = app(&["d1"]);
    let rows = list_pins_used_by_device(&b, &a, "d1").unwrap();
    assert_eq!(rows.len(), 1);
    assert_eq!(rows[0].used_by, Some("d1".to_string()));
    let found = find_device_using_pin(&s, &b, &a, "PB2").unwrap();
    assert!(found.is_empty());
}

#[test]
fn net_used_by_reports_first_used_device_in_board_order() {
    let b = board(
        vec![device("d1", &["PB2@gpio"]), device("d2", &["PB2@uart0.txd"])],
        vec![],
    );
    let a = app(&["d2"]);
    let net = Net::parse("PB2").unwrap();
    assert_eq!(net_used_by(&b.devices, &a, &net), Some("d2".to_string()));
    let both = app(&["d1", "d2"]);
    assert_eq!(net_used_by(&b.devices, &both, &net), Some("d1".to_string()));
}

#[test]
fn repeated_queries_give_identical_results() {
    let (s, b) = fixture_c();
    let a = app(&["tempsensor"]);
    assert_eq!(b.devices_with_status(&a), b.devices_with_status(&a));
    assert_eq!(
        list_pins_used_by_device(&b, &a, "tempsensor"),
        list_pins_used_by_device(&b, &a, "tempsensor")
    );
    assert_eq!(
        find_device_using_pin(&s, &b, &a, "expander1:P0"),
        find_device_using_pin(&s, &b, &a, "expander1:P0")
    );
    let r1 = list_peripherals(&s, &b, &a);
    let r2 = list_peripherals(&s, &b, &a);
    assert_eq!(r1, r2);
    assert_eq!(
        list_peripheral_pins(&s, &b, &a, "i2c0"),
        list_peripheral_pins(&s, &b, &a, "i2c0")
    );
    assert_eq!(
        find_peripheral_using_pin(&s, &b, &a, "PB2"),
        find_peripheral_using_pin(&s, &b, &a, "PB2")
    );
    assert_eq!(list_exposes(&b, &a), list_exposes(&b, &a));
}
