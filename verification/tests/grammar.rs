//! Tests for the identifier grammar: parsing, formatting, round trips.

use schematic::model::{Function, GrammarKind, Net, SchematicError};

fn net_round_trip(s: &str) {
    let net = Net::parse(s).unwrap();
    assert_eq!(net.to_string(), s);
}

fn function_round_trip(s: &str) {
    let function = Function::parse(s);
    assert_eq!(function.to_string(), s);
}

fn connection_round_trip(s: &str) {
    let conn = schematic::model::Connection::parse(s).unwrap();
    assert_eq!(conn.to_string(), s);
}

#[test]
fn net_round_trips() {
    net_round_trip("a");
    net_round_trip("PB2");
    net_round_trip("a:b");
    net_round_trip("expander1:GPIO0");
}

#[test]
fn function_round_trips() {
    function_round_trip("gpio");
    function_round_trip("uart0.txd");
    function_round_trip("i2c0.sda.extra");
    function_round_trip("");
}

#[test]
fn connection_round_trips() {
    connection_round_trip("PB2@uart0.txd");
    connection_round_trip("expander1:P0@i2c0.sda");
    connection_round_trip("GPIO0@gpio");
}

#[test]
fn parse_net_rejects_malformed() {
    for s in ["", ":", "a:", ":b", "a:b:c", "::"] {
        match Net::parse(s) {
            Err(SchematicError::InvalidFormat { text, grammar }) => {
                assert_eq!(text, s);
                assert_eq!(grammar, GrammarKind::Net);
            }
            other => panic!("expected InvalidFormat for {:?}, got {:?}", s, other),
        }
    }
}

#[test]
fn parse_net_direct() {
    assert_eq!(Net::parse("a").unwrap(), Net::Direct { pin: "a".to_string() });
}

#[test]
fn parse_net_device() {
    assert_eq!(
        Net::parse("a:b").unwrap(),
        Net::Device { device: "a".to_string(), pin: "b".to_string() }
    );
}

#[test]
fn parse_function_simple() {
    assert_eq!(Function::parse("gpio"), Function::Simple("gpio".to_string()));
}

#[test]
fn parse_function_peripheral() {
    assert_eq!(
        Function::parse("uart0.txd"),
        Function::Peripheral { name: "uart0".to_string(), signal: "txd".to_string() }
    );
}

#[test]
fn parse_function_splits_on_first_dot_only() {
    assert_eq!(
        Function::parse("i2c0.sda.extra"),
        Function::Peripheral { name: "i2c0".to_string(), signal: "sda.extra".to_string() }
    );
}

#[test]
fn parse_connection_ok() {
    let conn = schematic::model::Connection::parse("PB2@uart0.txd").unwrap();
    assert_eq!(conn.net, Net::Direct { pin: "PB2".to_string() });
    assert_eq!(
        conn.function,
        Function::Peripheral { name: "uart0".to_string(), signal: "txd".to_string() }
    );
}

#[test]
fn parse_connection_rejects_malformed() {
    for s in ["", "@", "a@", "@b", "a@b@c", "PB2"] {
        match schematic::model::Connection::parse(s) {
            Err(SchematicError::InvalidFormat { text, grammar }) => {
                assert_eq!(text, s);
                assert_eq!(grammar, GrammarKind::Connection);
            }
            other => panic!("expected InvalidFormat for {:?}, got {:?}", s, other),
        }
    }
}

#[test]
fn parse_connection_rejects_bad_net_half() {
    match schematic::model::Connection::parse("a:@f") {
        Err(SchematicError::InvalidFormat { text, grammar }) => {
            assert_eq!(text, "a:");
            assert_eq!(grammar, GrammarKind::Net);
        }
        other => panic!("expected InvalidFormat on the net half, got {:?}", other),
    }
}
