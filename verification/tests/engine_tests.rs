use pinger::{Address, Engine, Target};

fn target(name: &str, addr: Address) -> Target {
    Target::new(name.to_string(), addr, 4000, 5, 50, 10)
}

#[test]
fn new_engine_is_empty() {
    let e: Engine<String> = Engine::new();
    assert!(e.get_addresses().is_empty());
    assert!(e.get(&Address::V4(1)).is_none());
    let d: Engine<String> = Engine::default();
    assert!(d.get_addresses().is_empty());
}

#[test]
fn add_registers_a_monitor_per_address() {
    let mut e: Engine<String> = Engine::new();
    e.add(target("a", Address::V4(1)), |t| t.name().to_string());
    e.add(target("b", Address::V6(1)), |t| t.name().to_string());
    assert_eq!(e.get_addresses(), vec![Address::V4(1), Address::V6(1)]);
    assert_eq!(e.get(&Address::V4(1)).map(|s| s.as_str()), Some("a"));
    assert_eq!(e.get(&Address::V6(1)).map(|s| s.as_str()), Some("b"));
    assert!(e.get(&Address::V4(2)).is_none());
}

#[test]
fn adding_a_known_address_changes_nothing() {
    let mut e: Engine<String> = Engine::new();
    e.add(target("first", Address::V4(7)), |t| t.name().to_string());
    let mut called = false;
    e.add(target("second", Address::V4(7)), |t| {
        called = true;
        t.name().to_string()
    });
    assert!(!called);
    assert_eq!(e.get_addresses(), vec![Address::V4(7)]);
    assert_eq!(e.get(&Address::V4(7)).map(|s| s.as_str()), Some("first"));
}

#[test]
fn monitor_sees_the_target() {
    let mut e: Engine<Target> = Engine::new();
    e.add(target("x", Address::V4(0x7f00_0001)), |t| t);
    let t = e.get(&Address::V4(0x7f00_0001)).unwrap();
    assert_eq!(t.name(), "x");
    assert_eq!(t.error_count_threshold(), 10);
}
