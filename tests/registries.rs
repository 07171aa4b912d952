use warduino::host::{HostCall, SimulatedHost, MQTT_OK};
use warduino::interrupts::InterruptRegistry;
use warduino::levels::{InterruptMode, PinMode, PinVoltage};
use warduino::mqtt::{connect_succeeded, still_connected, Delivery, Message, TopicRegistry};

fn message(topic: &str, payload: &str, length: u32) -> Message {
    Message { topic: topic.to_string(), payload: payload.to_string(), length }
}

fn summary(out: &[Delivery]) -> Vec<(u32, String, String, u32)> {
    out.iter().map(|d| (d.callback, d.topic.clone(), d.payload.clone(), d.length)).collect()
}

#[test]
fn interrupt_registry_tracks_one_slot_per_pin() {
    let mut reg = InterruptRegistry::new();
    assert_eq!(reg.handler(4), None);
    reg.subscribe(4, 10, InterruptMode::Rising);
    reg.subscribe(5, 11, InterruptMode::Change);
    assert_eq!(reg.handler(4), Some((10, InterruptMode::Rising)));
    assert_eq!(reg.handler(5), Some((11, InterruptMode::Change)));
    reg.unsubscribe(4);
    assert_eq!(reg.handler(4), None);
    assert_eq!(reg.handler(5), Some((11, InterruptMode::Change)));
    reg.unsubscribe(9);
    assert_eq!(reg.handler(5), Some((11, InterruptMode::Change)));
}

#[test]
fn no_interrupt_after_unsubscribe() {
    let mut host = SimulatedHost::new();
    host.subscribe_interrupt(3, 7, InterruptMode::Change);
    assert_eq!(host.drive(3, PinVoltage::High), Some(7));
    host.unsubscribe_interrupt(3);
    assert_eq!(host.drive(3, PinVoltage::Low), None);
    assert_eq!(host.drive(3, PinVoltage::High), None);
}

#[test]
fn interrupt_resubscribe_runs_only_latest() {
    let mut reg = InterruptRegistry::new();
    reg.subscribe(2, 1, InterruptMode::Rising);
    reg.subscribe(2, 2, InterruptMode::Falling);
    assert_eq!(reg.fired(2, PinVoltage::High, PinVoltage::Low), Some(2));
    assert_eq!(reg.fired(2, PinVoltage::Low, PinVoltage::High), None);
    assert_eq!(reg.handler(2), Some((2, InterruptMode::Falling)));
}

#[test]
fn drive_fires_only_on_matching_edge() {
    let mut host = SimulatedHost::new();
    host.subscribe_interrupt(0, 5, InterruptMode::Rising);
    assert_eq!(host.drive(0, PinVoltage::Low), None);
    assert_eq!(host.drive(0, PinVoltage::High), Some(5));
    assert_eq!(host.drive(0, PinVoltage::High), None);
    assert_eq!(host.drive(1, PinVoltage::High), None);
}

#[test]
fn write_then_read_round_trips() {
    for mode in [PinMode::Input, PinMode::Output] {
        let mut host = SimulatedHost::new();
        host.pin_configure(13, mode);
        host.pin_write(13, PinVoltage::High);
        assert_eq!(host.pin_read(13), PinVoltage::High);
        host.pin_write(13, PinVoltage::Low);
        assert_eq!(host.pin_read(13), PinVoltage::Low);
    }
    let mut host = SimulatedHost::new();
    assert_eq!(host.pin_read(8), PinVoltage::Low);
    host.pin_write(8, PinVoltage::High);
    host.pin_write(9, PinVoltage::Low);
    assert_eq!(host.pin_read(8), PinVoltage::High);
}

#[test]
fn blink_sequence_is_recorded_in_order() {
    let mut host = SimulatedHost::new();
    host.pin_configure(2, PinMode::Output);
    host.pin_write(2, PinVoltage::High);
    host.delay(1000);
    host.pin_write(2, PinVoltage::Low);
    assert_eq!(
        host.call_log().clone(),
        vec![
            HostCall::Configure { pin: 2, mode: PinMode::Output },
            HostCall::Write { pin: 2, voltage: PinVoltage::High },
            HostCall::Delay { ms: 1000 },
            HostCall::Write { pin: 2, voltage: PinVoltage::Low },
        ]
    );
}

#[test]
fn subscribed_topic_message_runs_callback_once() {
    let mut reg = TopicRegistry::new();
    reg.subscribe("LED", 42);
    let out = reg.dispatch(&vec![message("LED", "on", 2)]);
    assert_eq!(summary(&out), vec![(42, "LED".to_string(), "on".to_string(), 2)]);
}

#[test]
fn unsubscribed_topic_runs_nothing() {
    let reg = TopicRegistry::new();
    assert!(reg.dispatch(&vec![message("LED", "on", 2)]).is_empty());
    let mut reg = TopicRegistry::new();
    reg.subscribe("lamp", 1);
    let out = reg.dispatch(&vec![message("LED", "on", 2), message("lamp/x", "1", 1)]);
    assert!(out.is_empty());
    assert!(reg.dispatch(&vec![]).is_empty());
}

#[test]
fn topic_resubscribe_runs_only_latest() {
    let mut reg = TopicRegistry::new();
    reg.subscribe("LED", 1);
    reg.subscribe("LED", 2);
    let out = reg.dispatch(&vec![message("LED", "off", 3), message("LED", "on", 2)]);
    assert_eq!(
        summary(&out),
        vec![(2, "LED".to_string(), "off".to_string(), 3), (2, "LED".to_string(), "on".to_string(), 2)]
    );
}

#[test]
fn topic_unsubscribe_stops_delivery() {
    let mut reg = TopicRegistry::new();
    reg.subscribe("LED", 1);
    reg.subscribe("fan", 2);
    reg.unsubscribe("LED");
    assert_eq!(reg.handler("LED"), None);
    assert_eq!(reg.handler("fan"), Some(2));
    let out = reg.dispatch(&vec![message("LED", "on", 2), message("fan", "hi", 2)]);
    assert_eq!(summary(&out), vec![(2, "fan".to_string(), "hi".to_string(), 2)]);
}

#[test]
fn dispatch_keeps_arrival_order() {
    let mut reg = TopicRegistry::new();
    reg.subscribe("a", 1);
    reg.subscribe("b", 2);
    let out = reg.dispatch(&vec![message("b", "1", 1), message("c", "x", 1), message("a", "2", 1)]);
    assert_eq!(
        summary(&out),
        vec![(2, "b".to_string(), "1".to_string(), 1), (1, "a".to_string(), "2".to_string(), 1)]
    );
}

#[test]
fn connection_codes_are_read_as_the_host_means_them() {
    assert!(connect_succeeded(1));
    assert!(connect_succeeded(-2));
    assert!(!connect_succeeded(0));
    assert!(still_connected(1));
    assert!(!still_connected(0));
    assert!(!still_connected(-1));
}

#[test]
fn host_loop_delivers_led_message_once() {
    let mut host = SimulatedHost::new();
    assert_eq!(host.mqtt_subscribe("LED", 9), MQTT_OK);
    host.arrive(message("LED", "on", 2));
    let (status, out) = host.mqtt_loop();
    assert_eq!(status, MQTT_OK);
    assert_eq!(summary(&out), vec![(9, "LED".to_string(), "on".to_string(), 2)]);
    let (status, out) = host.mqtt_loop();
    assert_eq!(status, MQTT_OK);
    assert!(out.is_empty());
}

#[test]
fn host_loop_without_subscription_runs_nothing() {
    let mut host = SimulatedHost::new();
    host.arrive(message("LED", "on", 2));
    let (status, out) = host.mqtt_loop();
    assert_eq!(status, MQTT_OK);
    assert!(out.is_empty());
}

#[test]
fn host_loop_after_unsubscribe_runs_nothing() {
    let mut host = SimulatedHost::new();
    host.mqtt_subscribe("LED", 1);
    host.mqtt_subscribe("LED", 2);
    host.arrive(message("LED", "on", 2));
    let (_, out) = host.mqtt_loop();
    assert_eq!(summary(&out), vec![(2, "LED".to_string(), "on".to_string(), 2)]);
    assert_eq!(host.mqtt_unsubscribe("LED"), MQTT_OK);
    host.arrive(message("LED", "off", 3));
    let (status, out) = host.mqtt_loop();
    assert_eq!(status, MQTT_OK);
    assert!(out.is_empty());
}
