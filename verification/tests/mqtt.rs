use zmqtt2prom::mqtt::{
    client_id, client_id_from_random_bytes, new_client_id, next_connection_step, next_session_step,
    route_topic, ConnectionAction, ConnectionEvent, MqttConfig, SessionAction, SessionEvent,
    SessionState, TopicRoute,
};

fn config(username: Option<&str>, password: Option<&str>) -> MqttConfig {
    MqttConfig {
        host: "localhost".to_string(),
        port: 1883,
        username: username.map(|s| s.to_string()),
        password: password.map(|s| s.to_string()),
    }
}

fn route(topic: &str) -> String {
    match route_topic(topic) {
        TopicRoute::DeviceList => "devices".to_string(),
        TopicRoute::DeviceState(name) => format!("device:{}", name),
        TopicRoute::Ignored => "ignored".to_string(),
    }
}

#[test]
fn topics_are_routed() {
    assert_eq!(route("zigbee2mqtt/bridge/devices"), "devices");
    assert_eq!(route("zigbee2mqtt/living_room_sensor"), "device:living_room_sensor");
    assert_eq!(route("zigbee2mqtt/bridge/state"), "ignored");
    assert_eq!(route("zigbee2mqtt/bridge/devicesx"), "ignored");
    assert_eq!(route("other/topic"), "ignored");
    assert_eq!(route("zigbee2mqtt/"), "device:");
    assert_eq!(route("zigbee2mqtt/küche/lampe"), "device:küche/lampe");
}

#[test]
fn credentials_need_both_parts() {
    assert_eq!(config(Some("u"), Some("p")).credentials(), Some(("u".to_string(), "p".to_string())));
    assert_eq!(config(Some("u"), None).credentials(), None);
    assert_eq!(config(None, Some("p")).credentials(), None);
    assert_eq!(config(None, None).credentials(), None);
}

#[test]
fn client_ids() {
    assert_eq!(client_id("abc"), "zmqtt2prom-abc");
    let id = new_client_id().expect("the random source works here");
    assert!(id.starts_with("zmqtt2prom-"));
    let uuid = &id["zmqtt2prom-".len()..];
    assert_eq!(uuid.len(), 36);
    assert_eq!(uuid.chars().filter(|c| *c == '-').count(), 4);
    let chars: Vec<char> = uuid.chars().collect();
    assert_eq!(chars[14], '4');
    assert!(matches!(chars[19], '8' | '9' | 'a' | 'b'));
    assert_ne!(new_client_id(), Some(id));
}

#[test]
fn client_ids_from_random_bytes() {
    assert_eq!(client_id_from_random_bytes([0u8; 16]), "zmqtt2prom-00000000-0000-4000-8000-000000000000");
    let counting: [u8; 16] = [0, 1, 2, 3, 4, 5, 6, 7, 8, 9, 10, 11, 12, 13, 14, 15];
    assert_eq!(client_id_from_random_bytes(counting), "zmqtt2prom-00010203-0405-4607-8809-0a0b0c0d0e0f");
    assert_eq!(client_id_from_random_bytes([0xff; 16]), "zmqtt2prom-ffffffff-ffff-4fff-bfff-ffffffffffff");
}

fn step(event: ConnectionEvent) -> String {
    match next_connection_step(event) {
        ConnectionAction::Deliver(TopicRoute::DeviceList) => "deliver devices".to_string(),
        ConnectionAction::Deliver(TopicRoute::DeviceState(name)) => format!("deliver device:{}", name),
        ConnectionAction::Deliver(TopicRoute::Ignored) => "deliver ignored".to_string(),
        ConnectionAction::NoteConnected => "connected".to_string(),
        ConnectionAction::Continue => "continue".to_string(),
        ConnectionAction::Fail => "fail".to_string(),
        ConnectionAction::Disconnect => "disconnect".to_string(),
    }
}

#[test]
fn connection_events() {
    assert_eq!(step(ConnectionEvent::Message("zigbee2mqtt/bridge/devices".to_string())), "deliver devices");
    assert_eq!(step(ConnectionEvent::Message("zigbee2mqtt/lamp".to_string())), "deliver device:lamp");
    assert_eq!(step(ConnectionEvent::Message("zigbee2mqtt/bridge/state".to_string())), "deliver ignored");
    assert_eq!(step(ConnectionEvent::Acknowledged), "connected");
    assert_eq!(step(ConnectionEvent::OtherPacket), "continue");
    assert_eq!(step(ConnectionEvent::PollFailed), "fail");
    assert_eq!(step(ConnectionEvent::ShutdownSignal(true)), "disconnect");
    assert_eq!(step(ConnectionEvent::ShutdownSignal(false)), "continue");
}

#[test]
fn session_cycle() {
    assert_eq!(
        next_session_step(SessionState::Connected, SessionEvent::Failed),
        (SessionState::Waiting, SessionAction::Pause)
    );
    assert_eq!(
        next_session_step(SessionState::Waiting, SessionEvent::DelayElapsed),
        (SessionState::Connected, SessionAction::Connect)
    );
    assert_eq!(
        next_session_step(SessionState::Connected, SessionEvent::Closed),
        (SessionState::Stopped, SessionAction::Stop)
    );
    assert_eq!(
        next_session_step(SessionState::Waiting, SessionEvent::ShutdownRequested),
        (SessionState::Stopped, SessionAction::Stop)
    );
    assert_eq!(
        next_session_step(SessionState::Stopped, SessionEvent::DelayElapsed),
        (SessionState::Stopped, SessionAction::Continue)
    );
    assert_eq!(
        next_session_step(SessionState::Waiting, SessionEvent::Failed),
        (SessionState::Waiting, SessionAction::Continue)
    );
}
