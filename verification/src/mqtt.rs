//! MQTT side of the bridge: topics, connection settings, and the reconnect cycle.
use vstd::prelude::*;

use crate::text::{is_prefix_of, starts_with, str_equals};

verus! {

/// Topic on which Zigbee2MQTT publishes the list of devices.
pub const BRIDGE_DEVICES_TOPIC: &'static str = "zigbee2mqtt/bridge/devices";

/// Prefix of every Zigbee2MQTT topic; a device reports under the prefix and its friendly name.
pub const ZIGBEE2MQTT_PREFIX: &'static str = "zigbee2mqtt/";

/// Sub-topics of the bridge itself, which carry no device reports.
pub const BRIDGE_PREFIX: &'static str = "bridge/";

/// Prefix of the client identifier sent to the broker.
pub const CLIENT_ID_PREFIX: &'static str = "zmqtt2prom-";

/// Keep-alive interval of the MQTT connection, in seconds.
pub const KEEP_ALIVE_SECS: u64 = 30;

/// Largest MQTT packet accepted or sent, in bytes.
pub const MAX_PACKET_SIZE: usize = 256 * 1024;

/// Capacity of the queue of requests to the MQTT client.
pub const REQUEST_CAPACITY: usize = 100;

/// Pause before reconnecting after a failed connection, in seconds.
pub const RECONNECT_DELAY_SECS: u64 = 2;

/// Configuration for the MQTT connection.
#[derive(Debug, Clone)]
pub struct MqttConfig {
    pub host: String,
    pub port: u16,
    pub username: Option<String>,
    pub password: Option<String>,
}

impl MqttConfig {
    /// The credentials to log in with: only when both a username and a password are given.
    pub fn credentials(&self) -> (r: Option<(String, String)>)
        ensures
            r is Some <==> (self.username is Some && self.password is Some),
            r matches Some((u, p)) ==> u == self.username->Some_0 && p == self.password->Some_0,
    {
        match (&self.username, &self.password) {
            (Some(u), Some(p)) => Some((u.clone(), p.clone())),
            _ => None,
        }
    }
}

/// The text of a UUID in hyphenated form: 36 characters, hyphens at positions
/// 8, 13, 18 and 23, lowercase hexadecimal digits elsewhere.
pub open spec fn is_hyphenated_uuid(s: Seq<char>) -> bool {
    &&& s.len() == 36
    &&& forall|i: int|
        0 <= i < 36 ==> if i == 8 || i == 13 || i == 18 || i == 23 {
            #[trigger] s[i] == '-'
        } else {
            ('0' <= s[i] && s[i] <= '9') || ('a' <= s[i] && s[i] <= 'f')
        }
}

/// The text of a random (version 4, RFC 4122 variant) UUID: hyphenated lowercase form, with
/// the version digit `4` at position 14 and the variant digit, one of `8`, `9`, `a`, `b`,
/// at position 19.
pub open spec fn is_random_uuid_text(s: Seq<char>) -> bool {
    &&& is_hyphenated_uuid(s)
    &&& s[14] == '4'
    &&& (s[19] == '8' || s[19] == '9' || s[19] == 'a' || s[19] == 'b')
}

/// 16 bytes from the operating system's random source, read with `getrandom::fill`; `None`
/// when that source fails. The bytes are random: nothing is stated of them.
#[verifier::external_body]
fn random_bytes() -> (r: Option<[u8; 16]>) {
    let mut bytes = [0u8; 16];
    match getrandom::fill(&mut bytes) {
        Ok(()) => Some(bytes),
        Err(_) => None,
    }
}

/// The lowercase hexadecimal digit of a number below 16.
pub open spec fn hex_digit(n: int) -> char {
    if n < 10 {
        (48 + n) as char
    } else {
        (87 + n) as char
    }
}

/// Byte `i` of the version-4 UUID built from 16 random bytes: byte 6 keeps its low half under
/// the version number 4, byte 8 keeps its low six bits under the RFC 4122 variant bits `10`.
pub open spec fn random_uuid_byte(bytes: Seq<u8>, i: int) -> int {
    if i == 6 {
        bytes[6] % 16 + 0x40
    } else if i == 8 {
        bytes[8] % 64 + 0x80
    } else {
        bytes[i] as int
    }
}

/// Which of the 32 hexadecimal digits stands at position `p` of the hyphenated text.
pub open spec fn uuid_digit_index(p: int) -> int {
    if p < 8 {
        p
    } else if p < 13 {
        p - 1
    } else if p < 18 {
        p - 2
    } else if p < 23 {
        p - 3
    } else {
        p - 4
    }
}

/// The hyphenated lowercase text of the version-4 UUID built from 16 random bytes: two
/// hexadecimal digits per byte, high half first, in groups of 8, 4, 4, 4 and 12 digits.
pub open spec fn uuid_text_of_random_bytes(bytes: Seq<u8>) -> Seq<char> {
    Seq::new(
        36,
        |p: int|
            if p == 8 || p == 13 || p == 18 || p == 23 {
                '-'
            } else {
                let d = uuid_digit_index(p);
                let b = random_uuid_byte(bytes, d / 2);
                hex_digit(if d % 2 == 0 { b / 16 } else { b % 16 })
            },
    )
}

/// The text of the UUID built from 16 random bytes has the form of a random UUID's text.
pub proof fn lemma_random_uuid_text_form(bytes: Seq<u8>)
    requires
        bytes.len() == 16,
    ensures
        is_random_uuid_text(uuid_text_of_random_bytes(bytes)),
{
    let s = uuid_text_of_random_bytes(bytes);
    assert forall|i: int| 0 <= i < 36 implies if i == 8 || i == 13 || i == 18 || i == 23 {
        #[trigger] s[i] == '-'
    } else {
        ('0' <= s[i] && s[i] <= '9') || ('a' <= s[i] && s[i] <= 'f')
    } by {
        if !(i == 8 || i == 13 || i == 18 || i == 23) {
            let d = uuid_digit_index(i);
            let b = random_uuid_byte(bytes, d / 2);
            assert(0 <= d / 2 < 16);
            assert(0 <= b < 256);
            let n = if d % 2 == 0 { b / 16 } else { b % 16 };
            assert(0 <= n < 16);
        }
    }
    let b6 = random_uuid_byte(bytes, 6);
    assert(b6 / 16 == 4);
    let b8 = random_uuid_byte(bytes, 8);
    assert(8 <= b8 / 16 < 12);
}

/// Builds a UUID with `uuid::Builder::from_random_bytes` (which sets the version bits to 4 and
/// the variant bits to those of RFC 4122) and writes it with `to_string`, which gives the
/// hyphenated lowercase form: the text is `uuid_text_of_random_bytes` of the bytes.
#[verifier::external_body]
fn uuid_text_from_random_bytes(bytes: [u8; 16]) -> (r: String)
    ensures
        r@ == uuid_text_of_random_bytes(bytes@),
{
    uuid::Builder::from_random_bytes(bytes).into_uuid().to_string()
}

/// The client identifier for a session with the given UUID text.
pub fn client_id(uuid_text: &str) -> (r: String)
    ensures
        r@ == CLIENT_ID_PREFIX@ + uuid_text@,
{
    let mut r = CLIENT_ID_PREFIX.to_owned();
    r.append(uuid_text);
    r
}

/// The client identifier made from 16 random bytes: the prefix followed by the text of the
/// version-4 UUID built from them.
pub fn client_id_from_random_bytes(bytes: [u8; 16]) -> (r: String)
    ensures
        r@ == CLIENT_ID_PREFIX@ + uuid_text_of_random_bytes(bytes@),
        is_random_uuid_text(uuid_text_of_random_bytes(bytes@)),
{
    proof {
        lemma_random_uuid_text_form(bytes@);
    }
    let u = uuid_text_from_random_bytes(bytes);
    client_id(u.as_str())
}

/// A fresh client identifier: the prefix followed by the text of a version-4 UUID built from
/// random bytes; `None` when the operating system's random source fails.
pub fn new_client_id() -> (r: Option<String>)
    ensures
        r matches Some(id) ==> exists|b: Seq<u8>|
            b.len() == 16 && id@ == CLIENT_ID_PREFIX@ + #[trigger] uuid_text_of_random_bytes(b),
        r matches Some(id) ==> exists|u: Seq<char>|
            is_random_uuid_text(u) && id@ == CLIENT_ID_PREFIX@ + u,
{
    match random_bytes() {
        Some(bytes) => {
            let id = client_id_from_random_bytes(bytes);
            assert(bytes@.len() == 16);
            Some(id)
        },
        None => None,
    }
}

/// Where the bridge sends a message that arrives on a topic.
pub enum TopicRoute {
    /// The device list: rebuild the device registry.
    DeviceList,
    /// A report of the device with this friendly name.
    DeviceState(String),
    /// Anything else.
    Ignored,
}

/// A route, the device name as text.
pub enum RouteView {
    DeviceList,
    DeviceState(Seq<char>),
    Ignored,
}

impl View for TopicRoute {
    type V = RouteView;

    open spec fn view(&self) -> RouteView {
        match self {
            TopicRoute::DeviceList => RouteView::DeviceList,
            TopicRoute::DeviceState(name) => RouteView::DeviceState(name@),
            TopicRoute::Ignored => RouteView::Ignored,
        }
    }
}

/// The route of a topic: the device list topic; a device topic under the Zigbee2MQTT
/// prefix, unless it is a bridge sub-topic; nothing else.
pub open spec fn spec_route_topic(topic: Seq<char>) -> RouteView {
    if topic == BRIDGE_DEVICES_TOPIC@ {
        RouteView::DeviceList
    } else if is_prefix_of(ZIGBEE2MQTT_PREFIX@, topic) {
        let name = topic.skip(ZIGBEE2MQTT_PREFIX@.len() as int);
        if is_prefix_of(BRIDGE_PREFIX@, name) {
            RouteView::Ignored
        } else {
            RouteView::DeviceState(name)
        }
    } else {
        RouteView::Ignored
    }
}

/// Decides what to do with a message on `topic`.
pub fn route_topic(topic: &str) -> (r: TopicRoute)
    ensures
        r@ == spec_route_topic(topic@),
{
    if str_equals(topic, BRIDGE_DEVICES_TOPIC) {
        TopicRoute::DeviceList
    } else if starts_with(topic, ZIGBEE2MQTT_PREFIX) {
        let start = ZIGBEE2MQTT_PREFIX.unicode_len();
        let end = topic.unicode_len();
        let name = topic.substring_char(start, end);
        assert(name@ =~= topic@.skip(ZIGBEE2MQTT_PREFIX@.len() as int));
        if starts_with(name, BRIDGE_PREFIX) {
            TopicRoute::Ignored
        } else {
            TopicRoute::DeviceState(name.to_owned())
        }
    } else {
        TopicRoute::Ignored
    }
}

/// The topic on which the device with the given friendly name reports.
pub open spec fn spec_device_topic(friendly_name: Seq<char>) -> Seq<char> {
    ZIGBEE2MQTT_PREFIX@ + friendly_name
}

/// A device's own topic routes back to that device, unless its name makes it a bridge sub-topic.
pub proof fn lemma_device_topic_routes_to_device(friendly_name: Seq<char>)
    requires
        !is_prefix_of(BRIDGE_PREFIX@, friendly_name),
    ensures
        spec_route_topic(spec_device_topic(friendly_name)) == RouteView::DeviceState(friendly_name),
{
    reveal_strlit("zigbee2mqtt/");
    reveal_strlit("zigbee2mqtt/bridge/devices");
    reveal_strlit("bridge/");
    let topic = spec_device_topic(friendly_name);
    assert(topic.subrange(0, 12) =~= ZIGBEE2MQTT_PREFIX@);
    assert(topic.skip(12) =~= friendly_name);
    if topic == BRIDGE_DEVICES_TOPIC@ {
        assert(friendly_name.subrange(0, 7) =~= BRIDGE_PREFIX@) by {
            assert forall|i: int| 0 <= i < 7 implies friendly_name[i] == BRIDGE_PREFIX@[i] by {
                assert(topic[12 + i] == BRIDGE_DEVICES_TOPIC@[12 + i]);
            }
        }
    }
}

/// What happens on an open connection to the broker.
pub enum ConnectionEvent {
    /// A message arrived on this topic.
    Message(String),
    /// The broker acknowledged the connection.
    Acknowledged,
    /// Any other packet went in or out.
    OtherPacket,
    /// Polling the connection failed.
    PollFailed,
    /// The shutdown signal changed; `true` when a shutdown is asked for.
    ShutdownSignal(bool),
}

/// What the service does about an event on an open connection.
pub enum ConnectionAction {
    /// Hand the message to this route.
    Deliver(TopicRoute),
    /// Note that the connection is up, and go on serving.
    NoteConnected,
    /// Go on serving.
    Continue,
    /// End the connection as failed.
    Fail,
    /// Disconnect from the broker and end the connection as closed.
    Disconnect,
}

/// Decides what to do about an event on an open connection: a message goes to the route of
/// its topic; a failed poll ends the connection as failed; a shutdown request disconnects;
/// anything else lets the connection go on.
pub fn next_connection_step(event: ConnectionEvent) -> (r: ConnectionAction)
    ensures
        match event {
            ConnectionEvent::Message(topic) => r matches ConnectionAction::Deliver(route)
                && route@ == spec_route_topic(topic@),
            ConnectionEvent::Acknowledged => r is NoteConnected,
            ConnectionEvent::OtherPacket => r is Continue,
            ConnectionEvent::PollFailed => r is Fail,
            ConnectionEvent::ShutdownSignal(requested) => if requested {
                r is Disconnect
            } else {
                r is Continue
            },
        },
{
    match event {
        ConnectionEvent::Message(topic) => ConnectionAction::Deliver(route_topic(topic.as_str())),
        ConnectionEvent::Acknowledged => ConnectionAction::NoteConnected,
        ConnectionEvent::OtherPacket => ConnectionAction::Continue,
        ConnectionEvent::PollFailed => ConnectionAction::Fail,
        ConnectionEvent::ShutdownSignal(requested) => if requested {
            ConnectionAction::Disconnect
        } else {
            ConnectionAction::Continue
        },
    }
}

/// Where the connection cycle of the MQTT service stands.
#[derive(Debug, Clone, Copy, PartialEq, Eq, Structural)]
pub enum SessionState {
    /// Connected to the broker, or connecting.
    Connected,
    /// Waiting to reconnect after a failed connection.
    Waiting,
    /// Shut down; nothing more happens.
    Stopped,
}

/// What the connection cycle hears of.
#[derive(Debug, Clone, Copy, PartialEq, Eq, Structural)]
pub enum SessionEvent {
    /// A shutdown was asked for.
    ShutdownRequested,
    /// The connection was closed on purpose.
    Closed,
    /// The connection failed.
    Failed,
    /// The pause before reconnecting has passed.
    DelayElapsed,
}

/// What the MQTT service does next.
#[derive(Debug, Clone, Copy, PartialEq, Eq, Structural)]
pub enum SessionAction {
    /// Connect to the broker and serve messages.
    Connect,
    /// Pause `RECONNECT_DELAY_SECS` seconds, unless a shutdown comes first.
    Pause,
    /// Stop the service.
    Stop,
    /// Keep doing what is being done.
    Continue,
}

/// The next state and action of the connection cycle: a shutdown stops it from any state;
/// a closed connection stops it; a failed one is retried after a pause.
pub open spec fn spec_next_session_step(state: SessionState, event: SessionEvent) -> (SessionState, SessionAction) {
    match (state, event) {
        (SessionState::Stopped, _) => (SessionState::Stopped, SessionAction::Continue),
        (_, SessionEvent::ShutdownRequested) => (SessionState::Stopped, SessionAction::Stop),
        (SessionState::Connected, SessionEvent::Closed) => (SessionState::Stopped, SessionAction::Stop),
        (SessionState::Connected, SessionEvent::Failed) => (SessionState::Waiting, SessionAction::Pause),
        (SessionState::Waiting, SessionEvent::DelayElapsed) => (SessionState::Connected, SessionAction::Connect),
        (s, _) => (s, SessionAction::Continue),
    }
}

/// Decides the next step of the connection cycle.
pub fn next_session_step(state: SessionState, event: SessionEvent) -> (r: (SessionState, SessionAction))
    ensures
        r == spec_next_session_step(state, event),
{
    match (state, event) {
        (SessionState::Stopped, _) => (SessionState::Stopped, SessionAction::Continue),
        (_, SessionEvent::ShutdownRequested) => (SessionState::Stopped, SessionAction::Stop),
        (SessionState::Connected, SessionEvent::Closed) => (SessionState::Stopped, SessionAction::Stop),
        (SessionState::Connected, SessionEvent::Failed) => (SessionState::Waiting, SessionAction::Pause),
        (SessionState::Waiting, SessionEvent::DelayElapsed) => (SessionState::Connected, SessionAction::Connect),
        (s, _) => (s, SessionAction::Continue),
    }
}

/// Once stopped, the cycle stays stopped and does nothing, whatever it hears.
pub proof fn lemma_stopped_stays_stopped(events: Seq<SessionEvent>)
    ensures
        spec_run_session(SessionState::Stopped, events) == SessionState::Stopped,
    decreases events.len(),
{
    if events.len() > 0 {
        lemma_stopped_stays_stopped(events.drop_first());
    }
}

/// A shutdown request stops the cycle from any state, and it stays stopped after.
pub proof fn lemma_shutdown_stops(state: SessionState, events: Seq<SessionEvent>)
    ensures
        spec_run_session(state, seq![SessionEvent::ShutdownRequested] + events) == SessionState::Stopped,
{
    let all = seq![SessionEvent::ShutdownRequested] + events;
    assert(all.drop_first() =~= events);
    lemma_stopped_stays_stopped(events);
}

/// The state after a sequence of events.
pub open spec fn spec_run_session(state: SessionState, events: Seq<SessionEvent>) -> SessionState
    decreases events.len(),
{
    if events.len() == 0 {
        state
    } else {
        spec_run_session(spec_next_session_step(state, events[0]).0, events.drop_first())
    }
}

} // verus!
