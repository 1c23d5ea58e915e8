//! Zigbee devices, their monitored exposes, and the registry of discovered devices.
use vstd::prelude::*;

use crate::expose::{flat_views, flatten_exposes, spec_flatten_exposes, Expose, FlatExposeView, FlattenedExpose};
use crate::keyed::{keyed_map, last_with_key, lemma_keyed_map_push, lemma_keyed_map_update, lemma_last_with_key_prefix};
use crate::mqtt::{
    lemma_device_topic_routes_to_device, spec_device_topic, spec_route_topic, RouteView, BRIDGE_PREFIX,
    ZIGBEE2MQTT_PREFIX,
};
use crate::text::{is_prefix_of, str_equals};

verus! {

/// Device definition containing model info and exposes.
#[derive(Debug)]
pub struct DeviceDefinition {
    pub description: Option<String>,
    pub model: Option<String>,
    pub vendor: Option<String>,
    pub exposes: Option<Vec<Expose>>,
}

/// A Zigbee device discovered from Zigbee2MQTT.
#[derive(Debug)]
pub struct Device {
    pub disabled: Option<bool>,
    pub friendly_name: String,
    pub ieee_address: String,
    pub interview_completed: Option<bool>,
    pub manufacturer: Option<String>,
    pub model_id: Option<String>,
    pub network_address: Option<u32>,
    pub supported: Option<bool>,
    pub device_type: Option<String>,
    pub definition: Option<DeviceDefinition>,
}

impl Device {
    /// Supported, not disabled, and interviewed; a flag that is absent counts as `false`.
    pub open spec fn spec_is_eligible(self) -> bool {
        self.supported.unwrap_or(false) && !self.disabled.unwrap_or(false)
            && self.interview_completed.unwrap_or(false)
    }

    /// The monitored exposes of the device: those of its definition, flattened.
    pub open spec fn spec_flattened_exposes(self) -> Seq<FlatExposeView> {
        match self.definition {
            Some(d) => match d.exposes {
                Some(exposes) => spec_flatten_exposes(exposes@),
                None => Seq::empty(),
            },
            None => Seq::empty(),
        }
    }

    /// Returns true if this device is eligible for monitoring.
    /// A device must be supported, not disabled, and have completed the interview.
    pub fn is_eligible(&self) -> (r: bool)
        ensures
            r == self.spec_is_eligible(),
    {
        let supported = self.supported.unwrap_or(false);
        let disabled = self.disabled.unwrap_or(false);
        let interview_completed = self.interview_completed.unwrap_or(false);
        supported && !disabled && interview_completed
    }

    /// Returns the MQTT topic for this device.
    pub fn mqtt_topic(&self) -> (r: String)
        ensures
            r@ == spec_device_topic(self.friendly_name@),
    {
        let mut topic = ZIGBEE2MQTT_PREFIX.to_owned();
        topic.append(self.friendly_name.as_str());
        topic
    }

    /// Returns the flattened exposes for this device.
    pub fn flattened_exposes(&self) -> (r: Vec<FlattenedExpose>)
        ensures
            flat_views(r@) == self.spec_flattened_exposes(),
    {
        match &self.definition {
            Some(d) => match &d.exposes {
                Some(exposes) => flatten_exposes(exposes.as_slice()),
                None => {
                    let r = Vec::new();
                    assert(flat_views(r@) =~= Seq::<FlatExposeView>::empty());
                    r
                },
            },
            None => {
                let r = Vec::new();
                assert(flat_views(r@) =~= Seq::<FlatExposeView>::empty());
                r
            },
        }
    }
}

/// Information about a device including its flattened exposes.
#[derive(Debug)]
pub struct DeviceInfo {
    pub device: Device,
    pub exposes: Vec<FlattenedExpose>,
}

/// What a device entry holds: the device and its monitored exposes.
pub struct DeviceInfoView {
    pub device: Device,
    pub exposes: Seq<FlatExposeView>,
}

impl View for DeviceInfo {
    type V = DeviceInfoView;

    open spec fn view(&self) -> DeviceInfoView {
        DeviceInfoView { device: self.device, exposes: flat_views(self.exposes@) }
    }
}

/// The entry of a device with its exposes as its definition gives them, flattened.
pub open spec fn info_view_of(device: Device) -> DeviceInfoView {
    DeviceInfoView { device, exposes: device.spec_flattened_exposes() }
}

impl DeviceInfo {
    /// The device with its flattened exposes.
    pub fn new(device: Device) -> (r: DeviceInfo)
        ensures
            r@ == info_view_of(device),
    {
        let exposes = device.flattened_exposes();
        DeviceInfo { device, exposes }
    }
}

/// The key of a registry entry: the friendly name of its device.
pub open spec fn info_key() -> spec_fn(DeviceInfo) -> Seq<char> {
    |info: DeviceInfo| info.device.friendly_name@
}

/// The registry that discovery builds from a device list: each eligible device, with its
/// flattened exposes, under its friendly name, a later device replacing an earlier one of
/// the same name.
pub open spec fn spec_discovered(devices: Seq<Device>) -> Map<Seq<char>, DeviceInfoView>
    decreases devices.len(),
{
    if devices.len() == 0 {
        Map::empty()
    } else if devices.last().spec_is_eligible() {
        spec_discovered(devices.drop_last()).insert(
            devices.last().friendly_name@,
            info_view_of(devices.last()),
        )
    } else {
        spec_discovered(devices.drop_last())
    }
}

/// The topics that discovery subscribes to: those of the eligible devices, in list order.
pub open spec fn spec_discovery_topics(devices: Seq<Device>) -> Seq<Seq<char>>
    decreases devices.len(),
{
    if devices.len() == 0 {
        Seq::empty()
    } else if devices.last().spec_is_eligible() {
        spec_discovery_topics(devices.drop_last()).push(spec_device_topic(devices.last().friendly_name@))
    } else {
        spec_discovery_topics(devices.drop_last())
    }
}

/// The discovered devices, each with its flattened exposes, found by friendly name.
pub struct DeviceRegistry {
    entries: Vec<DeviceInfo>,
}

impl View for DeviceRegistry {
    type V = Map<Seq<char>, DeviceInfoView>;

    closed spec fn view(&self) -> Map<Seq<char>, DeviceInfoView> {
        let m = keyed_map(self.entries@, info_key());
        Map::new(|k: Seq<char>| m.contains_key(k), |k: Seq<char>| m[k]@)
    }
}

impl DeviceRegistry {

    /// An empty registry.
    pub fn new() -> (r: DeviceRegistry)
        ensures
            r@ == Map::<Seq<char>, DeviceInfoView>::empty(),
    {
        let r = DeviceRegistry { entries: Vec::new() };
        assert(r@ =~= Map::<Seq<char>, DeviceInfoView>::empty());
        r
    }

    /// Registers a device under its friendly name, replacing a device registered under it.
    pub fn insert(&mut self, info: DeviceInfo)
        ensures
            final(self)@ == old(self)@.insert(info.device.friendly_name@, info@),
    {
        let n = self.entries.len();
        let mut i = n;
        while i > 0
            invariant
                n == self.entries@.len(),
                self.entries@ == old(self).entries@,
                i <= n,
                forall|t: int| i <= t < n ==> (#[trigger] self.entries@[t]).device.friendly_name@
                    != info.device.friendly_name@,
            decreases i,
        {
            if self.entries[i - 1].device.friendly_name == info.device.friendly_name {
                let ghost before = self.entries@;
                let ghost new_entry = info;
                self.entries.set(i - 1, info);
                proof {
                    assert forall|t: int| i - 1 < t < before.len() implies (info_key())(
                        #[trigger] before[t],
                    ) != (info_key())(new_entry) by {
                        assert(before[t].device.friendly_name@ != new_entry.device.friendly_name@);
                    }
                    lemma_keyed_map_update(before, info_key(), i - 1, new_entry);
                    assert(self@ =~= old(self)@.insert(new_entry.device.friendly_name@, new_entry@));
                }
                return;
            }
            i = i - 1;
        }
        let ghost before = self.entries@;
        let ghost new_entry = info;
        self.entries.push(info);
        proof {
            lemma_keyed_map_push(before, info_key(), new_entry);
            assert(self@ =~= old(self)@.insert(new_entry.device.friendly_name@, new_entry@));
        }
    }

    /// The device registered under `friendly_name`, with its flattened exposes.
    pub fn get(&self, friendly_name: &str) -> (r: Option<&DeviceInfo>)
        ensures
            r is Some == self@.contains_key(friendly_name@),
            r matches Some(info) ==> info@ == self@[friendly_name@],
    {
        let n = self.entries.len();
        let mut i = n;
        assert(self.entries@.subrange(0, n as int) =~= self.entries@);
        while i > 0
            invariant
                n == self.entries@.len(),
                i <= n,
                last_with_key(self.entries@, info_key(), friendly_name@) == last_with_key(
                    self.entries@.subrange(0, i as int),
                    info_key(),
                    friendly_name@,
                ),
            decreases i,
        {
            if str_equals(self.entries[i - 1].device.friendly_name.as_str(), friendly_name) {
                return Some(&self.entries[i - 1]);
            }
            proof {
                lemma_last_with_key_prefix(self.entries@, info_key(), i as int, friendly_name@);
            }
            i = i - 1;
        }
        assert(self.entries@.subrange(0, 0) =~= Seq::<DeviceInfo>::empty());
        None
    }

    /// Replaces the registered devices with the eligible devices of a device list, each under
    /// its friendly name (a later device of a name replacing an earlier one). Returns the
    /// topics to subscribe to, one for each eligible device, in list order.
    pub fn rebuild(&mut self, devices: Vec<Device>) -> (topics: Vec<String>)
        ensures
            final(self)@ == spec_discovered(devices@),
            topics@.map_values(|t: String| t@) == spec_discovery_topics(devices@),
    {
        let ghost all = devices@;
        let total = devices.len();
        let mut rest = devices;
        self.entries = Vec::new();
        let mut topics: Vec<String> = Vec::new();
        proof {
            assert(self@ =~= Map::<Seq<char>, DeviceInfoView>::empty());
            assert(all.subrange(0, 0) =~= Seq::<Device>::empty());
            assert(rest@ =~= all.subrange(0, 0 + total as int));
            assert(topics@.map_values(|t: String| t@) =~= Seq::<Seq<char>>::empty());
        }
        let mut k: usize = 0;
        while k < total
            invariant
                total == all.len(),
                k <= total,
                rest@ =~= all.subrange(k as int, total as int),
                self@ == spec_discovered(all.subrange(0, k as int)),
                topics@.map_values(|t: String| t@) == spec_discovery_topics(all.subrange(0, k as int)),
            decreases total - k,
        {
            let device = rest.remove(0);
            let ghost processed = all.subrange(0, k + 1);
            proof {
                assert(processed.drop_last() =~= all.subrange(0, k as int));
                assert(processed.last() == device);
            }
            if device.is_eligible() {
                let ghost before_topics = topics@;
                topics.push(device.mqtt_topic());
                assert(topics@.map_values(|t: String| t@) =~= before_topics.map_values(|t: String| t@).push(
                    spec_device_topic(device.friendly_name@),
                ));
                self.insert(DeviceInfo::new(device));
            }
            k = k + 1;
        }
        proof {
            assert(all.subrange(0, total as int) =~= all);
        }
        topics
    }
}

/// An eligible device of a device list is registered under its name, unless a later eligible
/// device has the same name.
pub proof fn lemma_discovered_device_is_registered(devices: Seq<Device>, i: int)
    requires
        0 <= i < devices.len(),
        devices[i].spec_is_eligible(),
        forall|j: int|
            i < j < devices.len() && (#[trigger] devices[j]).spec_is_eligible() ==> devices[j].friendly_name@
                != devices[i].friendly_name@,
    ensures
        spec_discovered(devices).contains_key(devices[i].friendly_name@),
        spec_discovered(devices)[devices[i].friendly_name@] == info_view_of(devices[i]),
    decreases devices.len(),
{
    if i < devices.len() - 1 {
        assert(devices.drop_last()[i] == devices[i]);
        assert forall|j: int|
            i < j < devices.drop_last().len() && (#[trigger] devices.drop_last()[j]).spec_is_eligible()
                implies devices.drop_last()[j].friendly_name@ != devices.drop_last()[i].friendly_name@ by {
            assert(devices.drop_last()[j] == devices[j]);
        }
        lemma_discovered_device_is_registered(devices.drop_last(), i);
        assert(devices.last() == devices[devices.len() - 1]);
    }
}

/// Only eligible devices of a device list are registered, each under its own name.
pub proof fn lemma_registered_device_was_discovered(devices: Seq<Device>, name: Seq<char>)
    requires
        spec_discovered(devices).contains_key(name),
    ensures
        exists|j: int|
            0 <= j < devices.len() && (#[trigger] devices[j]).spec_is_eligible() && devices[j].friendly_name@ == name
                && spec_discovered(devices)[name] == info_view_of(devices[j]),
    decreases devices.len(),
{
    let last = devices.len() - 1;
    if devices.last().spec_is_eligible() && devices.last().friendly_name@ == name {
        assert(devices[last] == devices.last());
    } else {
        lemma_registered_device_was_discovered(devices.drop_last(), name);
        let j = choose|j: int|
            0 <= j < devices.drop_last().len() && (#[trigger] devices.drop_last()[j]).spec_is_eligible()
                && devices.drop_last()[j].friendly_name@ == name && spec_discovered(devices.drop_last())[name]
                == info_view_of(devices.drop_last()[j]);
        assert(devices[j] == devices.drop_last()[j]);
    }
}

/// The name of every eligible device of a device list is registered.
pub proof fn lemma_eligible_name_is_registered(devices: Seq<Device>, i: int)
    requires
        0 <= i < devices.len(),
        devices[i].spec_is_eligible(),
    ensures
        spec_discovered(devices).contains_key(devices[i].friendly_name@),
    decreases devices.len(),
{
    if i < devices.len() - 1 {
        assert(devices.drop_last()[i] == devices[i]);
        lemma_eligible_name_is_registered(devices.drop_last(), i);
    } else {
        assert(devices.last() == devices[i]);
    }
}

/// Each topic that discovery subscribes to is the topic of an eligible device of the list.
pub proof fn lemma_discovery_topic_of_eligible_device(devices: Seq<Device>, t: int)
    requires
        0 <= t < spec_discovery_topics(devices).len(),
    ensures
        exists|i: int|
            0 <= i < devices.len() && (#[trigger] devices[i]).spec_is_eligible()
                && spec_discovery_topics(devices)[t] == spec_device_topic(devices[i].friendly_name@),
    decreases devices.len(),
{
    let rest = devices.drop_last();
    let last = devices.len() - 1;
    if devices.last().spec_is_eligible() && t == spec_discovery_topics(rest).len() {
        assert(devices[last] == devices.last());
    } else {
        lemma_discovery_topic_of_eligible_device(rest, t);
        let i = choose|i: int|
            0 <= i < rest.len() && (#[trigger] rest[i]).spec_is_eligible()
                && spec_discovery_topics(rest)[t] == spec_device_topic(rest[i].friendly_name@);
        assert(devices[i] == rest[i]);
    }
}

/// After discovery, a message on any topic subscribed to reaches a registered device:
/// the topic routes to the device state of a name under which a device is registered,
/// unless that name makes the topic a bridge sub-topic.
pub proof fn lemma_subscribed_topics_reach_registered_devices(devices: Seq<Device>, t: int)
    requires
        0 <= t < spec_discovery_topics(devices).len(),
    ensures
        exists|name: Seq<char>|
            #![trigger spec_device_topic(name)]
            spec_discovery_topics(devices)[t] == spec_device_topic(name) && spec_discovered(devices).contains_key(name)
                && (!is_prefix_of(BRIDGE_PREFIX@, name) ==> spec_route_topic(spec_discovery_topics(devices)[t])
                == RouteView::DeviceState(name)),
{
    lemma_discovery_topic_of_eligible_device(devices, t);
    let i = choose|i: int|
        0 <= i < devices.len() && (#[trigger] devices[i]).spec_is_eligible()
            && spec_discovery_topics(devices)[t] == spec_device_topic(devices[i].friendly_name@);
    let name = devices[i].friendly_name@;
    lemma_eligible_name_is_registered(devices, i);
    if !is_prefix_of(BRIDGE_PREFIX@, name) {
        lemma_device_topic_routes_to_device(name);
    }
    assert(spec_discovery_topics(devices)[t] == spec_device_topic(name));
}


/// A device is monitored exactly when it is supported, its interview is completed, and it is
/// not disabled; an absent "supported" or "interview completed" flag leaves it unmonitored,
/// an absent "disabled" flag does not.
pub proof fn lemma_eligible_means_supported_interviewed_enabled(device: Device)
    ensures
        device.spec_is_eligible() <==> (device.supported == Some(true) && device.interview_completed
            == Some(true) && device.disabled != Some(true)),
{
}

} // verus!
