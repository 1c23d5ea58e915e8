//! Which gauge readings a device report yields: the labels and value of each reading.
use vstd::prelude::*;

use crate::device::{Device, DeviceInfo, DeviceRegistry};
use crate::expose::{flat_views, ExposeType, FlatExposeView, FlattenedExpose};
use crate::json::{parse_json, parsed_json, JsonNumber, JsonValue};
use crate::payload::{flatten_payload, spec_flatten_payload};
use crate::text::{decimal_text, str_equals, u32_to_decimal};

verus! {

/// The property that never becomes a reading.
pub const SKIPPED_PROPERTY: &'static str = "power_on_behavior";

/// The value a gauge is set to: a JSON number (read as a floating-point number), or 1 or 0.
#[derive(Debug, Clone, Copy, PartialEq, Eq, Structural)]
pub enum GaugeValue {
    Number(JsonNumber),
    One,
    Zero,
}

impl GaugeValue {
    /// The value is a finite number.
    pub open spec fn is_finite(self) -> bool {
        match self {
            GaugeValue::Number(n) => n.is_finite(),
            _ => true,
        }
    }
}

/// One reading: the label values of the gauge, in the order of `metric_label_names`, and its value.
#[derive(Debug)]
pub struct GaugeSample {
    pub labels: Vec<String>,
    pub value: GaugeValue,
}

/// A reading, its labels as text.
pub struct SampleView {
    pub labels: Seq<Seq<char>>,
    pub value: GaugeValue,
}

impl View for GaugeSample {
    type V = SampleView;

    open spec fn view(&self) -> SampleView {
        SampleView { labels: self.labels@.map_values(|s: String| s@), value: self.value }
    }
}

/// The names of the gauge labels.
pub open spec fn spec_metric_label_names() -> Seq<Seq<char>> {
    seq![
        "friendly_name"@,
        "manufacturer"@,
        "ieee_address"@,
        "network_address"@,
        "model_id"@,
        "type"@,
        "property"@,
        "unit"@,
    ]
}

/// Labels used for the gauge.
pub fn metric_label_names() -> (r: Vec<&'static str>)
    ensures
        r@.map_values(|s: &str| s@) == spec_metric_label_names(),
{
    let r = vec![
        "friendly_name",
        "manufacturer",
        "ieee_address",
        "network_address",
        "model_id",
        "type",
        "property",
        "unit",
    ];
    assert(r@.map_values(|s: &str| s@) =~= spec_metric_label_names());
    r
}

/// The text of an optional string, empty when absent.
pub open spec fn text_or_empty(o: Option<String>) -> Seq<char> {
    match o {
        Some(s) => s@,
        None => Seq::empty(),
    }
}

/// What a reported value reads as on the gauge of an expose: a number for a numeric expose;
/// for a binary expose 1 when it matches `value_on`, else 0 when it matches `value_off`,
/// else the boolean it is; nothing otherwise.
pub open spec fn spec_convert_to_metric_value(value: JsonValue, expose: FlatExposeView) -> Option<GaugeValue> {
    match expose.expose_type {
        ExposeType::Numeric => match value {
            JsonValue::Number(n) => Some(GaugeValue::Number(n)),
            _ => None,
        },
        ExposeType::Binary => if expose.value_on matches Some(on) && on.spec_matches(value) {
            Some(GaugeValue::One)
        } else if expose.value_off matches Some(off) && off.spec_matches(value) {
            Some(GaugeValue::Zero)
        } else {
            match value {
                JsonValue::Bool(b) => Some(
                    if b {
                        GaugeValue::One
                    } else {
                        GaugeValue::Zero
                    },
                ),
                _ => None,
            }
        },
        _ => None,
    }
}

/// Convert a JSON value to a gauge value based on the expose type.
pub fn convert_to_metric_value(value: &JsonValue, expose: &FlattenedExpose) -> (r: Option<GaugeValue>)
    ensures
        r == spec_convert_to_metric_value(*value, expose@),
        (*value matches JsonValue::Number(n) ==> n.is_finite()) ==> (r matches Some(g) ==> g.is_finite()),
{
    match expose.expose_type {
        ExposeType::Numeric => match value {
            JsonValue::Number(n) => Some(GaugeValue::Number(*n)),
            _ => None,
        },
        ExposeType::Binary => {
            if let Some(on) = &expose.value_on {
                if on.matches(value) {
                    return Some(GaugeValue::One);
                }
            }
            if let Some(off) = &expose.value_off {
                if off.matches(value) {
                    return Some(GaugeValue::Zero);
                }
            }
            match value.as_bool() {
                Some(b) => Some(
                    if b {
                        GaugeValue::One
                    } else {
                        GaugeValue::Zero
                    },
                ),
                None => None,
            }
        },
        _ => None,
    }
}

/// The decimal text of an optional number, empty when absent.
pub open spec fn number_text_or_empty(o: Option<u32>) -> Seq<char> {
    match o {
        Some(n) => decimal_text(n as nat),
        None => Seq::empty(),
    }
}

/// The label values of the reading of an expose of a device that reports as `friendly_name`.
pub open spec fn spec_labels(friendly_name: Seq<char>, device: Device, expose: FlatExposeView) -> Seq<Seq<char>> {
    seq![
        friendly_name,
        text_or_empty(device.manufacturer),
        device.ieee_address@,
        number_text_or_empty(device.network_address),
        text_or_empty(device.model_id),
        text_or_empty(device.device_type),
        expose.property,
        text_or_empty(expose.unit),
    ]
}

/// The reading of one expose in a flattened report: none for the skipped property, a property
/// missing from the report, a null value, or a value that does not convert.
pub open spec fn spec_sample(
    friendly_name: Seq<char>,
    device: Device,
    expose: FlatExposeView,
    flat: Map<Seq<char>, JsonValue>,
) -> Option<SampleView> {
    if expose.property == SKIPPED_PROPERTY@ {
        None
    } else if !flat.contains_key(expose.property) {
        None
    } else if flat[expose.property] is Null {
        None
    } else {
        match spec_convert_to_metric_value(flat[expose.property], expose) {
            Some(v) => Some(SampleView { labels: spec_labels(friendly_name, device, expose), value: v }),
            None => None,
        }
    }
}

/// The readings of a list of exposes, in list order.
pub open spec fn spec_samples(
    friendly_name: Seq<char>,
    device: Device,
    exposes: Seq<FlatExposeView>,
    flat: Map<Seq<char>, JsonValue>,
) -> Seq<SampleView>
    decreases exposes.len(),
{
    if exposes.len() == 0 {
        Seq::empty()
    } else {
        let rest = spec_samples(friendly_name, device, exposes.drop_last(), flat);
        match spec_sample(friendly_name, device, exposes.last(), flat) {
            Some(s) => rest.push(s),
            None => rest,
        }
    }
}

/// The views of a list of readings.
pub open spec fn sample_views(v: Seq<GaugeSample>) -> Seq<SampleView> {
    v.map_values(|s: GaugeSample| s@)
}

fn number_or_empty(o: Option<u32>) -> (r: String)
    ensures
        r@ == number_text_or_empty(o),
{
    match o {
        Some(n) => u32_to_decimal(n),
        None => String::new(),
    }
}

fn owned_or_empty(o: &Option<String>) -> (r: String)
    ensures
        r@ == text_or_empty(*o),
{
    match o {
        Some(s) => s.clone(),
        None => String::new(),
    }
}

/// The readings that a report of a device yields, one for each of its monitored exposes
/// whose property the flattened report holds with a value that converts.
pub fn payload_samples(friendly_name: &str, info: &DeviceInfo, payload: &JsonValue) -> (r: Vec<GaugeSample>)
    ensures
        sample_views(r@) == spec_samples(friendly_name@, info.device, flat_views(info.exposes@), spec_flatten_payload(*payload)),
{
    let flat = flatten_payload(payload);
    let ghost flat_map = spec_flatten_payload(*payload);
    let ghost exposes = flat_views(info.exposes@);
    let mut samples: Vec<GaugeSample> = Vec::new();
    let n = info.exposes.len();
    let mut i: usize = 0;
    assert(exposes.subrange(0, 0) =~= Seq::<FlatExposeView>::empty());
    assert(sample_views(samples@) =~= Seq::<SampleView>::empty());
    while i < n
        invariant
            n == info.exposes@.len(),
            exposes == flat_views(info.exposes@),
            flat@ == flat_map,
            i <= n,
            sample_views(samples@) == spec_samples(friendly_name@, info.device, exposes.subrange(0, i as int), flat_map),
        decreases n - i,
    {
        let expose = &info.exposes[i];
        let ghost upto = exposes.subrange(0, i + 1);
        proof {
            assert(upto.drop_last() =~= exposes.subrange(0, i as int));
            assert(upto.last() == expose@);
        }
        if !str_equals(expose.property.as_str(), SKIPPED_PROPERTY) {
            if let Some(value) = flat.get(&expose.property) {
                if !value.is_null() {
                    if let Some(metric_value) = convert_to_metric_value(value, expose) {
                        let mut labels: Vec<String> = Vec::new();
                        labels.push(friendly_name.to_owned());
                        labels.push(owned_or_empty(&info.device.manufacturer));
                        labels.push(info.device.ieee_address.clone());
                        labels.push(number_or_empty(info.device.network_address));
                        labels.push(owned_or_empty(&info.device.model_id));
                        labels.push(owned_or_empty(&info.device.device_type));
                        labels.push(expose.property.clone());
                        labels.push(owned_or_empty(&expose.unit));
                        let ghost before = samples@;
                        let sample = GaugeSample { labels, value: metric_value };
                        assert(sample@.labels =~= spec_labels(friendly_name@, info.device, expose@));
                        samples.push(sample);
                        assert(sample_views(samples@) =~= sample_views(before).push(sample@));
                    }
                }
            }
        }
        i = i + 1;
    }
    assert(exposes.subrange(0, n as int) =~= exposes);
    samples
}

/// The readings of a report from the device registered as `friendly_name`: those of the
/// exposes registered with it; none when no device is registered under that name.
pub fn process_payload(registry: &DeviceRegistry, friendly_name: &str, payload: &JsonValue) -> (r: Vec<GaugeSample>)
    ensures
        sample_views(r@) == (if registry@.contains_key(friendly_name@) {
            let info = registry@[friendly_name@];
            spec_samples(friendly_name@, info.device, info.exposes, spec_flatten_payload(*payload))
        } else {
            Seq::empty()
        }),
{
    match registry.get(friendly_name) {
        Some(info) => payload_samples(friendly_name, info, payload),
        None => {
            let r = Vec::new();
            assert(sample_views(r@) =~= Seq::<SampleView>::empty());
            r
        },
    }
}

/// What a report from a device comes to.
pub enum ReportOutcome {
    /// No device is registered under the name the report came from.
    UnknownDevice,
    /// The report is not one valid JSON document.
    InvalidJson,
    /// The readings of the report.
    Samples(Vec<GaugeSample>),
}

/// The readings of a report, given as the bytes of its payload, from the device registered as
/// `friendly_name`: a device that is not registered is reported first, then bytes that do not
/// parse; otherwise the readings of the exposes registered with the device.
pub fn report_samples(registry: &DeviceRegistry, friendly_name: &str, payload: &[u8]) -> (r: ReportOutcome)
    ensures
        match r {
            ReportOutcome::UnknownDevice => !registry@.contains_key(friendly_name@),
            ReportOutcome::InvalidJson => registry@.contains_key(friendly_name@)
                && parsed_json(payload@) is None,
            ReportOutcome::Samples(samples) => {
                &&& registry@.contains_key(friendly_name@)
                &&& parsed_json(payload@) is Some
                &&& sample_views(samples@) == spec_samples(
                    friendly_name@,
                    registry@[friendly_name@].device,
                    registry@[friendly_name@].exposes,
                    spec_flatten_payload(parsed_json(payload@)->Some_0),
                )
            },
        },
{
    if registry.get(friendly_name).is_none() {
        return ReportOutcome::UnknownDevice;
    }
    match parse_json(payload) {
        Some(value) => ReportOutcome::Samples(process_payload(registry, friendly_name, &value)),
        None => ReportOutcome::InvalidJson,
    }
}

/// Every reading carries one label value for each label name, the reporting name first and
/// the expose's property seventh; the skipped property never yields a reading.
pub proof fn lemma_samples_are_labelled(
    friendly_name: Seq<char>,
    device: Device,
    exposes: Seq<FlatExposeView>,
    flat: Map<Seq<char>, JsonValue>,
)
    ensures
        forall|i: int|
            0 <= i < spec_samples(friendly_name, device, exposes, flat).len() ==> {
                let s = #[trigger] spec_samples(friendly_name, device, exposes, flat)[i];
                &&& s.labels.len() == spec_metric_label_names().len()
                &&& s.labels[0] == friendly_name
                &&& s.labels[6] != SKIPPED_PROPERTY@
                &&& exists|j: int| 0 <= j < exposes.len() && s.labels[6] == (#[trigger] exposes[j]).property
            },
    decreases exposes.len(),
{
    if exposes.len() > 0 {
        let rest = exposes.drop_last();
        lemma_samples_are_labelled(friendly_name, device, rest, flat);
        let all = spec_samples(friendly_name, device, exposes, flat);
        let before = spec_samples(friendly_name, device, rest, flat);
        assert forall|i: int| 0 <= i < all.len() implies {
            let s = #[trigger] all[i];
            &&& s.labels.len() == spec_metric_label_names().len()
            &&& s.labels[0] == friendly_name
            &&& s.labels[6] != SKIPPED_PROPERTY@
            &&& exists|j: int| 0 <= j < exposes.len() && s.labels[6] == (#[trigger] exposes[j]).property
        } by {
            if i < before.len() {
                assert(all[i] == before[i]);
                let j = choose|j: int| 0 <= j < rest.len() && before[i].labels[6] == (#[trigger] rest[j]).property;
                assert(rest[j] == exposes[j]);
            } else {
                assert(exposes.last() == exposes[exposes.len() - 1]);
            }
        }
    }
}


/// A numeric expose reads a JSON number as that number, and nothing else.
pub proof fn lemma_numeric_expose_reads_numbers(value: JsonValue, expose: FlatExposeView)
    requires
        expose.expose_type == ExposeType::Numeric,
    ensures
        value matches JsonValue::Number(n) ==> spec_convert_to_metric_value(value, expose) == Some(
            GaugeValue::Number(n),
        ),
        !(value is Number) ==> spec_convert_to_metric_value(value, expose) is None,
{
}

/// A binary expose reads 1 for a value that matches its "on" value, else 0 for a value that
/// matches its "off" value, whatever kind of value it is; only a value matching neither falls
/// back to a boolean's own truth, and any other value gives no reading.
pub proof fn lemma_binary_expose_reads_on_off(value: JsonValue, expose: FlatExposeView)
    requires
        expose.expose_type == ExposeType::Binary,
    ensures
        ({
            let on = expose.value_on matches Some(v) && v.spec_matches(value);
            let off = expose.value_off matches Some(v) && v.spec_matches(value);
            let r = spec_convert_to_metric_value(value, expose);
            &&& on ==> r == Some(GaugeValue::One)
            &&& !on && off ==> r == Some(GaugeValue::Zero)
            &&& !on && !off && value == JsonValue::Bool(true) ==> r == Some(GaugeValue::One)
            &&& !on && !off && value == JsonValue::Bool(false) ==> r == Some(GaugeValue::Zero)
            &&& !on && !off && !(value is Bool) ==> r is None
        }),
{
}

/// Exposes of the other kinds give no reading.
pub proof fn lemma_other_exposes_read_nothing(value: JsonValue, expose: FlatExposeView)
    requires
        expose.expose_type != ExposeType::Numeric,
        expose.expose_type != ExposeType::Binary,
    ensures
        spec_convert_to_metric_value(value, expose) is None,
{
}

/// The reading, if any, of one expose on its own: present under its property, not null,
/// converting, and not the skipped property; labelled with the reporting name, the device's
/// details and the expose's property and unit.
pub proof fn lemma_reading_of_one_expose(
    friendly_name: Seq<char>,
    device: Device,
    e: FlatExposeView,
    flat: Map<Seq<char>, JsonValue>,
)
    ensures
        spec_samples(friendly_name, device, seq![e], flat) == (if e.property != SKIPPED_PROPERTY@
            && flat.contains_key(e.property) && !(flat[e.property] is Null)
            && spec_convert_to_metric_value(flat[e.property], e) is Some {
            seq![
                SampleView {
                    labels: seq![
                        friendly_name,
                        text_or_empty(device.manufacturer),
                        device.ieee_address@,
                        number_text_or_empty(device.network_address),
                        text_or_empty(device.model_id),
                        text_or_empty(device.device_type),
                        e.property,
                        text_or_empty(e.unit),
                    ],
                    value: spec_convert_to_metric_value(flat[e.property], e)->Some_0,
                },
            ]
        } else {
            Seq::<SampleView>::empty()
        }),
{
    let one = seq![e];
    assert(one.drop_last() =~= Seq::<FlatExposeView>::empty());
    assert(one.last() == e);
    let empty = spec_samples(friendly_name, device, Seq::<FlatExposeView>::empty(), flat);
    assert(empty =~= Seq::<SampleView>::empty());
    match spec_sample(friendly_name, device, e, flat) {
        Some(s) => {
            assert(empty.push(s) =~= seq![s]);
            assert(s.labels =~= seq![
                friendly_name,
                text_or_empty(device.manufacturer),
                device.ieee_address@,
                number_text_or_empty(device.network_address),
                text_or_empty(device.model_id),
                text_or_empty(device.device_type),
                e.property,
                text_or_empty(e.unit),
            ]);
        },
        None => {},
    }
}

/// Readings go expose by expose: the readings of two lists of exposes one after the other are
/// those of the first list followed by those of the second, however many came before.
pub proof fn lemma_readings_of_joined_exposes(
    friendly_name: Seq<char>,
    device: Device,
    xs: Seq<FlatExposeView>,
    ys: Seq<FlatExposeView>,
    flat: Map<Seq<char>, JsonValue>,
)
    ensures
        spec_samples(friendly_name, device, xs + ys, flat) == spec_samples(friendly_name, device, xs, flat)
            + spec_samples(friendly_name, device, ys, flat),
    decreases ys.len(),
{
    if ys.len() == 0 {
        assert(xs + ys =~= xs);
        assert(spec_samples(friendly_name, device, ys, flat) =~= Seq::<SampleView>::empty());
        assert(spec_samples(friendly_name, device, xs, flat) + Seq::<SampleView>::empty() =~= spec_samples(
            friendly_name,
            device,
            xs,
            flat,
        ));
    } else {
        let zs = xs + ys;
        assert(zs.drop_last() =~= xs + ys.drop_last());
        assert(zs.last() == ys.last());
        lemma_readings_of_joined_exposes(friendly_name, device, xs, ys.drop_last(), flat);
        let a = spec_samples(friendly_name, device, xs, flat);
        let b = spec_samples(friendly_name, device, ys.drop_last(), flat);
        match spec_sample(friendly_name, device, ys.last(), flat) {
            Some(s) => {
                assert((a + b).push(s) =~= a + b.push(s));
            },
            None => {},
        }
    }
}

/// A further expose adds its own reading, when it has one, after all the readings before it.
pub proof fn lemma_each_present_expose_adds_its_reading(
    friendly_name: Seq<char>,
    device: Device,
    exposes: Seq<FlatExposeView>,
    e: FlatExposeView,
    flat: Map<Seq<char>, JsonValue>,
)
    ensures
        spec_samples(friendly_name, device, exposes.push(e), flat) == spec_samples(
            friendly_name,
            device,
            exposes,
            flat,
        ) + spec_samples(friendly_name, device, seq![e], flat),
{
    assert(exposes.push(e) =~= exposes + seq![e]);
    lemma_readings_of_joined_exposes(friendly_name, device, exposes, seq![e], flat);
}

} // verus!
