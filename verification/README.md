# zmqtt2prom

Bridge between Zigbee2MQTT and Prometheus. It subscribes to the device list that
Zigbee2MQTT publishes, keeps the eligible devices (supported, not disabled,
interviewed), subscribes to their topics, and turns each device report into gauge
readings labelled `friendly_name`, `manufacturer`, `ieee_address`,
`network_address`, `model_id`, `type`, `property` and `unit`, served at `/metrics`.

## Layout

- `src/` is the library, verified with Verus: settings parsing, the JSON model of
  reports, flattening of nested reports and of device capabilities, device
  eligibility and the device registry, the readings of a report, topic routing
  and the reconnect cycle. Each public function states its result in its contract;
  proof functions state the laws that relate them.
- `app/` is the program around it: command-line reading (clap), JSON parsing
  (serde, for the device list), the MQTT connection (rumqttc), the gauges and their text format
  (prometheus), and the HTTP endpoint (axum).
- `tests/` runs the library on concrete values.

## Data model

- The device registry is a list of device entries, each found by its device's
  friendly name; its view is a map from name to entry, and inserting an entry
  replaces the one of the same name. Verus proves little of std's `HashMap` with
  `String` keys, and a list with a map view gives exact contracts for `insert`,
  `get` and `rebuild`.
- A device report is read from its bytes by serde_json, behind one trusted
  function, and converted into the library's own JSON model (`JsonValue`), with
  object members in the order serde_json hands them over (sorted by key, as built
  here); the flattened report (`FlatPayload`) is a list of `(key, value)` pairs,
  the values borrowed from the report, viewed as a map. `serde_json::Value` and
  its `Map` are opaque to Verus, so the library keeps its own model.
- Client identifiers use random bytes from the operating system (`getrandom`),
  turned into a version-4 UUID by the `uuid` crate; when the random source fails,
  the connection attempt fails and is retried.
