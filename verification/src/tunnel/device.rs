//! What devices report of themselves.
use vstd::prelude::*;
use vstd::utf8::encode_utf8;

use crate::json::{self, Json};
use crate::registry;
use crate::text;
use crate::tunnel::control::{elapsed, elapsed_since};
use crate::tunnel::{AgentEntry, DeviceSnapshot, DeviceStatus};

verus! {

/// How long a report is kept before the next one is taken: ten seconds, in nanoseconds.
pub const STATUS_MIN_INTERVAL: u64 = 10_000_000_000;

/// How long an agent waits before it sends an unchanged report again: a minute, in nanoseconds.
pub const STATUS_REFRESH_INTERVAL: u64 = 60_000_000_000;

/// Why a report is not taken.
#[derive(Clone, Copy, Debug, PartialEq, Eq, Structural)]
pub enum StatusError {
    /// The signal is not from 0 to 4.
    Signal,
    /// The battery is not from 0 to 100.
    Battery,
    /// The temperature is not from -100 to 150 degrees.
    Temperature,
    /// The protocol version is not 2.
    Proto,
    /// The transport is neither cellular nor Wi-Fi.
    Transport,
    /// A text is too long.
    TooLong,
}

/// Whether the bits of a single-precision number are one from -100 to 150. Positive numbers are
/// in the order of their bits, and negative ones in the opposite order behind the sign bit;
/// infinities and what is no number lie beyond both bounds.
pub open spec fn temperature_in_range(bits: u32) -> bool {
    bits <= 0x4316_0000 || 0x8000_0000 <= bits <= 0xc2c8_0000
}

/// How many bytes a text has.
pub open spec fn byte_len(s: String) -> nat {
    encode_utf8(s@).len()
}

/// What is wrong with a report, looked for in this order.
pub open spec fn status_fault(status: DeviceStatus) -> Option<StatusError> {
    if status.signal > 4 {
        Some(StatusError::Signal)
    } else if status.battery > 100 {
        Some(StatusError::Battery)
    } else if !temperature_in_range(status.temp_c_bits) {
        Some(StatusError::Temperature)
    } else if status.proto != 2 {
        Some(StatusError::Proto)
    } else if status.transport@ != "cellular"@ && status.transport@ != "wifi"@ {
        Some(StatusError::Transport)
    } else if byte_len(status.carrier) > 128 || byte_len(status.net) > 32 || byte_len(
        status.health,
    ) > 32 || byte_len(status.app) > 64 {
        Some(StatusError::TooLong)
    } else {
        None
    }
}

/// How many bytes a text has.
fn count_bytes(s: &String) -> (res: usize)
    ensures
        res == byte_len(*s),
{
    s.as_str().as_bytes().len()
}

/// What is wrong with a report.
pub fn check_device_status(status: &DeviceStatus) -> (res: Option<StatusError>)
    ensures
        res == status_fault(*status),
{
    let bits: u32 = status.temp_c_bits;
    if status.signal > 4 {
        Some(StatusError::Signal)
    } else if status.battery > 100 {
        Some(StatusError::Battery)
    } else if !(bits <= 0x4316_0000 || (0x8000_0000 <= bits && bits <= 0xc2c8_0000)) {
        Some(StatusError::Temperature)
    } else if status.proto != 2 {
        Some(StatusError::Proto)
    } else if !text::same_text(status.transport.as_str(), "cellular") && !text::same_text(
        status.transport.as_str(),
        "wifi",
    ) {
        Some(StatusError::Transport)
    } else if count_bytes(&status.carrier) > 128 || count_bytes(&status.net) > 32 || count_bytes(
        &status.health,
    ) > 32 || count_bytes(&status.app) > 64 {
        Some(StatusError::TooLong)
    } else {
        None
    }
}

/// What becomes of a report: it is refused where something is wrong with it, passed over where
/// the last one is not old enough, and kept elsewhere.
pub open spec fn status_recorded(
    before: Option<DeviceSnapshot>,
    after: Option<DeviceSnapshot>,
    status: DeviceStatus,
    now: u64,
    unix_secs: u64,
    res: Result<bool, StatusError>,
) -> bool {
    match status_fault(status) {
        Some(error) => res == Err::<bool, StatusError>(error) && after == before,
        None => if before matches Some(snapshot) && elapsed(snapshot.received, now)
            < STATUS_MIN_INTERVAL {
            res == Ok::<bool, StatusError>(false) && after == before
        } else {
            res == Ok::<bool, StatusError>(true) && after == Some(
                DeviceSnapshot { device: status, received_at: unix_secs, received: now },
            )
        },
    }
}

/// Takes a report: says whether it is kept.
pub fn record_device_status(
    device: &mut Option<DeviceSnapshot>,
    status: DeviceStatus,
    now: u64,
    unix_secs: u64,
) -> (res: Result<bool, StatusError>)
    ensures
        status_recorded(*old(device), *final(device), status, now, unix_secs, res),
{
    if let Some(error) = check_device_status(&status) {
        return Err(error);
    }
    let recent = match device {
        Some(snapshot) => elapsed_since(snapshot.received, now) < STATUS_MIN_INTERVAL,
        None => false,
    };
    if recent {
        return Ok(false);
    }
    *device = Some(DeviceSnapshot { device: status, received_at: unix_secs, received: now });
    Ok(true)
}

/// What becomes of an agent's report. That of a connection which another has taken the place of
/// is dropped.
pub open spec fn agent_status_recorded(
    before: Map<Seq<char>, AgentEntry>,
    after: Map<Seq<char>, AgentEntry>,
    name: Seq<char>,
    control: u64,
    status: DeviceStatus,
    now: u64,
    unix_secs: u64,
    res: Option<Result<bool, StatusError>>,
) -> bool {
    if before.contains_key(name) && before[name].control == control {
        &&& after.contains_key(name)
        &&& after == before.insert(name, after[name])
        &&& after[name] == (AgentEntry { device: after[name].device, ..before[name] })
        &&& res matches Some(outcome) && status_recorded(
            before[name].device,
            after[name].device,
            status,
            now,
            unix_secs,
            outcome,
        )
    } else {
        res is None && after == before
    }
}

/// Takes an agent's report.
pub fn record_agent_status(
    agents: &mut dashmap::DashMap<String, AgentEntry>,
    name: &str,
    control: u64,
    status: DeviceStatus,
    now: u64,
    unix_secs: u64,
) -> (res: Option<Result<bool, StatusError>>)
    ensures
        agent_status_recorded(
            registry::agents(*old(agents)),
            registry::agents(*final(agents)),
            name@,
            control,
            status,
            now,
            unix_secs,
            res,
        ),
{
    let ghost before = registry::agents(*agents);
    match registry::agents_remove(agents, name) {
        Some(mut entry) => {
            let mut res: Option<Result<bool, StatusError>> = None;
            if entry.control == control {
                res = Some(record_device_status(&mut entry.device, status, now, unix_secs));
            }
            registry::agents_insert(agents, text::copy_text(name), entry);
            proof {
                let after = registry::agents(*agents);
                assert(after =~= before.insert(name@, after[name@]));
                assert(before.insert(name@, before[name@]) =~= before);
            }
            res
        },
        None => {
            assert(registry::agents(*agents) =~= before);
            None
        },
    }
}

/// A report is never replaced before it is ten seconds old.
pub proof fn law_reports_are_rate_limited(
    before: Option<DeviceSnapshot>,
    after: Option<DeviceSnapshot>,
    status: DeviceStatus,
    now: u64,
    unix_secs: u64,
    res: Result<bool, StatusError>,
)
    requires
        status_recorded(before, after, status, now, unix_secs, res),
        before matches Some(snapshot) && now < snapshot.received + STATUS_MIN_INTERVAL,
    ensures
        after == before,
        res != Ok::<bool, StatusError>(true),
{
}

/// What an agent that is no Android device reports, with a version and a temperature.
pub open spec fn fixture_json(app: Seq<char>, temp_c: Json) -> Json {
    Json::Object(
        Map::<Seq<char>, Json>::empty().insert("carrier"@, Json::Text("PC fixture"@)).insert(
            "net"@,
            Json::Text("unknown"@),
        ).insert("signal"@, Json::Number(4)).insert("battery"@, Json::Number(100)).insert(
            "temp_c"@,
            temp_c,
        ).insert("charging"@, Json::Bool(true)).insert("health"@, Json::Text("good"@)).insert(
            "app"@,
            Json::Text(app),
        ).insert("proto"@, Json::Number(2)).insert("assistant"@, Json::Bool(false)).insert(
            "transport"@,
            Json::Text("wifi"@),
        ),
    )
}

/// What an agent that is no Android device reports, with a version and a temperature.
pub fn device_status_json(app: &str, temp_c: serde_json::Value) -> (res: String)
    ensures
        res@ == json::rendered(fixture_json(app@, json::model(temp_c))),
{
    let mut fields = json::no_fields();
    json::set_field(&mut fields, "carrier", json::text("PC fixture"));
    json::set_field(&mut fields, "net", json::text("unknown"));
    json::set_field(&mut fields, "signal", json::number(4));
    json::set_field(&mut fields, "battery", json::number(100));
    json::set_field(&mut fields, "temp_c", temp_c);
    json::set_field(&mut fields, "charging", json::boolean(true));
    json::set_field(&mut fields, "health", json::text("good"));
    json::set_field(&mut fields, "app", json::text(app));
    json::set_field(&mut fields, "proto", json::number(2));
    json::set_field(&mut fields, "assistant", json::boolean(false));
    json::set_field(&mut fields, "transport", json::text("wifi"));
    json::render(&json::object(fields))
}

/// A report is taken exactly if its signal is at most 4, its battery at most 100, its temperature
/// in range, its version 2, its transport cellular or wifi, and its texts not longer than 128, 32,
/// 32 and 64 bytes.
pub proof fn law_which_reports_are_taken(status: DeviceStatus)
    ensures
        status_fault(status) is None <==> {
            &&& status.signal <= 4
            &&& status.battery <= 100
            &&& temperature_in_range(status.temp_c_bits)
            &&& status.proto == 2
            &&& status.transport@ == "cellular"@ || status.transport@ == "wifi"@
            &&& encode_utf8(status.carrier@).len() <= 128
            &&& encode_utf8(status.net@).len() <= 32
            &&& encode_utf8(status.health@).len() <= 32
            &&& encode_utf8(status.app@).len() <= 64
        },
        status.signal > 4 ==> status_fault(status) == Some(StatusError::Signal),
        status.signal <= 4 && status.battery > 100 ==> status_fault(status) == Some(
            StatusError::Battery,
        ),
{
}

/// The temperatures that are taken are those from -100 to 150 degrees, as single-precision
/// numbers are laid out: from zero up to 150, and from zero down to -100.
pub proof fn law_which_temperatures_are_taken(bits: u32)
    ensures
        bits < 0x8000_0000 ==> (temperature_in_range(bits) <==> bits <= 0x4316_0000),
        bits >= 0x8000_0000 ==> (temperature_in_range(bits) <==> bits - 0x8000_0000 <= 0x42c8_0000),
{
}

/// A report that is taken is what is known of the device from then on, with the time; the next one
/// is taken ten seconds later at the earliest. A report that is not taken changes nothing.
pub proof fn law_report_is_recorded(
    before: Option<DeviceSnapshot>,
    after: Option<DeviceSnapshot>,
    status: DeviceStatus,
    now: u64,
    unix_secs: u64,
    res: Result<bool, StatusError>,
)
    requires
        status_recorded(before, after, status, now, unix_secs, res),
    ensures
        res == Ok::<bool, StatusError>(true) <==> status_fault(status) is None && (before is None
            || now - before->0.received >= 10_000_000_000),
        res == Ok::<bool, StatusError>(true) ==> (after matches Some(snapshot) && snapshot.device
            == status && snapshot.received_at == unix_secs && snapshot.received == now),
        res != Ok::<bool, StatusError>(true) ==> after == before,
        res is Err <==> status_fault(status) is Some,
{
}

/// A report is recorded for the agent whose connection brought it, and for no other; one of a
/// connection that the agent has no more is dropped.
pub proof fn law_report_is_for_its_agent(
    before: Map<Seq<char>, AgentEntry>,
    after: Map<Seq<char>, AgentEntry>,
    name: Seq<char>,
    control: u64,
    status: DeviceStatus,
    now: u64,
    unix_secs: u64,
    res: Option<Result<bool, StatusError>>,
    other: Seq<char>,
)
    requires
        agent_status_recorded(before, after, name, control, status, now, unix_secs, res),
    ensures
        res is Some <==> before.contains_key(name) && before[name].control == control,
        res is None ==> after == before,
        other != name ==> (after.contains_key(other) <==> before.contains_key(other))
            && after[other] == before[other],
        res matches Some(Ok(true)) ==> (after[name].device matches Some(snapshot)
            && snapshot.device == status && snapshot.received_at == unix_secs),
        res is Some ==> after[name].addr == before[name].addr && after[name].usage
            == before[name].usage && after[name].resetting == before[name].resetting,
{
}

/// What an agent on a computer reports has every field of a report, with the name of the program
/// and the temperature as given, and is one that is taken.
pub proof fn law_fixture_fields(app: Seq<char>, temp_c: Json)
    ensures
        ({
            let shown = fixture_json(app, temp_c);
            &&& json::field(shown, "carrier"@) == Some(Json::Text("PC fixture"@))
            &&& json::field(shown, "net"@) == Some(Json::Text("unknown"@))
            &&& json::field(shown, "signal"@) == Some(Json::Number(4))
            &&& json::field(shown, "battery"@) == Some(Json::Number(100))
            &&& json::field(shown, "temp_c"@) == Some(temp_c)
            &&& json::field(shown, "charging"@) == Some(Json::Bool(true))
            &&& json::field(shown, "health"@) == Some(Json::Text("good"@))
            &&& json::field(shown, "app"@) == Some(Json::Text(app))
            &&& json::field(shown, "proto"@) == Some(Json::Number(2))
            &&& json::field(shown, "assistant"@) == Some(Json::Bool(false))
            &&& json::field(shown, "transport"@) == Some(Json::Text("wifi"@))
        }),
{
    reveal_strlit("carrier");
    reveal_strlit("net");
    reveal_strlit("signal");
    reveal_strlit("battery");
    reveal_strlit("temp_c");
    reveal_strlit("charging");
    reveal_strlit("health");
    reveal_strlit("app");
    reveal_strlit("proto");
    reveal_strlit("assistant");
    reveal_strlit("transport");
    assert("carrier"@.len() == 7);
    assert("net"@.len() == 3);
    assert("signal"@.len() == 6);
    assert("battery"@.len() == 7);
    assert("temp_c"@.len() == 6);
    assert("charging"@.len() == 8);
    assert("health"@.len() == 6);
    assert("app"@.len() == 3);
    assert("proto"@.len() == 5);
    assert("assistant"@.len() == 9);
    assert("transport"@.len() == 9);
    assert("carrier"@[0] != "battery"@[0]);
    assert("net"@[0] != "app"@[0]);
    assert("signal"@[0] != "temp_c"@[0]);
    assert("signal"@[0] != "health"@[0]);
    assert("temp_c"@[0] != "health"@[0]);
    assert("assistant"@[0] != "transport"@[0]);
}

/// Of a report that is not taken the first fault is told, in this order: signal, battery,
/// temperature, version, transport, length.
pub proof fn law_first_fault_is_told(status: DeviceStatus)
    requires
        status.signal <= 4,
        status.battery <= 100,
    ensures
        ({
            let warm = temperature_in_range(status.temp_c_bits);
            let known = status.transport@ == "cellular"@ || status.transport@ == "wifi"@;
            &&& !warm ==> status_fault(status) == Some(StatusError::Temperature)
            &&& warm && status.proto != 2 ==> status_fault(status) == Some(StatusError::Proto)
            &&& warm && status.proto == 2 && !known ==> status_fault(status) == Some(
                StatusError::Transport,
            )
            &&& warm && status.proto == 2 && known && (encode_utf8(status.carrier@).len() > 128
                || encode_utf8(status.net@).len() > 32 || encode_utf8(status.health@).len() > 32
                || encode_utf8(status.app@).len() > 64) ==> status_fault(status) == Some(
                StatusError::TooLong,
            )
        }),
{
}

} // verus!
