//! The listing of audio devices: names by direction and the warnings met on the way.
use vstd::prelude::*;

use crate::text::{decimal, push_decimal, same_text};

verus! {

/// The devices found in one listing and the problems met while listing them.
#[derive(Clone, Debug, PartialEq, Eq)]
pub struct DeviceReport {
    pub inputs: Vec<DeviceSummary>,
    pub outputs: Vec<DeviceSummary>,
    pub warnings: Vec<String>,
}

/// One listed device.
#[derive(Clone, Debug, PartialEq, Eq)]
pub struct DeviceSummary {
    /// Process-local index for the current device listing.
    pub index: usize,
    pub name: String,
}

/// Whether a device records or plays.
#[derive(Clone, Copy, Debug, PartialEq, Eq, Structural)]
pub enum DeviceDirection {
    Input,
    Output,
}

pub open spec fn direction_label(d: DeviceDirection) -> Seq<char> {
    match d {
        DeviceDirection::Input => "input"@,
        DeviceDirection::Output => "output"@,
    }
}

impl DeviceDirection {
    pub fn label(self) -> (s: &'static str)
        ensures
            s@ == direction_label(self),
    {
        match self {
            DeviceDirection::Input => "input",
            DeviceDirection::Output => "output",
        }
    }
}

/// The warning given for the ALSA backend, whose probing prints to stderr.
pub open spec fn alsa_warning() -> Seq<char> {
    "ALSA may print low-level probe diagnostics to stderr for unavailable built-in devices; CPAL does not expose those diagnostics as structured errors"@
}

/// The texts of a list of strings.
pub open spec fn texts(v: Seq<String>) -> Seq<Seq<char>> {
    v.map_values(|s: String| s@)
}

/// Warnings that a backend deserves before any device is listed.
pub open spec fn backend_warnings(host_name: Seq<char>) -> Seq<Seq<char>> {
    if host_name == "ALSA"@ {
        seq![alsa_warning()]
    } else {
        Seq::empty()
    }
}

/// The warnings about the backend named `host_name`.
pub fn backend_probe_warnings(host_name: &str) -> (w: Vec<String>)
    ensures
        texts(w@) == backend_warnings(host_name@),
{
    let mut w: Vec<String> = Vec::new();
    if same_text(host_name, "ALSA") {
        w.push(String::from_str(
            "ALSA may print low-level probe diagnostics to stderr for unavailable built-in devices; CPAL does not expose those diagnostics as structured errors",
        ));
    }
    assert(texts(w@) =~= backend_warnings(host_name@));
    w
}

/// The warning for a device whose name could not be read.
pub open spec fn name_failure_warning(d: DeviceDirection, index: int, error: Seq<char>) -> Seq<
    char,
> {
    "failed to read "@ + direction_label(d) + " device name at index "@ + decimal(index as nat)
        + ": "@ + error
}

/// The name shown for a device whose name could not be read.
pub open spec fn unknown_device_name(d: DeviceDirection) -> Seq<char> {
    "<unknown "@ + direction_label(d) + " device>"@
}

/// The name shown for the device at position `index` of a listing.
pub open spec fn listed_name(d: DeviceDirection, name: Result<String, String>) -> Seq<char> {
    match name {
        Ok(n) => n@,
        Err(_) => unknown_device_name(d),
    }
}

/// The warnings for the unreadable names of a listing, in listing order.
pub open spec fn name_failure_warnings(d: DeviceDirection, names: Seq<Result<String, String>>) -> Seq<
    Seq<char>,
>
    decreases names.len(),
{
    if names.len() == 0 {
        Seq::empty()
    } else {
        let i = names.len() - 1;
        name_failure_warnings(d, names.drop_last()) + match names[i] {
            Ok(_) => Seq::empty(),
            Err(e) => seq![name_failure_warning(d, i, e@)],
        }
    }
}

/// Numbers the devices of a listing in order. A name that could not be read
/// (an `Err` holding the error's text) is shown as unknown and reported in
/// `warnings`.
pub fn collect_named_device_summaries(
    direction: DeviceDirection,
    names: Vec<Result<String, String>>,
    warnings: &mut Vec<String>,
) -> (devices: Vec<DeviceSummary>)
    ensures
        devices@.len() == names@.len(),
        forall|i: int|
            0 <= i < names@.len() ==> (#[trigger] devices@[i]).index == i && devices@[i].name@
                == listed_name(direction, names@[i]),
        texts(final(warnings)@) == texts(old(warnings)@) + name_failure_warnings(
            direction,
            names@,
        ),
{
    let mut devices: Vec<DeviceSummary> = Vec::new();
    let mut i: usize = 0;
    let n = names.len();
    while i < n
        invariant
            n == names@.len(),
            i <= n,
            devices@.len() == i,
            forall|j: int|
                0 <= j < i ==> (#[trigger] devices@[j]).index == j && devices@[j].name@
                    == listed_name(direction, names@[j]),
            texts(warnings@) == texts(old(warnings)@) + name_failure_warnings(
                direction,
                names@.subrange(0, i as int),
            ),
        decreases n - i,
    {
        let ghost before = warnings@;
        let name = match &names[i] {
            Ok(name) => name.clone(),
            Err(error) => {
                let mut w = String::from_str("failed to read ");
                w.append(direction.label());
                w.append(" device name at index ");
                push_decimal(&mut w, i as u64);
                w.append(": ");
                w.append(error.as_str());
                let ghost text = w@;
                warnings.push(w);
                proof {
                    assert(text =~= name_failure_warning(direction, i as int, error@));
                    assert(texts(warnings@) =~= texts(before).push(text));
                }
                let mut unknown = String::from_str("<unknown ");
                unknown.append(direction.label());
                unknown.append(" device>");
                unknown
            },
        };
        devices.push(DeviceSummary { index: i, name });
        proof {
            let prefix = names@.subrange(0, i as int + 1);
            assert(prefix.drop_last() =~= names@.subrange(0, i as int));
            assert(prefix[i as int] == names@[i as int]);
            let tail = match names@[i as int] {
                Ok(_) => Seq::<Seq<char>>::empty(),
                Err(e) => seq![name_failure_warning(direction, i as int, e@)],
            };
            assert(texts(warnings@) =~= texts(before) + tail);
            assert(texts(warnings@) =~= texts(old(warnings)@) + name_failure_warnings(
                direction,
                prefix,
            ));
        }
        i = i + 1;
    }
    assert(names@.subrange(0, n as int) =~= names@);
    devices
}

/// The warning for a device list that could not be obtained at all.
pub open spec fn listing_failure_warning(d: DeviceDirection, error: Seq<char>) -> Seq<char> {
    "failed to list "@ + direction_label(d) + " devices: "@ + error
}

/// The warnings produced by one direction of a listing.
pub open spec fn listing_warnings(
    d: DeviceDirection,
    listing: Result<Vec<Result<String, String>>, String>,
) -> Seq<Seq<char>> {
    match listing {
        Ok(names) => name_failure_warnings(d, names@),
        Err(e) => seq![listing_failure_warning(d, e@)],
    }
}

/// Numbers the devices of one direction, or reports why none could be listed.
fn collect_listing(
    direction: DeviceDirection,
    listing: Result<Vec<Result<String, String>>, String>,
    warnings: &mut Vec<String>,
) -> (devices: Vec<DeviceSummary>)
    ensures
        match listing {
            Ok(names) => devices@.len() == names@.len() && forall|i: int|
                0 <= i < names@.len() ==> (#[trigger] devices@[i]).index == i && devices@[i].name@
                    == listed_name(direction, names@[i]),
            Err(_) => devices@.len() == 0,
        },
        texts(final(warnings)@) == texts(old(warnings)@) + listing_warnings(direction, listing),
{
    match listing {
        Ok(names) => collect_named_device_summaries(direction, names, warnings),
        Err(error) => {
            let ghost before = warnings@;
            let mut w = String::from_str("failed to list ");
            w.append(direction.label());
            w.append(" devices: ");
            w.append(error.as_str());
            warnings.push(w);
            assert(texts(warnings@) =~= texts(before) + listing_warnings(direction, listing));
            Vec::new()
        },
    }
}

/// Assembles a device report from what the audio host answered: its name,
/// and for each direction either the device names (each possibly an error
/// text) or the text of the error that prevented the listing.
pub fn build_device_report(
    host_name: &str,
    inputs: Result<Vec<Result<String, String>>, String>,
    outputs: Result<Vec<Result<String, String>>, String>,
) -> (report: DeviceReport)
    ensures
        match inputs {
            Ok(names) => report.inputs@.len() == names@.len() && forall|i: int|
                0 <= i < names@.len() ==> (#[trigger] report.inputs@[i]).index == i
                    && report.inputs@[i].name@ == listed_name(DeviceDirection::Input, names@[i]),
            Err(_) => report.inputs@.len() == 0,
        },
        match outputs {
            Ok(names) => report.outputs@.len() == names@.len() && forall|i: int|
                0 <= i < names@.len() ==> (#[trigger] report.outputs@[i]).index == i
                    && report.outputs@[i].name@ == listed_name(DeviceDirection::Output, names@[i]),
            Err(_) => report.outputs@.len() == 0,
        },
        texts(report.warnings@) == backend_warnings(host_name@) + listing_warnings(
            DeviceDirection::Input,
            inputs,
        ) + listing_warnings(DeviceDirection::Output, outputs),
{
    let mut warnings = backend_probe_warnings(host_name);
    let input_devices = collect_listing(DeviceDirection::Input, inputs, &mut warnings);
    let output_devices = collect_listing(DeviceDirection::Output, outputs, &mut warnings);
    DeviceReport { inputs: input_devices, outputs: output_devices, warnings }
}

} // verus!
