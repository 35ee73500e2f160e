//! The text that the command-line tool prints: device listings and
//! passthrough status lines.
use vstd::prelude::*;

use crate::devices::{DeviceReport, DeviceSummary};
use crate::metrics::AudioMetricsSnapshot;
use crate::passthrough::PassthroughStreamInfo;
use crate::text::{debug_quoted, debug_text, decimal, plain_text, push_decimal};

verus! {

/// One line per device: index in brackets, then the name.
pub open spec fn device_lines(devices: Seq<DeviceSummary>) -> Seq<char>
    decreases devices.len(),
{
    if devices.len() == 0 {
        Seq::empty()
    } else {
        let d = devices.last();
        device_lines(devices.drop_last()) + "  ["@ + decimal(d.index as nat) + "] "@ + d.name@
            + "\n"@
    }
}

/// A titled section listing devices, or saying that there are none.
pub open spec fn device_section(title: Seq<char>, devices: Seq<DeviceSummary>) -> Seq<char> {
    title + "\n"@ + (if devices.len() == 0 {
        "  (none found)\n"@
    } else {
        device_lines(devices)
    }) + "\n"@
}

/// One indented line per warning.
pub open spec fn warning_lines(warnings: Seq<String>) -> Seq<char>
    decreases warnings.len(),
{
    if warnings.len() == 0 {
        Seq::empty()
    } else {
        warning_lines(warnings.drop_last()) + "  "@ + warnings.last()@ + "\n"@
    }
}

/// The warnings section; empty when there is nothing to warn about.
pub open spec fn warning_section(warnings: Seq<String>) -> Seq<char> {
    if warnings.len() == 0 {
        Seq::empty()
    } else {
        "Warnings:\n"@ + warning_lines(warnings)
    }
}

/// The whole device listing.
pub open spec fn device_report_text(report: DeviceReport) -> Seq<char> {
    device_section("Input devices:"@, report.inputs@) + device_section(
        "Output devices:"@,
        report.outputs@,
    ) + warning_section(report.warnings@)
}

/// Renders a device report: an input section, an output section, and the
/// warnings, if any.
pub fn format_device_report(report: &DeviceReport) -> (text: String)
    ensures
        text@ == device_report_text(*report),
{
    let mut output = String::new();
    push_device_section(&mut output, "Input devices:", report.inputs.as_slice());
    push_device_section(&mut output, "Output devices:", report.outputs.as_slice());
    push_warning_section(&mut output, report.warnings.as_slice());
    assert(output@ =~= device_report_text(*report));
    output
}

fn push_device_section(output: &mut String, title: &str, devices: &[DeviceSummary])
    ensures
        final(output)@ == old(output)@ + device_section(title@, devices@),
{
    let ghost start = output@;
    output.append(title);
    output.append("\n");
    if devices.len() == 0 {
        output.append("  (none found)\n");
    } else {
        let mut i: usize = 0;
        while i < devices.len()
            invariant
                i <= devices@.len(),
                devices@.len() > 0,
                output@ == start + title@ + "\n"@ + device_lines(devices@.subrange(0, i as int)),
            decreases devices@.len() - i,
        {
            let ghost before = output@;
            output.append("  [");
            push_decimal(output, devices[i].index as u64);
            output.append("] ");
            output.append(devices[i].name.as_str());
            output.append("\n");
            proof {
                let prefix = devices@.subrange(0, i as int + 1);
                assert(prefix.drop_last() =~= devices@.subrange(0, i as int));
                assert(prefix.last() == devices@[i as int]);
                assert(output@ =~= start + title@ + "\n"@ + device_lines(prefix));
            }
            i = i + 1;
        }
        assert(devices@.subrange(0, devices@.len() as int) =~= devices@);
    }
    output.append("\n");
    assert(output@ =~= start + device_section(title@, devices@));
}

fn push_warning_section(output: &mut String, warnings: &[String])
    ensures
        final(output)@ == old(output)@ + warning_section(warnings@),
{
    let ghost start = output@;
    if warnings.len() == 0 {
        assert(output@ =~= start + warning_section(warnings@));
        return;
    }
    output.append("Warnings:");
    output.append("\n");
    proof {
        reveal_strlit("Warnings:");
        reveal_strlit("\n");
        reveal_strlit("Warnings:\n");
        assert(output@ =~= start + "Warnings:\n"@ + warning_lines(warnings@.subrange(0, 0)));
    }
    let mut i: usize = 0;
    while i < warnings.len()
        invariant
            i <= warnings@.len(),
            warnings@.len() > 0,
            output@ == start + "Warnings:\n"@ + warning_lines(warnings@.subrange(0, i as int)),
        decreases warnings@.len() - i,
    {
        output.append("  ");
        output.append(warnings[i].as_str());
        output.append("\n");
        proof {
            let prefix = warnings@.subrange(0, i as int + 1);
            assert(prefix.drop_last() =~= warnings@.subrange(0, i as int));
            assert(prefix.last() == warnings@[i as int]);
            assert(output@ =~= start + "Warnings:\n"@ + warning_lines(prefix));
        }
        i = i + 1;
    }
    assert(warnings@.subrange(0, warnings@.len() as int) =~= warnings@);
    assert(output@ =~= start + warning_section(warnings@));
}

/// The line announcing a started passthrough session, given the quoted
/// renderings of the two device names.
pub open spec fn started_line(
    info: PassthroughStreamInfo,
    input_name_quoted: Seq<char>,
    output_name_quoted: Seq<char>,
) -> Seq<char> {
    "Passthrough started: input_device="@ + input_name_quoted + " output_device="@
        + output_name_quoted + " sample_rate_hz="@ + decimal(info.sample_rate_hz as nat)
        + " channels="@ + decimal(info.channels as nat) + " capacity_frames="@ + decimal(
        info.capacity_frames as nat,
    )
}

/// Assembles the started line from the quoted device names.
pub fn passthrough_started_line(
    stream_info: &PassthroughStreamInfo,
    input_name_quoted: &str,
    output_name_quoted: &str,
) -> (line: String)
    ensures
        line@ == started_line(*stream_info, input_name_quoted@, output_name_quoted@),
{
    let mut out = String::from_str("Passthrough started: input_device=");
    out.append(input_name_quoted);
    out.append(" output_device=");
    out.append(output_name_quoted);
    out.append(" sample_rate_hz=");
    push_decimal(&mut out, stream_info.sample_rate_hz as u64);
    out.append(" channels=");
    push_decimal(&mut out, stream_info.channels as u64);
    out.append(" capacity_frames=");
    push_decimal(&mut out, stream_info.capacity_frames as u64);
    assert(out@ =~= started_line(*stream_info, input_name_quoted@, output_name_quoted@));
    out
}

/// The line announcing a started passthrough session, with the device
/// names quoted as `{:?}` quotes them.
pub fn format_passthrough_started(stream_info: &PassthroughStreamInfo) -> (line: String)
    ensures
        line@ == started_line(
            *stream_info,
            debug_text(stream_info.input_device_name@),
            debug_text(stream_info.output_device_name@),
        ),
        plain_text(stream_info.input_device_name@) && plain_text(
            stream_info.output_device_name@,
        ) ==> line@ == started_line(
            *stream_info,
            seq!['"'] + stream_info.input_device_name@ + seq!['"'],
            seq!['"'] + stream_info.output_device_name@ + seq!['"'],
        ),
{
    let input_quoted = debug_quoted(stream_info.input_device_name.as_str());
    let output_quoted = debug_quoted(stream_info.output_device_name.as_str());
    passthrough_started_line(stream_info, input_quoted.as_str(), output_quoted.as_str())
}

/// The once-per-second metrics line of a passthrough session.
pub open spec fn metrics_line(elapsed_seconds: u64, s: AudioMetricsSnapshot) -> Seq<char> {
    "t="@ + decimal(elapsed_seconds as nat) + "s input_cb="@ + decimal(s.input_callbacks as nat)
        + " output_cb="@ + decimal(s.output_callbacks as nat) + " pushed_frames="@ + decimal(
        s.pushed_frames as nat,
    ) + " popped_frames="@ + decimal(s.popped_frames as nat) + " underrun_events="@ + decimal(
        s.underrun_events as nat,
    ) + " overrun_events="@ + decimal(s.overrun_events as nat) + " input_stream_error_events="@
        + decimal(s.input_stream_error_events as nat) + " output_stream_error_events="@ + decimal(
        s.output_stream_error_events as nat,
    )
}

/// Renders the metrics line for `elapsed_seconds` into the session.
pub fn format_passthrough_metrics(elapsed_seconds: u64, snapshot: AudioMetricsSnapshot) -> (line:
    String)
    ensures
        line@ == metrics_line(elapsed_seconds, snapshot),
{
    let mut out = String::from_str("t=");
    push_decimal(&mut out, elapsed_seconds);
    out.append("s input_cb=");
    push_decimal(&mut out, snapshot.input_callbacks);
    out.append(" output_cb=");
    push_decimal(&mut out, snapshot.output_callbacks);
    out.append(" pushed_frames=");
    push_decimal(&mut out, snapshot.pushed_frames);
    out.append(" popped_frames=");
    push_decimal(&mut out, snapshot.popped_frames);
    out.append(" underrun_events=");
    push_decimal(&mut out, snapshot.underrun_events);
    out.append(" overrun_events=");
    push_decimal(&mut out, snapshot.overrun_events);
    out.append(" input_stream_error_events=");
    push_decimal(&mut out, snapshot.input_stream_error_events);
    out.append(" output_stream_error_events=");
    push_decimal(&mut out, snapshot.output_stream_error_events);
    assert(out@ =~= metrics_line(elapsed_seconds, snapshot));
    out
}

} // verus!
