//! The PCM capture command (parec or pw-cat).
use vstd::prelude::*;
use crate::audio::frame::{CHANNELS, SAMPLE_RATE};
use crate::text::{cat2, decimal, render, views};

verus! {

/// Where to capture PCM from.
#[derive(Debug, PartialEq, Eq)]
pub enum CaptureSource {
    /// The null sink's monitor (equalised audio). parec targets the monitor source,
    /// pw-cat the sink node itself.
    NullSinkMonitor(String),
    /// A Bluetooth source node directly, without equaliser.
    BluetoothDirect(String),
    /// The default monitor or source.
    Default,
}

impl Clone for CaptureSource {
    fn clone(&self) -> (r: Self)
        ensures
            r == *self,
    {
        match self {
            CaptureSource::NullSinkMonitor(n) => CaptureSource::NullSinkMonitor(n.clone()),
            CaptureSource::BluetoothDirect(n) => CaptureSource::BluetoothDirect(n.clone()),
            CaptureSource::Default => CaptureSource::Default,
        }
    }
}

/// Where PCM is captured from, with the name of the node.
pub enum SourceData {
    NullSinkMonitor(Seq<char>),
    BluetoothDirect(Seq<char>),
    Default,
}

impl View for CaptureSource {
    type V = SourceData;

    open spec fn view(&self) -> SourceData {
        match *self {
            CaptureSource::NullSinkMonitor(name) => SourceData::NullSinkMonitor(name@),
            CaptureSource::BluetoothDirect(name) => SourceData::BluetoothDirect(name@),
            CaptureSource::Default => SourceData::Default,
        }
    }
}

/// Which capture tool to invoke.
#[derive(Debug, Clone, Copy, PartialEq, Eq, Structural)]
pub enum CaptureTool {
    Parec,
    PwCat,
}

/// A ready-to-spawn capture command (program and arguments).
#[derive(Debug, PartialEq, Eq)]
pub struct CaptureCommand {
    pub program: &'static str,
    pub args: Vec<String>,
}

impl CaptureCommand {
    /// The program and its arguments.
    pub open spec fn says(self) -> (Seq<char>, Seq<Seq<char>>) {
        (self.program@, views(self.args@))
    }
}

/// The PulseAudio name of a source.
pub open spec fn device_of(source: SourceData) -> Seq<char> {
    match source {
        SourceData::NullSinkMonitor(name) => name + ".monitor"@,
        SourceData::BluetoothDirect(name) => name,
        SourceData::Default => "@DEFAULT_MONITOR@"@,
    }
}

/// The arguments that target a node of pw-cat.
pub open spec fn target_args(source: SourceData) -> Seq<Seq<char>> {
    match source {
        SourceData::NullSinkMonitor(name) => seq!["--target"@, name],
        SourceData::BluetoothDirect(name) => seq!["--target"@, name],
        SourceData::Default => Seq::empty(),
    }
}

/// The program and its arguments.
pub open spec fn capture_args(tool: CaptureTool, source: SourceData, latency_ms: int) -> (
    Seq<char>,
    Seq<Seq<char>>,
) {
    match tool {
        CaptureTool::Parec => (
            "parec"@,
            seq![
                "--raw"@,
                "--format=float32"@,
                "--channels="@ + decimal(CHANNELS as nat),
                "--rate="@ + decimal(SAMPLE_RATE as nat),
                "--device="@ + device_of(source),
                "--latency-msec="@ + decimal(latency_ms as nat),
            ],
        ),
        CaptureTool::PwCat => (
            "pw-cat"@,
            seq![
                "--format"@,
                "f32"@,
                "--channels"@,
                decimal(CHANNELS as nat),
                "--rate"@,
                decimal(SAMPLE_RATE as nat),
                "-r"@,
            ] + target_args(source) + seq!["-"@],
        ),
    }
}

/// Build the capture command. `parec` targets PulseAudio source names (the null
/// sink monitor is `<sink>.monitor`) and takes an explicit latency derived from the
/// live quantum; `pw-cat` targets the PipeWire node name and has no latency flag.
pub fn build_capture_command(
    tool: CaptureTool,
    source: &CaptureSource,
    latency_ms: u32,
) -> (command: CaptureCommand)
    ensures
        command.says() == capture_args(tool, source@, latency_ms as int),
{
    let mut args: Vec<String> = Vec::new();
    match tool {
        CaptureTool::Parec => {
            let device = match source {
                CaptureSource::NullSinkMonitor(name) => cat2(name.as_str(), ".monitor"),
                CaptureSource::BluetoothDirect(name) => name.clone(),
                CaptureSource::Default => "@DEFAULT_MONITOR@".to_owned(),
            };
            args.push("--raw".to_owned());
            args.push("--format=float32".to_owned());
            args.push(cat2("--channels=", render(CHANNELS as u64).as_str()));
            args.push(cat2("--rate=", render(SAMPLE_RATE as u64).as_str()));
            args.push(cat2("--device=", device.as_str()));
            args.push(cat2("--latency-msec=", render(latency_ms as u64).as_str()));
            assert(views(args@) =~= capture_args(tool, source@, latency_ms as int).1);
            CaptureCommand { program: "parec", args }
        },
        CaptureTool::PwCat => {
            args.push("--format".to_owned());
            args.push("f32".to_owned());
            args.push("--channels".to_owned());
            args.push(render(CHANNELS as u64));
            args.push("--rate".to_owned());
            args.push(render(SAMPLE_RATE as u64));
            args.push("-r".to_owned());
            match source {
                CaptureSource::NullSinkMonitor(name) => {
                    args.push("--target".to_owned());
                    args.push(name.clone());
                },
                CaptureSource::BluetoothDirect(name) => {
                    args.push("--target".to_owned());
                    args.push(name.clone());
                },
                CaptureSource::Default => {},
            }
            args.push("-".to_owned());
            assert(views(args@) =~= capture_args(tool, source@, latency_ms as int).1);
            CaptureCommand { program: "pw-cat", args }
        },
    }
}

/// Whatever is captured comes in as raw 32-bit floats of two channels at 48000 Hz; parec is
/// told the monitor of a null sink or the source itself, and a latency, and pw-cat the
/// node, if any, and to write to its output.
pub proof fn captures_are_told_what_to_capture(source: SourceData, latency_ms: int)
    ensures
        ({
            let (program, args) = capture_args(CaptureTool::Parec, source, latency_ms);
            &&& program == "parec"@
            &&& args.contains("--raw"@)
            &&& args.contains("--format=float32"@)
            &&& args.contains("--channels="@ + decimal(2))
            &&& args.contains("--rate="@ + decimal(48000))
            &&& args.contains("--latency-msec="@ + decimal(latency_ms as nat))
            &&& args.contains(
                "--device="@ + (match source {
                    SourceData::NullSinkMonitor(name) => name + ".monitor"@,
                    SourceData::BluetoothDirect(name) => name,
                    SourceData::Default => "@DEFAULT_MONITOR@"@,
                }),
            )
            &&& args.len() == 6
        }),
        ({
            let (program, args) = capture_args(CaptureTool::PwCat, source, latency_ms);
            &&& program == "pw-cat"@
            &&& args.last() == "-"@
            &&& args[0] == "--format"@ && args[1] == "f32"@
            &&& args[2] == "--channels"@ && args[3] == decimal(2)
            &&& args[4] == "--rate"@ && args[5] == decimal(48000)
            &&& args[6] == "-r"@
            &&& match source {
                SourceData::NullSinkMonitor(name) => args.len() == 10 && args[7] == "--target"@
                    && args[8] == name,
                SourceData::BluetoothDirect(name) => args.len() == 10 && args[7] == "--target"@
                    && args[8] == name,
                SourceData::Default => args.len() == 8,
            }
        }),
{
    let args = capture_args(CaptureTool::Parec, source, latency_ms).1;
    assert(args[0] == "--raw"@);
    assert(args[1] == "--format=float32"@);
    assert(args[2] == "--channels="@ + decimal(2));
    assert(args[3] == "--rate="@ + decimal(48000));
    assert(args[4] == "--device="@ + device_of(source));
    assert(args[5] == "--latency-msec="@ + decimal(latency_ms as nat));
}

} // verus!
