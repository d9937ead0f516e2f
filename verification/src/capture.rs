//! Decisions of the capture engine: device selection, errors and their
//! messages, the audio thread's command handling, the start handshake, the
//! device list, and the delivery thread's draining of the sample ring.

use crate::ring::SampleRing;
use vstd::prelude::*;
use vstd::string::StringExecFns;

verus! {

/// Which audio input device to capture from.
#[derive(Clone, Copy, Debug, PartialEq, Eq, Structural)]
pub enum DeviceSelection {
    Default,
    ByIndex(u32),
}

impl DeviceSelection {
    /// The selection for an optional device index given by a JavaScript
    /// caller: a non-negative index selects that device, anything else the
    /// system default.
    pub fn from_device_index(device_index: Option<i32>) -> (selection: Self)
        ensures
            device_index matches Some(i) ==> (i >= 0 ==> selection == DeviceSelection::ByIndex(
                i as u32,
            )),
            device_index matches Some(i) ==> (i < 0 ==> selection == DeviceSelection::Default),
            device_index is None ==> selection == DeviceSelection::Default,
    {
        match device_index {
            Some(i) => {
                if i >= 0 {
                    DeviceSelection::ByIndex(i as u32)
                } else {
                    DeviceSelection::Default
                }
            },
            None => DeviceSelection::Default,
        }
    }
}

/// Errors that can occur during audio capture operations.
#[derive(Debug, Clone, PartialEq, Eq)]
pub enum CaptureError {
    DeviceNotFound(String),
    StreamCreationFailed(String),
    StreamStartFailed(String),
    AudioThreadUnreachable(String),
}

impl CaptureError {
    /// The human-readable text of the error.
    pub open spec fn text(&self) -> Seq<char> {
        match self {
            CaptureError::DeviceNotFound(msg) => "Audio device not found: "@ + msg@,
            CaptureError::StreamCreationFailed(msg) => "Failed to create audio stream: "@ + msg@,
            CaptureError::StreamStartFailed(msg) => "Failed to start audio stream: "@ + msg@,
            CaptureError::AudioThreadUnreachable(msg) => "Audio thread unreachable: "@ + msg@,
        }
    }

    /// The human-readable text of the error, as shown to JavaScript callers.
    pub fn message(&self) -> (m: String)
        ensures
            m@ == self.text(),
    {
        match self {
            CaptureError::DeviceNotFound(msg) => String::from_str("Audio device not found: ").concat(
                msg.as_str(),
            ),
            CaptureError::StreamCreationFailed(msg) => String::from_str(
                "Failed to create audio stream: ",
            ).concat(msg.as_str()),
            CaptureError::StreamStartFailed(msg) => String::from_str(
                "Failed to start audio stream: ",
            ).concat(msg.as_str()),
            CaptureError::AudioThreadUnreachable(msg) => String::from_str(
                "Audio thread unreachable: ",
            ).concat(msg.as_str()),
        }
    }
}

/// The decimal digit `d` (for `d < 10`).
pub open spec fn digit_char(d: nat) -> char {
    (48 + d) as char
}

/// The decimal notation of `n`, without sign or leading zeros.
pub open spec fn decimal_digits(n: nat) -> Seq<char>
    decreases n,
{
    if n < 10 {
        seq![digit_char(n)]
    } else {
        decimal_digits(n / 10).push(digit_char(n % 10))
    }
}

/// `ToString::to_string` on `u32` (through its `Display`): the value in
/// decimal notation, without sign, padding or leading zeros.
#[verifier::external_body]
fn u32_to_decimal(value: u32) -> (text: String)
    ensures
        text@ == decimal_digits(value as nat),
{
    value.to_string()
}

/// The error for a device that the selection names but the host does not have.
pub fn missing_device_error(selection: &DeviceSelection) -> (e: CaptureError)
    ensures
        e matches CaptureError::DeviceNotFound(msg) && msg@ == (match *selection {
            DeviceSelection::ByIndex(index) => "No device at index "@ + decimal_digits(index as nat),
            DeviceSelection::Default => "No default input device"@,
        }),
{
    match selection {
        DeviceSelection::ByIndex(index) => {
            let digits = u32_to_decimal(*index);
            CaptureError::DeviceNotFound(
                String::from_str("No device at index ").concat(digits.as_str()),
            )
        },
        DeviceSelection::Default => CaptureError::DeviceNotFound(
            String::from_str("No default input device"),
        ),
    }
}

/// The error for an input sample format that the normalizer cannot read;
/// `format_name` is the format's debug name.
pub fn unsupported_format_error(format_name: &str) -> (e: CaptureError)
    ensures
        e matches CaptureError::StreamCreationFailed(msg) && msg@
            == "Unsupported input sample format: "@ + format_name@,
{
    CaptureError::StreamCreationFailed(
        String::from_str("Unsupported input sample format: ").concat(format_name),
    )
}

/// Commands sent to the audio capture thread.
#[derive(Clone, Copy, Debug, PartialEq, Eq, Structural)]
pub enum AudioCommand {
    Start(DeviceSelection),
    Stop,
    Shutdown,
}

/// Response from the audio capture thread.
#[derive(Debug, Clone, PartialEq, Eq)]
pub enum AudioResponse {
    Started,
    Error(CaptureError),
}

/// What the audio thread does with what it received.
#[derive(Clone, Copy, Debug, PartialEq, Eq, Structural)]
pub enum AudioThreadAction {
    /// Drop the current stream, then open one on the selected device.
    OpenStream(DeviceSelection),
    /// Drop the current stream and wait for the next command.
    CloseStream,
    /// Drop the current stream and leave the loop.
    CloseAndExit,
}

/// The audio thread's reaction to a received command; `None` means that the
/// command channel is closed.
pub fn audio_thread_action(received: Option<AudioCommand>) -> (action: AudioThreadAction)
    ensures
        received matches Some(AudioCommand::Start(sel)) ==> action == AudioThreadAction::OpenStream(
            sel,
        ),
        received == Some(AudioCommand::Stop) ==> action == AudioThreadAction::CloseStream,
        received == Some(AudioCommand::Shutdown) ==> action == AudioThreadAction::CloseAndExit,
        received is None ==> action == AudioThreadAction::CloseAndExit,
{
    match received {
        Some(AudioCommand::Start(selection)) => AudioThreadAction::OpenStream(selection),
        Some(AudioCommand::Stop) => AudioThreadAction::CloseStream,
        Some(AudioCommand::Shutdown) => AudioThreadAction::CloseAndExit,
        None => AudioThreadAction::CloseAndExit,
    }
}

/// The audio thread's answer once it tried to open a stream.
pub fn stream_open_response(outcome: Result<(), CaptureError>) -> (response: AudioResponse)
    ensures
        outcome is Ok ==> response == AudioResponse::Started,
        outcome matches Err(e) ==> response == AudioResponse::Error(e),
{
    match outcome {
        Ok(()) => AudioResponse::Started,
        Err(e) => AudioResponse::Error(e),
    }
}

/// The outcome of starting capture, from the audio thread's reply; `None`
/// means that no reply came in time (or the thread is gone).
pub fn start_result(reply: Option<AudioResponse>) -> (result: Result<(), CaptureError>)
    ensures
        reply == Some(AudioResponse::Started) ==> result is Ok,
        reply matches Some(AudioResponse::Error(e)) ==> result == Err::<(), CaptureError>(e),
        reply is None ==> (result matches Err(CaptureError::AudioThreadUnreachable(msg)) && msg@
            == "Timeout waiting for audio thread to start"@),
{
    match reply {
        Some(AudioResponse::Started) => Ok(()),
        Some(AudioResponse::Error(e)) => Err(e),
        None => Err(
            CaptureError::AudioThreadUnreachable(
                String::from_str("Timeout waiting for audio thread to start"),
            ),
        ),
    }
}

/// Information about an audio input device. `index` is the device's position
/// in the host's enumeration of input devices.
#[derive(Debug, Clone)]
pub struct AudioDeviceInfo {
    pub index: i32,
    pub name: String,
}

/// An audio input device as JavaScript sees it. `index` is `i32` because
/// JavaScript has no unsigned integer type.
#[derive(Debug, Clone)]
pub struct AudioDevice {
    pub index: i32,
    pub name: String,
}

/// The optional names of enumerated devices, as character sequences.
pub open spec fn name_views(names: Seq<Option<String>>) -> Seq<Option<Seq<char>>> {
    names.map_values(
        |o: Option<String>|
            match o {
                Some(s) => Some(s@),
                None => None,
            },
    )
}

/// The listed devices for the optional names of the devices in enumeration
/// order: one `(position, name)` per device that has a name.
pub open spec fn listed_devices(names: Seq<Option<Seq<char>>>) -> Seq<(int, Seq<char>)>
    decreases names.len(),
{
    if names.len() == 0 {
        Seq::empty()
    } else {
        let before = listed_devices(names.drop_last());
        match names.last() {
            Some(name) => before.push(((names.len() - 1) as int, name)),
            None => before,
        }
    }
}

/// Listed devices keep their enumeration order, and each position is a
/// position of the enumeration.
pub proof fn lemma_listed_positions(names: Seq<Option<Seq<char>>>)
    ensures
        forall|i: int|
            0 <= i < listed_devices(names).len() ==> 0 <= #[trigger] listed_devices(names)[i].0
                < names.len(),
        forall|i: int, j: int|
            0 <= i < j < listed_devices(names).len() ==> listed_devices(names)[i].0 < listed_devices(
                names,
            )[j].0,
        listed_devices(names).len() <= names.len(),
    decreases names.len(),
{
    if names.len() > 0 {
        lemma_listed_positions(names.drop_last());
    }
}

/// Exactly the named devices are listed: every device that has a name
/// appears with its enumeration position and that name, and every listed entry
/// is such a device.
pub proof fn lemma_listed_devices_exact(names: Seq<Option<Seq<char>>>)
    ensures
        forall|p: int|
            0 <= p < names.len() && #[trigger] names[p] is Some ==> exists|i: int|
                0 <= i < listed_devices(names).len() && listed_devices(names)[i] == (
                    p,
                    names[p]->0,
                ),
        forall|i: int|
            0 <= i < listed_devices(names).len() ==> {
                let p = #[trigger] listed_devices(names)[i].0;
                &&& 0 <= p < names.len()
                &&& names[p] == Some(listed_devices(names)[i].1)
            },
    decreases names.len(),
{
    if names.len() > 0 {
        let rest = names.drop_last();
        lemma_listed_devices_exact(rest);
        let before = listed_devices(rest);
        let all = listed_devices(names);
        assert forall|p: int| 0 <= p < names.len() && #[trigger] names[p] is Some implies exists|i: int|
            0 <= i < all.len() && all[i] == (p, names[p]->0) by {
            if p < names.len() - 1 {
                assert(rest[p] == names[p]);
                let i = choose|i: int| 0 <= i < before.len() && before[i] == (p, rest[p]->0);
                assert(all[i] == before[i]);
            } else {
                assert(all[all.len() - 1] == (p, names[p]->0));
            }
        }
        assert forall|i: int| 0 <= i < all.len() implies {
            let p = #[trigger] all[i].0;
            &&& 0 <= p < names.len()
            &&& names[p] == Some(all[i].1)
        } by {
            if i < before.len() {
                assert(all[i] == before[i]);
                assert(rest[before[i].0] == names[before[i].0]);
            }
        }
    }
}

/// `device` is the device at enumeration position `p`, listed with its name.
pub open spec fn names_device_at(names: Seq<Option<String>>, p: int, device: AudioDeviceInfo) -> bool {
    &&& 0 <= p < names.len()
    &&& names[p] is Some
    &&& device.index == p as i32
    &&& device.name@ == names[p]->0@
}

/// Builds the device list from the names of the host's input devices in
/// enumeration order (`None` for a device whose description could not be
/// read, which is left out; the others keep their enumeration position).
pub fn device_list(names: &Vec<Option<String>>) -> (devices: Vec<AudioDeviceInfo>)
    ensures
        devices@.len() == listed_devices(name_views(names@)).len(),
        forall|i: int|
            0 <= i < devices@.len() ==> {
                &&& #[trigger] devices@[i].index == listed_devices(name_views(names@))[i].0 as i32
                &&& devices@[i].name@ == listed_devices(name_views(names@))[i].1
            },
        names@.len() <= 0x8000_0000 ==> forall|i: int|
            0 <= i < devices@.len() ==> #[trigger] devices@[i].index >= 0,
        forall|p: int|
            0 <= p < names@.len() && #[trigger] names@[p] is Some ==> exists|i: int|
                0 <= i < devices@.len() && #[trigger] names_device_at(names@, p, devices@[i]),
        names@.len() <= 0x8000_0000 ==> forall|i: int|
            0 <= i < devices@.len() ==> names_device_at(
                names@,
                #[trigger] devices@[i].index as int,
                devices@[i],
            ),
        forall|i: int, j: int|
            0 <= i < j < devices@.len() && names@.len() <= 0x8000_0000 ==> devices@[i].index
                < devices@[j].index,
{
    let mut devices: Vec<AudioDeviceInfo> = Vec::new();
    let mut position: usize = 0;
    while position < names.len()
        invariant
            position <= names@.len(),
            devices@.len() == listed_devices(name_views(names@.take(position as int))).len(),
            forall|i: int|
                0 <= i < devices@.len() ==> {
                    &&& #[trigger] devices@[i].index == listed_devices(
                        name_views(names@.take(position as int)),
                    )[i].0 as i32
                    &&& devices@[i].name@ == listed_devices(name_views(names@.take(position as int)))[i].1
                },
        decreases names.len() - position,
    {
        let ghost prefix = names@.take(position as int);
        let ghost next = names@.take(position + 1);
        proof {
            assert(name_views(next).drop_last() =~= name_views(prefix));
            assert(name_views(next).last() == name_views(names@)[position as int]);
        }
        match &names[position] {
            Some(name) => {
                devices.push(AudioDeviceInfo { index: position as i32, name: name.clone() });
            },
            None => {},
        }
        position = position + 1;
    }
    proof {
        assert(names@.take(names@.len() as int) =~= names@);
        lemma_listed_positions(name_views(names@));
        assert forall|i: int| 0 <= i < devices@.len() && names@.len() <= 0x8000_0000 implies #[trigger] devices@[i].index >= 0 by {
            let pos = listed_devices(name_views(names@))[i].0;
            assert(0 <= pos < 0x8000_0000);
            assert(pos as i32 == pos);
        }
        let nv = name_views(names@);
        let listed = listed_devices(nv);
        lemma_listed_devices_exact(nv);
        assert forall|p: int| 0 <= p < names@.len() && #[trigger] names@[p] is Some implies exists|i: int|
            0 <= i < devices@.len() && #[trigger] names_device_at(names@, p, devices@[i]) by {
            assert(nv[p] is Some);
            let i = choose|i: int| 0 <= i < listed.len() && listed[i] == (p, nv[p]->0);
            assert(devices@[i].index == listed[i].0 as i32);
            assert(devices@[i].name@ == listed[i].1);
            assert(names_device_at(names@, p, devices@[i]));
        }
        assert forall|i: int|
            0 <= i < devices@.len() && names@.len() <= 0x8000_0000 implies names_device_at(
                names@,
                #[trigger] devices@[i].index as int,
                devices@[i],
            ) by {
            let p = listed[i].0;
            assert(0 <= p < 0x8000_0000);
            assert(p as i32 == p);
            assert(nv[p] == Some(listed[i].1));
            assert(devices@[i].index == listed[i].0 as i32);
            assert(devices@[i].name@ == listed[i].1);
            assert(names_device_at(names@, p, devices@[i]));
        }
        assert forall|i: int, j: int|
            0 <= i < j < devices@.len() && names@.len() <= 0x8000_0000 implies devices@[i].index
                < devices@[j].index by {
            assert(devices@[i].index == listed[i].0 as i32);
            assert(devices@[j].index == listed[j].0 as i32);
            assert(listed[i].0 < listed[j].0);
            assert(listed[i].0 as i32 == listed[i].0);
            assert(listed[j].0 as i32 == listed[j].0);
        }
    }
    devices
}

/// The JavaScript view of each listed device, in order.
pub fn audio_devices(infos: &Vec<AudioDeviceInfo>) -> (devices: Vec<AudioDevice>)
    ensures
        devices@.len() == infos@.len(),
        forall|i: int|
            0 <= i < devices@.len() ==> {
                &&& #[trigger] devices@[i].index == infos@[i].index
                &&& devices@[i].name@ == infos@[i].name@
            },
{
    let mut devices: Vec<AudioDevice> = Vec::new();
    let mut i: usize = 0;
    while i < infos.len()
        invariant
            i <= infos@.len(),
            devices@.len() == i,
            forall|j: int|
                0 <= j < i ==> {
                    &&& #[trigger] devices@[j].index == infos@[j].index
                    &&& devices@[j].name@ == infos@[j].name@
                },
        decreases infos.len() - i,
    {
        devices.push(AudioDevice { index: infos[i].index, name: infos[i].name.clone() });
        i = i + 1;
    }
    devices
}

/// What the delivery thread does after a wake-up.
#[derive(Debug)]
pub enum DrainAction {
    /// Stop was requested: leave the loop.
    Exit,
    /// Nothing is waiting: go back to sleep.
    Wait,
    /// Hand these samples to the callback.
    Deliver(Vec<i16>),
}

/// One wake-up of the delivery thread: leave when stop was requested;
/// otherwise take every waiting sample, or go back to waiting if there is none.
pub fn drain_step(stop_requested: bool, ring: &mut SampleRing) -> (action: DrainAction)
    requires
        old(ring).wf(),
    ensures
        final(ring).wf(),
        stop_requested ==> action is Exit && final(ring)@ == old(ring)@,
        !stop_requested && old(ring)@.len() == 0 ==> action is Wait && final(ring)@ == old(ring)@,
        !stop_requested && old(ring)@.len() > 0 ==> (action matches DrainAction::Deliver(samples)
            && samples@ == old(ring)@ && final(ring)@ == Seq::<i16>::empty()),
        action matches DrainAction::Deliver(samples) ==> 1 <= samples@.len()
            <= crate::ring::RING_BUFFER_CAPACITY,
        old(ring)@.len() <= crate::ring::RING_BUFFER_CAPACITY,
{
    proof {
        ring.lemma_wf_bounded();
    }
    if stop_requested {
        return DrainAction::Exit;
    }
    let available = ring.occupied_len();
    if available == 0 {
        return DrainAction::Wait;
    }
    let samples = ring.pop_available();
    DrainAction::Deliver(samples)
}

} // verus!
