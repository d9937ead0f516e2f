use audio_capture::capture::{
    audio_devices, audio_thread_action, device_list, drain_step, missing_device_error,
    start_result, stream_open_response, unsupported_format_error, AudioCommand,
    AudioDeviceInfo, AudioResponse, AudioThreadAction, CaptureError, DeviceSelection,
    DrainAction,
};
use audio_capture::ring::SampleRing;

#[test]
fn device_index_selects_device() {
    assert_eq!(DeviceSelection::from_device_index(Some(1)), DeviceSelection::ByIndex(1));
    assert_eq!(DeviceSelection::from_device_index(Some(0)), DeviceSelection::ByIndex(0));
    assert_eq!(
        DeviceSelection::from_device_index(Some(i32::MAX)),
        DeviceSelection::ByIndex(2_147_483_647)
    );
    assert_eq!(DeviceSelection::from_device_index(Some(-1)), DeviceSelection::Default);
    assert_eq!(DeviceSelection::from_device_index(None), DeviceSelection::Default);
}

#[test]
fn error_messages() {
    let cases = [
        (CaptureError::DeviceNotFound("x".to_string()), "Audio device not found: x"),
        (CaptureError::StreamCreationFailed("y".to_string()), "Failed to create audio stream: y"),
        (CaptureError::StreamStartFailed("z".to_string()), "Failed to start audio stream: z"),
        (CaptureError::AudioThreadUnreachable("w".to_string()), "Audio thread unreachable: w"),
    ];
    for (error, text) in cases {
        assert_eq!(error.message(), text);
    }
}

#[test]
fn missing_device_messages() {
    assert_eq!(
        missing_device_error(&DeviceSelection::ByIndex(3)),
        CaptureError::DeviceNotFound("No device at index 3".to_string())
    );
    assert_eq!(
        missing_device_error(&DeviceSelection::ByIndex(4_294_967_295)).message(),
        "Audio device not found: No device at index 4294967295"
    );
    assert_eq!(
        missing_device_error(&DeviceSelection::ByIndex(0)).message(),
        "Audio device not found: No device at index 0"
    );
    assert_eq!(
        missing_device_error(&DeviceSelection::Default),
        CaptureError::DeviceNotFound("No default input device".to_string())
    );
}

#[test]
fn unsupported_format_message() {
    assert_eq!(
        unsupported_format_error("DsdU8").message(),
        "Failed to create audio stream: Unsupported input sample format: DsdU8"
    );
}

#[test]
fn audio_thread_reacts_to_commands() {
    assert_eq!(
        audio_thread_action(Some(AudioCommand::Start(DeviceSelection::ByIndex(2)))),
        AudioThreadAction::OpenStream(DeviceSelection::ByIndex(2))
    );
    assert_eq!(audio_thread_action(Some(AudioCommand::Stop)), AudioThreadAction::CloseStream);
    assert_eq!(audio_thread_action(Some(AudioCommand::Shutdown)), AudioThreadAction::CloseAndExit);
    assert_eq!(audio_thread_action(None), AudioThreadAction::CloseAndExit);
}

#[test]
fn stream_open_outcome_becomes_response() {
    assert_eq!(stream_open_response(Ok(())), AudioResponse::Started);
    let e = CaptureError::StreamStartFailed("busy".to_string());
    assert_eq!(stream_open_response(Err(e.clone())), AudioResponse::Error(e));
}

#[test]
fn start_handshake_outcomes() {
    assert_eq!(start_result(Some(AudioResponse::Started)), Ok(()));
    let e = CaptureError::DeviceNotFound("No default input device".to_string());
    assert_eq!(start_result(Some(AudioResponse::Error(e.clone()))), Err(e));
    let timeout = start_result(None).unwrap_err();
    assert_eq!(
        timeout,
        CaptureError::AudioThreadUnreachable("Timeout waiting for audio thread to start".to_string())
    );
    assert_eq!(
        timeout.message(),
        "Audio thread unreachable: Timeout waiting for audio thread to start"
    );
}

#[test]
fn device_list_keeps_enumeration_positions() {
    let names = vec![
        Some("Built-in".to_string()),
        None,
        Some("USB Mic".to_string()),
    ];
    let devices = device_list(&names);
    assert_eq!(devices.len(), 2);
    assert_eq!(devices[0].index, 0);
    assert_eq!(devices[0].name, "Built-in");
    assert_eq!(devices[1].index, 2);
    assert_eq!(devices[1].name, "USB Mic");
    assert!(device_list(&Vec::new()).is_empty());
}

#[test]
fn audio_devices_copy_each_entry() {
    let infos = vec![
        AudioDeviceInfo { index: 0, name: "A".to_string() },
        AudioDeviceInfo { index: 5, name: "B".to_string() },
    ];
    let devices = audio_devices(&infos);
    assert_eq!(devices.len(), 2);
    assert_eq!((devices[0].index, devices[0].name.as_str()), (0, "A"));
    assert_eq!((devices[1].index, devices[1].name.as_str()), (5, "B"));
}

#[test]
fn drain_step_delivers_waits_and_exits() {
    let mut ring = SampleRing::new();
    assert!(matches!(drain_step(false, &mut ring), DrainAction::Wait));
    ring.push_slice(&[1, 2, 3]);
    assert!(matches!(drain_step(true, &mut ring), DrainAction::Exit));
    assert_eq!(ring.occupied_len(), 3);
    match drain_step(false, &mut ring) {
        DrainAction::Deliver(samples) => assert_eq!(samples, vec![1, 2, 3]),
        other => panic!("unexpected {other:?}"),
    }
    assert_eq!(ring.occupied_len(), 0);
    assert!(matches!(drain_step(false, &mut ring), DrainAction::Wait));
}

#[test]
fn drain_step_batch_is_at_most_the_capacity() {
    let mut ring = SampleRing::new();
    let many: Vec<i16> = vec![3; 40_000];
    assert_eq!(ring.push_slice(&many), 32_000);
    match drain_step(false, &mut ring) {
        DrainAction::Deliver(samples) => assert_eq!(samples.len(), 32_000),
        other => panic!("unexpected {other:?}"),
    }
}
