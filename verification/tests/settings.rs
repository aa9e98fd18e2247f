use radiance::audio_input::{AudioInputDevice, InputDeviceKind};
use radiance::settings::{
    devices_of_kind, env_var_truthy, parse_usize_exec, report_interval, requested_input_for_label,
    requested_source_for_label, restore_sync_input_device, selected_sync_input_label,
    sources_by_monitor, sync_input_pick, after_sync_input_switch, AppSettings,
};
use radiance::system_audio::SystemAudioSource;

fn device(name: &str) -> AudioInputDevice {
    AudioInputDevice::from_name(name.to_string())
}

#[test]
fn sync_input_labels() {
    assert_eq!(selected_sync_input_label(None), "Default input");
    assert_eq!(selected_sync_input_label(Some("USB Mic")), "USB Mic");
}

#[test]
fn picking_a_label_asks_for_that_input() {
    assert_eq!(requested_input_for_label(&"Default input".to_string()), None);
    assert_eq!(requested_input_for_label(&"USB Mic".to_string()), Some("USB Mic".to_string()));
    // The label of an input asks for the same input again.
    let label = selected_sync_input_label(Some("USB Mic"));
    assert_eq!(requested_input_for_label(&label), Some("USB Mic".to_string()));
    let label = selected_sync_input_label(None);
    assert_eq!(requested_input_for_label(&label), None);
}

#[test]
fn picking_a_source_label() {
    assert_eq!(requested_source_for_label("System default source"), None);
    assert_eq!(requested_source_for_label("x.monitor"), Some("x.monitor"));
}

#[test]
fn restoring_the_saved_input() {
    let devices = vec![device("Built-in Microphone"), device("BlackHole 2ch")];
    let saved = AppSettings { sync_input_device_name: Some("BlackHole 2ch".to_string()) };
    assert_eq!(restore_sync_input_device(&saved, &devices), Some("BlackHole 2ch".to_string()));
    let gone = AppSettings { sync_input_device_name: Some("Unplugged".to_string()) };
    assert_eq!(restore_sync_input_device(&gone, &devices), None);
    assert_eq!(restore_sync_input_device(&AppSettings::default(), &devices), None);
}

#[test]
fn grouping_devices_by_kind() {
    let devices = vec![device("Mic A"), device("Monitor 1"), device("mic"), device("HDMI")];
    let mics: Vec<&str> = devices_of_kind(&devices, InputDeviceKind::Microphone).iter().map(|d| d.name.as_str()).collect();
    assert_eq!(mics, vec!["Mic A", "mic"]);
    let loops: Vec<&str> = devices_of_kind(&devices, InputDeviceKind::Loopback).iter().map(|d| d.name.as_str()).collect();
    assert_eq!(loops, vec!["Monitor 1"]);
    let others: Vec<&str> = devices_of_kind(&devices, InputDeviceKind::Other).iter().map(|d| d.name.as_str()).collect();
    assert_eq!(others, vec!["HDMI"]);
}

#[test]
fn grouping_sources() {
    let sources = vec![
        SystemAudioSource { name: "a".to_string(), label: "A".to_string(), is_monitor: true },
        SystemAudioSource { name: "b".to_string(), label: "B".to_string(), is_monitor: false },
        SystemAudioSource { name: "c".to_string(), label: "C".to_string(), is_monitor: true },
    ];
    let monitors: Vec<&str> = sources_by_monitor(&sources, true).iter().map(|s| s.name.as_str()).collect();
    assert_eq!(monitors, vec!["a", "c"]);
    let others: Vec<&str> = sources_by_monitor(&sources, false).iter().map(|s| s.name.as_str()).collect();
    assert_eq!(others, vec!["b"]);
}

#[test]
fn truthy_values() {
    assert!(env_var_truthy(Some("1")));
    assert!(env_var_truthy(Some(" TRUE \n")));
    assert!(env_var_truthy(Some("Yes")));
    assert!(env_var_truthy(Some("on")));
    assert!(!env_var_truthy(Some("0")));
    assert!(!env_var_truthy(Some("enabled")));
    assert!(!env_var_truthy(Some("")));
    assert!(!env_var_truthy(None));
}

#[test]
fn parsing_counts() {
    assert_eq!(parse_usize_exec("16"), Some(16));
    assert_eq!(parse_usize_exec("+5"), Some(5));
    assert_eq!(parse_usize_exec("007"), Some(7));
    assert_eq!(parse_usize_exec("18446744073709551615"), Some(usize::MAX));
    assert_eq!(parse_usize_exec("18446744073709551616"), None);
    assert_eq!(parse_usize_exec(""), None);
    assert_eq!(parse_usize_exec("+"), None);
    assert_eq!(parse_usize_exec("-1"), None);
    assert_eq!(parse_usize_exec(" 4"), None);
    assert_eq!(parse_usize_exec("4x"), None);
}

#[test]
fn report_intervals() {
    assert_eq!(report_interval(None), 240);
    assert_eq!(report_interval(Some("60")), 60);
    assert_eq!(report_interval(Some("0")), 240);
    assert_eq!(report_interval(Some("sixty")), 240);
}

#[test]
fn picking_in_the_sync_input_list() {
    let shown = "USB Mic".to_string();
    assert_eq!(sync_input_pick(&shown, &"USB Mic".to_string()), None);
    assert_eq!(
        sync_input_pick(&shown, &"BlackHole 2ch".to_string()),
        Some(Some("BlackHole 2ch".to_string()))
    );
    assert_eq!(sync_input_pick(&shown, &"Default input".to_string()), Some(None));
    let default_shown = "Default input".to_string();
    assert_eq!(sync_input_pick(&default_shown, &"Default input".to_string()), None);
}

#[test]
fn after_switching_the_sync_input() {
    let (label, saved) = after_sync_input_switch(Some("USB Mic"));
    assert_eq!(label, "USB Mic");
    assert_eq!(saved.sync_input_device_name, Some("USB Mic".to_string()));
    let (label, saved) = after_sync_input_switch(None);
    assert_eq!(label, "Default input");
    assert_eq!(saved.sync_input_device_name, None);
}

#[test]
fn sync_input_label_follows_a_pick() {
    // Shown label is that of the input in use; a pick that the switch honours
    // shows the picked label afterwards.
    let shown = selected_sync_input_label(Some("USB Mic"));
    let picked = "Default input".to_string();
    let request = sync_input_pick(&shown, &picked).unwrap();
    let (label, _) = after_sync_input_switch(request.as_deref());
    assert_eq!(label, picked);
    let picked = "BlackHole 2ch".to_string();
    let request = sync_input_pick(&label, &picked).unwrap();
    let (label, _) = after_sync_input_switch(request.as_deref());
    assert_eq!(label, picked);
}
