use radiance::audio_input::{
    device_name_or_default, input_devices_from_names, next_input_step, start_input,
    AudioInputDevice, InputDeviceKind, InputStep,
};
use radiance::capture::{
    choose_input_config, downmix_i16, downmix_u16, fixed_buffer_size, BufferSizeRange,
    InputConfigRange, SampleFormatKind,
};

#[test]
fn classify_microphones() {
    assert_eq!(InputDeviceKind::classify("Built-in Microphone"), InputDeviceKind::Microphone);
    assert_eq!(InputDeviceKind::classify("USB Mic Array"), InputDeviceKind::Microphone);
    assert_eq!(InputDeviceKind::classify("mic"), InputDeviceKind::Microphone);
    assert_eq!(InputDeviceKind::classify("MIC"), InputDeviceKind::Microphone);
    assert_eq!(InputDeviceKind::classify("Logitech Webcam C920"), InputDeviceKind::Microphone);
    assert_eq!(InputDeviceKind::classify("Built in Input"), InputDeviceKind::Microphone);
    assert_eq!(InputDeviceKind::classify("Jabra Headset"), InputDeviceKind::Microphone);
}

#[test]
fn classify_loopback_inputs() {
    assert_eq!(
        InputDeviceKind::classify("Monitor of Built-in Audio Analog Stereo"),
        InputDeviceKind::Loopback
    );
    assert_eq!(InputDeviceKind::classify("BlackHole 2ch"), InputDeviceKind::Loopback);
    assert_eq!(InputDeviceKind::classify("Stereo Mix (Realtek Audio)"), InputDeviceKind::Loopback);
    assert_eq!(InputDeviceKind::classify("CABLE Output (VB-Audio Virtual Cable)"), InputDeviceKind::Loopback);
    assert_eq!(InputDeviceKind::classify("What U Hear"), InputDeviceKind::Loopback);
}

#[test]
fn classify_loopback_wins_over_microphone() {
    // A name with both kinds of keyword is a loopback input.
    assert_eq!(InputDeviceKind::classify("Microphone monitor"), InputDeviceKind::Loopback);
}

#[test]
fn classify_others() {
    assert_eq!(InputDeviceKind::classify("HDMI"), InputDeviceKind::Other);
    assert_eq!(InputDeviceKind::classify(""), InputDeviceKind::Other);
    // "mic" only counts as a whole name or next to a space.
    assert_eq!(InputDeviceKind::classify("Micro Dock"), InputDeviceKind::Other);
    assert_eq!(InputDeviceKind::classify("Dynamic"), InputDeviceKind::Other);
}

#[test]
fn from_name_keeps_the_name() {
    let d = AudioInputDevice::from_name("USB Microphone".to_string());
    assert_eq!(d.name, "USB Microphone");
    assert_eq!(d.kind, InputDeviceKind::Microphone);
}

#[test]
fn devices_are_ordered_by_kind_then_name() {
    let names = vec![
        "zeta Monitor".to_string(),
        "HDMI".to_string(),
        "USB Microphone".to_string(),
        "BlackHole".to_string(),
        "analog Mic ".to_string(),
        "aux".to_string(),
    ];
    let devices = input_devices_from_names(names);
    let got: Vec<&str> = devices.iter().map(|d| d.name.as_str()).collect();
    assert_eq!(got, vec!["analog Mic ", "USB Microphone", "BlackHole", "zeta Monitor", "aux", "HDMI"]);
}

#[test]
fn devices_of_equal_rank_keep_their_order() {
    let names = vec!["Aux".to_string(), "aux".to_string(), "AUX".to_string()];
    let devices = input_devices_from_names(names);
    let got: Vec<&str> = devices.iter().map(|d| d.name.as_str()).collect();
    assert_eq!(got, vec!["Aux", "aux", "AUX"]);
}

#[test]
fn default_input_name() {
    assert_eq!(device_name_or_default(&None), "Default input");
    assert_eq!(device_name_or_default(&Some("USB".to_string())), "USB");
}

#[test]
fn requested_input_opens() {
    let step = next_input_step(start_input(Some("USB".to_string())), true);
    assert_eq!(step, InputStep::Ready { selected: Some("USB".to_string()), streaming: true });
}

#[test]
fn failed_input_falls_back_to_default() {
    let step = next_input_step(start_input(Some("USB".to_string())), false);
    assert_eq!(step, InputStep::Open { device: None });
    let done = next_input_step(step, true);
    assert_eq!(done, InputStep::Ready { selected: None, streaming: true });
}

#[test]
fn no_input_at_all() {
    let step = next_input_step(start_input(Some("USB".to_string())), false);
    let done = next_input_step(step, false);
    assert_eq!(done, InputStep::Ready { selected: None, streaming: false });
    let direct = next_input_step(start_input(None), false);
    assert_eq!(direct, InputStep::Ready { selected: None, streaming: false });
    // A finished choice stays as it is.
    assert_eq!(next_input_step(direct.clone(), true), direct);
}

fn config(format: SampleFormatKind, min_rate: u32, max_rate: u32, buffer: BufferSizeRange, channels: u16) -> InputConfigRange {
    InputConfigRange { sample_format: format, min_sample_rate: min_rate, max_sample_rate: max_rate, buffer_size: buffer, channels }
}

#[test]
fn chooses_smallest_usable_buffer() {
    let configs = vec![
        config(SampleFormatKind::F32, 44100, 48000, BufferSizeRange::Unknown, 2),
        config(SampleFormatKind::Other, 8000, 96000, BufferSizeRange::Range { min: 16, max: 4096 }, 2),
        config(SampleFormatKind::I16, 8000, 96000, BufferSizeRange::Range { min: 512, max: 4096 }, 2),
        config(SampleFormatKind::U16, 8000, 96000, BufferSizeRange::Range { min: 64, max: 4096 }, 1),
        config(SampleFormatKind::I16, 8000, 96000, BufferSizeRange::Range { min: 128, max: 4096 }, 2),
    ];
    // The last two both run with 256 frames; the first of them wins.
    assert_eq!(choose_input_config(&configs, 44100), Some(3));
}

#[test]
fn rejects_unusable_configs() {
    let configs = vec![
        config(SampleFormatKind::I16, 8000, 22050, BufferSizeRange::Unknown, 2),
        config(SampleFormatKind::I16, 8000, 96000, BufferSizeRange::Range { min: 16, max: 128 }, 2),
        config(SampleFormatKind::I16, 8000, 96000, BufferSizeRange::Unknown, 0),
        config(SampleFormatKind::Other, 8000, 96000, BufferSizeRange::Unknown, 2),
    ];
    assert_eq!(choose_input_config(&configs, 44100), None);
    assert_eq!(choose_input_config(&vec![], 44100), None);
}

#[test]
fn unknown_buffer_ranks_8192() {
    let configs = vec![
        config(SampleFormatKind::F32, 8000, 96000, BufferSizeRange::Unknown, 2),
        config(SampleFormatKind::F32, 8000, 96000, BufferSizeRange::Range { min: 4096, max: 16384 }, 2),
    ];
    assert_eq!(choose_input_config(&configs, 44100), Some(1));
}

#[test]
fn fixed_buffer_sizes() {
    assert_eq!(fixed_buffer_size(&BufferSizeRange::Range { min: 16, max: 4096 }), Some(256));
    assert_eq!(fixed_buffer_size(&BufferSizeRange::Range { min: 1024, max: 4096 }), Some(1024));
    assert_eq!(fixed_buffer_size(&BufferSizeRange::Unknown), None);
}

#[test]
fn downmix_i16_averages_frames() {
    assert_eq!(downmix_i16(&[1, 2, 3, 4, 5], 2), vec![1, 3, 2]);
    assert_eq!(downmix_i16(&[-3, 0], 2), vec![-1]);
    assert_eq!(downmix_i16(&[-32768, -32768, 32767, 32767], 2), vec![-32768, 32767]);
    assert_eq!(downmix_i16(&[7, -7, 9], 1), vec![7, -7, 9]);
    assert_eq!(downmix_i16(&[], 2), Vec::<i16>::new());
}

#[test]
fn downmix_u16_centres_on_zero() {
    assert_eq!(downmix_u16(&[0, 65535], 2), vec![-1]);
    assert_eq!(downmix_u16(&[32768, 32768, 65535, 65535], 2), vec![0, 32767]);
    assert_eq!(downmix_u16(&[0], 1), vec![-32768]);
    // The last, shorter frame is still divided by the channel count.
    assert_eq!(downmix_u16(&[65535, 65535, 65535], 2), vec![32767, -1]);
}
