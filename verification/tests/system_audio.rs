use radiance::system_audio::{
    advance_capture_routing, available_system_audio_sources, current_radiance_source_output_id,
    default_system_audio_source_name, label_for_system_source, move_radiance_capture_to_system_source,
    selected_source_after_routing, selected_system_source_label, CaptureRouting, SystemAudioSource,
};

#[test]
fn labels_of_sources() {
    assert_eq!(
        label_for_system_source("alsa_output.usb-Focusrite_Scarlett-00.HiFi__Line1__sink.monitor"),
        "Line1 monitor"
    );
    assert_eq!(
        label_for_system_source("alsa_input.pci-0000_00_1f.3.analog-stereo"),
        "alsa input.pci-0000 00 1f.3.analog-stereo"
    );
    assert_eq!(label_for_system_source("a__Built_in_Mic__source"), "Built in Mic");
    assert_eq!(label_for_system_source("x.monitor.monitor"), "x monitor");
    assert_eq!(label_for_system_source(""), "");
}

const SOURCES: &str = "52\talsa_output.pci.analog-stereo.monitor\tPipeWire\ts32le 2ch 48000Hz\tSUSPENDED\n\
53\talsa_input.usb-Blue__Yeti__source\tPipeWire\ts16le 2ch 48000Hz\tRUNNING\r\n\
\n\
54   bluez.Headset__Speaker__sink.monitor   PipeWire\n\
lonely\n";

#[test]
fn sources_from_listing() {
    let sources = available_system_audio_sources(Ok(SOURCES.to_string()));
    let got: Vec<(&str, &str, bool)> = sources
        .iter()
        .map(|s| (s.name.as_str(), s.label.as_str(), s.is_monitor))
        .collect();
    assert_eq!(
        got,
        vec![
            ("alsa_output.pci.analog-stereo.monitor", "alsa output.pci.analog-stereo monitor", true),
            ("bluez.Headset__Speaker__sink.monitor", "Speaker monitor", true),
            ("alsa_input.usb-Blue__Yeti__source", "Yeti", false),
        ]
    );
}

#[test]
fn failed_listing_gives_no_sources() {
    assert!(available_system_audio_sources(Err("pactl missing".to_string())).is_empty());
    assert!(available_system_audio_sources(Ok(String::new())).is_empty());
}

const OUTPUTS: &str = "Source Output #12\n\tDriver: PipeWire\n\tProperties:\n\t\tapplication.name = \"Firefox\"\n\n\
Source Output #87 \n\tDriver: PipeWire\n\tProperties:\n\t\tnode.name = \"alsa_capture.radiance\"\n";

#[test]
fn output_id_of_this_program() {
    assert_eq!(current_radiance_source_output_id(Ok(OUTPUTS.to_string())), Ok("87".to_string()));
}

#[test]
fn output_id_missing() {
    let listing = "Source Output #12\n\tapplication.name = \"Firefox\"\n".to_string();
    assert_eq!(
        current_radiance_source_output_id(Ok(listing)),
        Err("Could not find the active Radiance capture stream".to_string())
    );
    // A block of this program without the header is passed over.
    let headerless = "Properties:\n\tnode.name = \"alsa_capture.radiance\"\n\n\
Source Output #5\n\tapplication.name = \"PipeWire ALSA [radiance]\"\n".to_string();
    assert_eq!(current_radiance_source_output_id(Ok(headerless)), Ok("5".to_string()));
    assert_eq!(current_radiance_source_output_id(Err("boom".to_string())), Err("boom".to_string()));
}

#[test]
fn default_source_is_trimmed() {
    assert_eq!(
        default_system_audio_source_name(Ok("  alsa_input.usb-Yeti \n".to_string())),
        Ok("alsa_input.usb-Yeti".to_string())
    );
    assert_eq!(default_system_audio_source_name(Err("no pactl".to_string())), Err("no pactl".to_string()));
}

fn source(name: &str, label: &str, is_monitor: bool) -> SystemAudioSource {
    SystemAudioSource { name: name.to_string(), label: label.to_string(), is_monitor }
}

#[test]
fn label_of_selected_source() {
    let sources = vec![source("a", "Alpha", false), source("b", "Beta", true), source("a", "Again", false)];
    assert_eq!(selected_system_source_label("System default source", &sources), "System default source");
    assert_eq!(selected_system_source_label("a", &sources), "Alpha");
    assert_eq!(selected_system_source_label("zzz", &sources), "zzz");
}

#[test]
fn routing_to_a_named_source() {
    let step = move_radiance_capture_to_system_source(Some("sink.monitor"), true);
    assert_eq!(step, CaptureRouting::ListSourceOutputs { target: "sink.monitor".to_string() });
    let step = advance_capture_routing(step, Ok(OUTPUTS.to_string()));
    assert_eq!(
        step,
        CaptureRouting::MoveSourceOutput { output_id: "87".to_string(), target: "sink.monitor".to_string() }
    );
    let step = advance_capture_routing(step, Ok(String::new()));
    assert_eq!(step, CaptureRouting::Finished(Ok(Some("sink.monitor".to_string()))));
}

#[test]
fn routing_to_the_default_source() {
    let step = move_radiance_capture_to_system_source(None, true);
    assert_eq!(step, CaptureRouting::QueryDefaultSource);
    let step = advance_capture_routing(step, Ok("mic.source\n".to_string()));
    assert_eq!(step, CaptureRouting::ListSourceOutputs { target: "mic.source".to_string() });
}

#[test]
fn routing_failures() {
    assert_eq!(
        move_radiance_capture_to_system_source(Some("x"), false),
        CaptureRouting::Finished(Err("System source routing is only available on Linux".to_string()))
    );
    let step = advance_capture_routing(CaptureRouting::QueryDefaultSource, Err("no pactl".to_string()));
    assert_eq!(step, CaptureRouting::Finished(Err("no pactl".to_string())));
    let step = advance_capture_routing(
        CaptureRouting::ListSourceOutputs { target: "x".to_string() },
        Ok("nothing here".to_string()),
    );
    assert_eq!(
        step,
        CaptureRouting::Finished(Err("Could not find the active Radiance capture stream".to_string()))
    );
    let step = advance_capture_routing(
        CaptureRouting::MoveSourceOutput { output_id: "1".to_string(), target: "x".to_string() },
        Err("move failed".to_string()),
    );
    assert_eq!(step, CaptureRouting::Finished(Err("move failed".to_string())));
    let done = CaptureRouting::Finished(Ok(None));
    assert_eq!(advance_capture_routing(done, Ok(String::new())), CaptureRouting::Finished(Ok(None)));
}

#[test]
fn selection_after_routing_keeps_the_source_routed_to() {
    let routed: Result<Option<String>, String> = Ok(Some("a.monitor".to_string()));
    assert_eq!(selected_source_after_routing("old", &routed), "a.monitor");
    let to_default: Result<Option<String>, String> = Ok(None);
    assert_eq!(selected_source_after_routing("old", &to_default), "System default source");
    let failed: Result<Option<String>, String> = Err("pactl failed".to_string());
    assert_eq!(selected_source_after_routing("old", &failed), "old");
}
