use radiance::nodes::{
    clamp_flow_config, effect_common_props, first_input_or_blank, ui_bg_common_props,
    AutoDJFlowConfig, AutoDJFlowNodeProps, AutoDJFlowNodeState, AutoDJScene, AutoDJTiming,
    UiBgNodeState,
};

fn config(min: usize, max: usize, scenes: usize, active: usize) -> AutoDJFlowConfig {
    AutoDJFlowConfig {
        enabled: true,
        timing: AutoDJTiming { stable_timer_min: min, stable_timer_max: max, crossfade_timer: 30 },
        scenes: (0..scenes).map(|i| AutoDJScene { name: format!("scene {}", i) }).collect(),
        active_scene: active,
    }
}

#[test]
fn flow_config_is_kept_consistent() {
    let mut c = config(500, 100, 3, 7);
    clamp_flow_config(&mut c);
    assert_eq!(c.timing.stable_timer_max, 500);
    assert_eq!(c.active_scene, 2);
    assert_eq!(c.timing.crossfade_timer, 30);
    let mut ok = config(100, 500, 3, 1);
    clamp_flow_config(&mut ok);
    assert_eq!((ok.timing.stable_timer_max, ok.active_scene), (500, 1));
    let mut empty = config(1, 1, 0, 4);
    clamp_flow_config(&mut empty);
    assert_eq!(empty.active_scene, 4);
}

#[test]
fn clamping_twice_changes_nothing_more() {
    let mut c = config(500, 100, 3, 7);
    clamp_flow_config(&mut c);
    let once = (c.timing.stable_timer_max, c.active_scene);
    clamp_flow_config(&mut c);
    assert_eq!((c.timing.stable_timer_max, c.active_scene), once);
}

#[test]
fn pass_through_nodes_paint_their_first_input() {
    let blank = "blank".to_string();
    assert_eq!(first_input_or_blank(&[Some("a".to_string()), Some("b".to_string())], &blank), "a");
    assert_eq!(first_input_or_blank(&[None, Some("b".to_string())], &blank), "blank");
    assert_eq!(first_input_or_blank::<String>(&[], &blank), "blank");
    let props = AutoDJFlowNodeProps { config: config(1, 2, 0, 0) };
    let mut state = AutoDJFlowNodeState::new(&props);
    assert_eq!(state.paint(&[Some(5u32)], &0), 5);
    let mut bg = UiBgNodeState::new();
    assert_eq!(bg.paint::<u32>(&[None], &0), 0);
}

#[test]
fn common_props() {
    let props = AutoDJFlowNodeProps { config: config(1, 2, 0, 0) };
    assert_eq!(props.common_props().input_count, Some(1));
    assert_eq!(ui_bg_common_props().input_count, Some(1));
    assert_eq!(effect_common_props(Some(3)).input_count, Some(3));
    assert_eq!(effect_common_props(None).input_count, None);
}
