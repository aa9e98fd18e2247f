use radiance::effect_node::{
    bind_groups_up_to_date, build_channel_slots, build_pass_output_indices, effect_source_name,
    missing_paint_states, next_phase, plan_passes, resolve_input_count, retain_paint_states, write_back_props, validate_props_update, AnimationMode, EffectNodeState,
    PassPlan,
};

#[test]
fn pass_output_indices_for_one_two_three_textures() {
    assert_eq!(build_pass_output_indices(1), Vec::<usize>::new());
    assert_eq!(build_pass_output_indices(2), vec![1, 0]);
    assert_eq!(build_pass_output_indices(3), vec![2, 1, 0, 2, 1, 0]);
}

#[test]
fn pass_output_indices_follow_the_formula() {
    for t in 1..8usize {
        let outs = build_pass_output_indices(t);
        let c = t - 1;
        assert_eq!(outs.len(), t * c);
        for p in 0..t {
            for k in 0..c {
                assert_eq!(outs[p * c + k], (p + c - k) % t);
            }
        }
    }
}

#[test]
fn channel_slots_for_three_textures() {
    let slots = build_channel_slots(3);
    assert_eq!(slots, vec![vec![0, 1], vec![0, 2], vec![1, 2], vec![1, 0], vec![2, 0], vec![2, 1]]);
    assert_eq!(build_channel_slots(1), Vec::<Vec<usize>>::new());
}

#[test]
fn no_pass_reads_the_texture_it_writes() {
    for t in 1..9usize {
        let outs = build_pass_output_indices(t);
        let slots = build_channel_slots(t);
        for (out, bound) in outs.iter().zip(slots.iter()) {
            assert!(!bound.contains(out));
        }
    }
}

#[test]
fn channels_read_their_latest_render() {
    let t = 4usize;
    let c = t - 1;
    let outs = build_pass_output_indices(t);
    let slots = build_channel_slots(t);
    for p in 0..t {
        let prev = (p + t - 1) % t;
        for k in 0..c {
            for j in 0..c {
                let kj = c - 1 - j; // the pass that renders channel j
                let expected = if kj < k { outs[p * c + kj] } else { outs[prev * c + kj] };
                assert_eq!(slots[p * c + k][j], expected);
            }
        }
    }
}

#[test]
fn last_pass_writes_the_next_phase_texture() {
    for t in 2..8usize {
        let c = t - 1;
        let outs = build_pass_output_indices(t);
        for p in 0..t {
            assert_eq!(outs[p * c + c - 1], next_phase(p, t));
        }
    }
}

#[test]
fn phases_cycle() {
    assert_eq!(next_phase(0, 3), 1);
    assert_eq!(next_phase(2, 3), 0);
    assert_eq!(next_phase(0, 1), 0);
}

#[test]
fn planned_passes_render_channels_in_reverse() {
    let outs = build_pass_output_indices(3);
    let plan = plan_passes(&outs, 1, 2);
    assert_eq!(
        plan,
        vec![
            PassPlan { channel: 1, table_index: 2, output_texture: 0 },
            PassPlan { channel: 0, table_index: 3, output_texture: 2 },
        ]
    );
    assert_eq!(plan_passes(&vec![], 0, 0), Vec::<PassPlan>::new());
}

#[test]
fn bind_group_cache() {
    assert!(bind_groups_up_to_date(&vec![1, 2], &vec![1, 2], 4));
    assert!(!bind_groups_up_to_date(&vec![1, 2], &vec![1, 2], 0));
    assert!(!bind_groups_up_to_date(&vec![1, 2], &vec![2, 1], 4));
    assert!(!bind_groups_up_to_date(&vec![1], &vec![1, 2], 4));
}

#[test]
fn shader_file_name() {
    assert_eq!(effect_source_name(&"purple".to_string()), "purple.wgsl");
}

#[test]
fn input_count_from_shader() {
    assert_eq!(resolve_input_count(None, 2), Ok(2));
    assert_eq!(resolve_input_count(Some(2), 2), Ok(2));
    assert_eq!(
        resolve_input_count(Some(1), 2),
        Err("Shader input count does not match input count declared in graph".to_string())
    );
}

#[test]
fn props_updates() {
    let name = "droste".to_string();
    assert_eq!(validate_props_update(&name, 1, &name, None), Ok(()));
    assert_eq!(validate_props_update(&name, 1, &name, Some(1)), Ok(()));
    assert_eq!(
        validate_props_update(&name, 1, &name, Some(2)),
        Err("EffectNode input_count changed after construction".to_string())
    );
    assert_eq!(
        validate_props_update(&name, 1, &"zoomin".to_string(), Some(1)),
        Err("EffectNode name changed after construction".to_string())
    );
}

#[test]
fn animation_defaults_to_none() {
    assert_eq!(AnimationMode::default(), AnimationMode::NoAnimation);
}

#[test]
fn effect_state_transitions() {
    let ready: EffectNodeState<u32> = EffectNodeState::from_setup(Ok(7));
    assert!(ready.is_ready());
    let still = ready.after_update_check(Ok(()));
    assert!(matches!(still, EffectNodeState::Ready(7)));
    let failed = still.after_update_check(Err("EffectNode name changed after construction".to_string()));
    match &failed {
        EffectNodeState::Error_(msg) => assert_eq!(msg, "EffectNode name changed after construction"),
        _ => panic!("expected an error state"),
    }
    assert!(!failed.is_ready());
    let broken: EffectNodeState<u32> = EffectNodeState::from_setup(Err("bad shader".to_string()));
    assert!(matches!(broken, EffectNodeState::Error_(ref m) if m == "bad shader"));
    let untouched: EffectNodeState<u32> = EffectNodeState::Uninitialized.after_update_check(Err("x".to_string()));
    assert!(matches!(untouched, EffectNodeState::Uninitialized));
}

#[test]
fn passes_of_a_phase_write_different_textures() {
    for t in 1..8usize {
        let c = t - 1;
        let outs = build_pass_output_indices(t);
        for p in 0..t {
            let mut seen = outs[p * c..p * c + c].to_vec();
            seen.sort();
            seen.dedup();
            assert_eq!(seen.len(), c);
            // The texture of the current phase is the one left unwritten.
            assert!(!outs[p * c..p * c + c].contains(&p));
        }
    }
}

#[test]
fn paint_states_follow_the_render_targets() {
    let states = vec![(1u128, "one"), (2u128, "two"), (3u128, "three")];
    let targets = vec![3u128, 4, 1];
    let kept = retain_paint_states(states, &targets);
    assert_eq!(kept, vec![(1u128, "one"), (3u128, "three")]);
    assert_eq!(missing_paint_states(&kept, &targets), vec![4u128]);
    let none: Vec<(u128, &str)> = Vec::new();
    assert_eq!(missing_paint_states(&none, &targets), vec![3u128, 4, 1]);
    assert!(retain_paint_states(vec![(7u128, "x")], &Vec::new()).is_empty());
}

#[test]
fn props_report_the_ready_name_and_input_count() {
    let mut name = "old.wgsl".to_string();
    let mut input_count = None;
    write_back_props(&"purple.wgsl".to_string(), 2, &mut name, &mut input_count);
    assert_eq!(name, "purple.wgsl");
    assert_eq!(input_count, Some(2));
}
