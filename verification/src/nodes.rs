//! Nodes that pass their first input through: the Auto DJ flow node and the
//! UI background node, with the props that every node shares.
use vstd::prelude::*;

verus! {

/// Props that every kind of node has.
#[derive(Clone, Copy, Debug, PartialEq, Eq, Structural)]
pub struct CommonNodeProps {
    pub input_count: Option<u32>,
}

/// The timing of an Auto DJ flow, in frames.
#[derive(Clone, Copy, Debug, PartialEq, Eq, Structural)]
pub struct AutoDJTiming {
    pub stable_timer_min: usize,
    pub stable_timer_max: usize,
    pub crossfade_timer: usize,
}

/// A scene of an Auto DJ flow.
#[derive(Clone, Debug)]
pub struct AutoDJScene {
    pub name: String,
}

/// The configuration of an Auto DJ flow, as its node tile shows and edits it.
#[derive(Clone, Debug)]
pub struct AutoDJFlowConfig {
    pub enabled: bool,
    pub timing: AutoDJTiming,
    pub scenes: Vec<AutoDJScene>,
    pub active_scene: usize,
}

/// Properties of an AutoDJFlowNode.
#[derive(Clone, Debug)]
pub struct AutoDJFlowNodeProps {
    pub config: AutoDJFlowConfig,
}

/// The state of an AutoDJFlowNode: it keeps none.
pub struct AutoDJFlowNodeState {}

/// The state of a UiBgNode: it keeps none.
pub struct UiBgNodeState {}

impl AutoDJFlowNodeProps {
    /// The props an AutoDJFlowNode shares with every node: one input.
    pub fn common_props(&self) -> (r: CommonNodeProps)
        ensures
            r.input_count == Some(1u32),
    {
        CommonNodeProps { input_count: Some(1) }
    }
}

/// The props a UiBgNode shares with every node: one input.
pub fn ui_bg_common_props() -> (r: CommonNodeProps)
    ensures
        r.input_count == Some(1u32),
{
    CommonNodeProps { input_count: Some(1) }
}

/// The props an EffectNode shares with every node: its input count.
pub fn effect_common_props(input_count: Option<u32>) -> (r: CommonNodeProps)
    ensures
        r.input_count == input_count,
{
    CommonNodeProps { input_count }
}

/// Keeps an Auto DJ flow configuration consistent, as its tile does after
/// an edit: the longest stable time is at least the shortest, and the active
/// scene is one of the scenes when there are any.
pub fn clamp_flow_config(config: &mut AutoDJFlowConfig)
    ensures
        final(config).timing.stable_timer_min <= final(config).timing.stable_timer_max,
        final(config).scenes@.len() > 0 ==> final(config).active_scene < final(config).scenes@.len(),
        final(config).enabled == old(config).enabled,
        final(config).scenes@ == old(config).scenes@,
        final(config).timing.stable_timer_min == old(config).timing.stable_timer_min,
        final(config).timing.crossfade_timer == old(config).timing.crossfade_timer,
        final(config).timing.stable_timer_max == if old(config).timing.stable_timer_max
            < old(config).timing.stable_timer_min {
            old(config).timing.stable_timer_min
        } else {
            old(config).timing.stable_timer_max
        },
        final(config).active_scene == if old(config).scenes@.len() > 0
            && old(config).active_scene >= old(config).scenes@.len() {
            (old(config).scenes@.len() - 1) as usize
        } else {
            old(config).active_scene
        },
{
    if config.timing.stable_timer_max < config.timing.stable_timer_min {
        config.timing.stable_timer_max = config.timing.stable_timer_min;
    }
    if config.scenes.len() > 0 && config.active_scene >= config.scenes.len() {
        config.active_scene = config.scenes.len() - 1;
    }
}

/// What a pass-through node paints: a clone of its first input when it has
/// one, else a clone of the blank texture.
pub fn first_input_or_blank<T: Clone>(inputs: &[Option<T>], blank: &T) -> (r: T)
    ensures
        inputs@.len() > 0 && inputs@[0] is Some ==> cloned(inputs@[0]->0, r),
        !(inputs@.len() > 0 && inputs@[0] is Some) ==> cloned(*blank, r),
{
    if inputs.len() > 0 {
        match &inputs[0] {
            Some(t) => t.clone(),
            None => blank.clone(),
        }
    } else {
        blank.clone()
    }
}

impl AutoDJFlowNodeState {
    /// A new state for a node with props `_props`.
    pub fn new(_props: &AutoDJFlowNodeProps) -> Self {
        Self {  }
    }

    /// Updating the node changes neither it nor its props.
    pub fn update(&mut self, _props: &mut AutoDJFlowNodeProps)
        ensures
            final(_props).config.enabled == old(_props).config.enabled,
            final(_props).config.timing == old(_props).config.timing,
            final(_props).config.scenes@ == old(_props).config.scenes@,
            final(_props).config.active_scene == old(_props).config.active_scene,
    {
    }

    /// The node passes its first input through (see `first_input_or_blank`).
    pub fn paint<T: Clone>(&mut self, inputs: &[Option<T>], blank: &T) -> (r: T)
        ensures
            inputs@.len() > 0 && inputs@[0] is Some ==> cloned(inputs@[0]->0, r),
            !(inputs@.len() > 0 && inputs@[0] is Some) ==> cloned(*blank, r),
    {
        first_input_or_blank(inputs, blank)
    }
}

impl UiBgNodeState {
    /// A new state for a UI background node.
    pub fn new() -> Self {
        Self {  }
    }

    /// Updating the node changes nothing.
    pub fn update(&mut self) {
    }

    /// The node passes its first input through (see `first_input_or_blank`).
    pub fn paint<T: Clone>(&mut self, inputs: &[Option<T>], blank: &T) -> (r: T)
        ensures
            inputs@.len() > 0 && inputs@[0] is Some ==> cloned(inputs@[0]->0, r),
            !(inputs@.len() > 0 && inputs@[0] is Some) ==> cloned(*blank, r),
    {
        first_input_or_blank(inputs, blank)
    }
}

} // verus!
