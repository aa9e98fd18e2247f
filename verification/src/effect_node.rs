//! The bookkeeping of an effect node: its animation mode, the checks made
//! when its props are loaded or updated, and the ring of textures through
//! which its channels render.
//!
//! An effect with `C` channels owns `T = C + 1` textures. Each frame (a
//! "phase" `p`, with `0 <= p < T`) renders the channels in reverse order,
//! `C - 1` down to `0`; pass `k` renders channel `C - 1 - k`. While it
//! renders, a pass binds one texture per channel (`channel_slot`) and writes
//! into another one (`pass_output_index`).
use vstd::prelude::*;

verus! {

/// How an effect's intensity is animated.
#[derive(Clone, Copy, Debug, PartialEq, Eq, Structural)]
pub enum AnimationMode {
    NoAnimation,
    SineWave,
    BeatSync,
    Ramp,
}

impl Default for AnimationMode {
    fn default() -> (r: Self)
        ensures
            r == AnimationMode::NoAnimation,
    {
        AnimationMode::NoAnimation
    }
}

// ---------------------------------------------------------------------------
// The texture ring
// ---------------------------------------------------------------------------

/// The texture that pass `k` of phase `p` renders into, for an effect with
/// `t` textures: channel `c = t - 2 - k` renders into texture `(p + c + 1) % t`.
pub open spec fn pass_output_index(t: int, p: int, k: int) -> int {
    (p + (t - 1) - k) % t
}

/// The texture bound as channel `j` while pass `k` of phase `p` renders:
/// a channel already rendered in this phase (`j > c`) is read from where it
/// was just written, the others from where they were written last phase.
pub open spec fn channel_slot(t: int, p: int, k: int, j: int) -> int {
    let c = (t - 2) - k;
    if j <= c {
        (p + j) % t
    } else {
        (p + j + 1) % t
    }
}

/// The phase that follows phase `p`.
pub open spec fn spec_next_phase(t: int, p: int) -> int {
    (p + 1) % t
}

proof fn lemma_mul_index(p: int, c: int, k: int, t: int)
    requires
        0 <= p < t,
        0 <= k <= c,
    ensures
        0 <= p * c + k <= t * c,
        k < c ==> p * c + k < t * c,
        p * c + c <= t * c,
{
    assert(p * c + c <= t * c) by (nonlinear_arith)
        requires
            p + 1 <= t,
            0 <= c,
    ;
    assert(0 <= p * c) by (nonlinear_arith)
        requires
            0 <= p,
            0 <= c,
    ;
}

proof fn lemma_sum_fits(t: int)
    requires
        t >= 1,
        t * (t - 1) <= usize::MAX,
    ensures
        2 * t <= usize::MAX + 2,
{
    if t >= 3 {
        assert(t * (t - 1) >= 2 * t) by (nonlinear_arith)
            requires
                t >= 3,
        ;
    }
}

/// The output texture of every pass of every phase, in the order in which
/// the passes run: entry `p * (t - 1) + k` is the texture that pass `k` of
/// phase `p` writes.
pub fn build_pass_output_indices(texture_count: usize) -> (r: Vec<usize>)
    requires
        texture_count >= 1,
        texture_count * (texture_count - 1) <= usize::MAX,
    ensures
        r.len() == texture_count * (texture_count - 1),
        forall|p: int, k: int|
            0 <= p < texture_count && 0 <= k < texture_count - 1 ==> #[trigger] r@[p * (
            texture_count - 1) + k] == pass_output_index(texture_count as int, p, k),
{
    let t = texture_count;
    let channel_count = t - 1;
    let ghost c = channel_count as int;
    proof {
        lemma_sum_fits(t as int);
    }
    let mut pass_output_indices: Vec<usize> = Vec::with_capacity(t * channel_count);
    assert(0 * c == 0);
    for phase in 0..t
        invariant
            t == texture_count,
            channel_count == t - 1,
            c == channel_count,
            t >= 1,
            2 * t <= usize::MAX + 2,
            t * c <= usize::MAX,
            pass_output_indices.len() == phase * c,
            forall|p: int, k: int|
                0 <= p < phase && 0 <= k < c ==> #[trigger] pass_output_indices@[p * c + k]
                    == pass_output_index(t as int, p, k),
    {
        let mut slot_order: Vec<usize> = Vec::new();
        for offset in 0..t
            invariant
                t >= 1,
                phase < t,
                2 * t <= usize::MAX + 2,
                slot_order.len() == offset,
                forall|j: int| 0 <= j < offset ==> #[trigger] slot_order@[j] == (phase + j) % (t as int),
        {
            slot_order.push((phase + offset) % t);
        }
        proof {
            lemma_mul_index(phase as int, c, 0, t as int);
        }
        let ghost base = pass_output_indices@;
        let mut channel = channel_count;
        while channel > 0
            invariant
                t == texture_count,
                channel_count == t - 1,
                c == channel_count,
                phase < t,
                channel <= channel_count,
                slot_order.len() == t,
                phase * c + c <= t * c,
                t * c <= usize::MAX,
                base.len() == phase * c,
                pass_output_indices.len() == phase * c + (c - channel),
                pass_output_indices@.subrange(0, phase * c) == base,
                forall|j: int| 0 <= j < channel ==> #[trigger] slot_order@[j] == (phase + j) % (t as int),
                forall|j: int| channel <= j < c ==> #[trigger] slot_order@[j] == (phase + j + 1) % (t as int),
                slot_order@[c] == (phase + channel) % (t as int),
                forall|k: int|
                    0 <= k < c - channel ==> #[trigger] pass_output_indices@[phase * c + k]
                        == pass_output_index(t as int, phase as int, k),
            decreases channel,
        {
            let ch = channel - 1;
            let ghost k = c - channel;
            let out = slot_order[channel_count];
            pass_output_indices.push(out);
            assert(pass_output_indices@[phase * c + k] == pass_output_index(t as int, phase as int, k));
            let a = slot_order[ch];
            slot_order.set(ch, out);
            slot_order.set(channel_count, a);
            channel = ch;
            assert(pass_output_indices@.subrange(0, phase * c) == base);
        }
        proof {
            assert forall|p: int, k: int| 0 <= p < phase + 1 && 0 <= k < c implies #[trigger] pass_output_indices@[p * c + k]
                == pass_output_index(t as int, p, k) by {
                if p < phase {
                    lemma_mul_index(p, c, k, phase as int);
                    assert(pass_output_indices@[p * c + k] == base[p * c + k]);
                }
            }
            assert((phase + 1) * c == phase * c + c) by (nonlinear_arith);
        }
    }
    pass_output_indices
}

fn prefix_of(v: &Vec<usize>, n: usize) -> (r: Vec<usize>)
    requires
        n <= v.len(),
    ensures
        r@ == v@.subrange(0, n as int),
{
    let mut r: Vec<usize> = Vec::new();
    for i in 0..n
        invariant
            n <= v.len(),
            r@ == v@.subrange(0, i as int),
    {
        r.push(v[i]);
        assert(v@.subrange(0, i + 1) == v@.subrange(0, i as int).push(v@[i as int]));
    }
    r
}

/// The textures bound as channels by every pass of every phase, in the
/// order in which the passes run: entry `p * (t - 1) + k` lists, for each
/// channel `j`, the texture that pass `k` of phase `p` reads as channel `j`.
pub fn build_channel_slots(texture_count: usize) -> (r: Vec<Vec<usize>>)
    requires
        texture_count >= 1,
        texture_count * (texture_count - 1) <= usize::MAX,
    ensures
        r.len() == texture_count * (texture_count - 1),
        forall|p: int, k: int|
            0 <= p < texture_count && 0 <= k < texture_count - 1 ==> #[trigger] r@[p * (
            texture_count - 1) + k]@.len() == texture_count - 1,
        forall|p: int, k: int, j: int|
            0 <= p < texture_count && 0 <= k < texture_count - 1 && 0 <= j < texture_count - 1
                ==> #[trigger] r@[p * (texture_count - 1) + k]@[j] == channel_slot(
                texture_count as int,
                p,
                k,
                j,
            ),
{
    let t = texture_count;
    let channel_count = t - 1;
    let ghost c = channel_count as int;
    proof {
        lemma_sum_fits(t as int);
    }
    let mut slots: Vec<Vec<usize>> = Vec::with_capacity(t * channel_count);
    assert(0 * c == 0);
    for phase in 0..t
        invariant
            t == texture_count,
            channel_count == t - 1,
            c == channel_count,
            t >= 1,
            2 * t <= usize::MAX + 2,
            t * c <= usize::MAX,
            slots.len() == phase * c,
            forall|p: int, k: int|
                0 <= p < phase && 0 <= k < c ==> #[trigger] slots@[p * c + k]@.len() == c,
            forall|p: int, k: int, j: int|
                0 <= p < phase && 0 <= k < c && 0 <= j < c ==> #[trigger] slots@[p * c + k]@[j]
                    == channel_slot(t as int, p, k, j),
    {
        let mut slot_order: Vec<usize> = Vec::new();
        for offset in 0..t
            invariant
                t >= 1,
                phase < t,
                2 * t <= usize::MAX + 2,
                slot_order.len() == offset,
                forall|j: int| 0 <= j < offset ==> #[trigger] slot_order@[j] == (phase + j) % (t as int),
        {
            slot_order.push((phase + offset) % t);
        }
        proof {
            lemma_mul_index(phase as int, c, 0, t as int);
        }
        let ghost base = slots@;
        let mut channel = channel_count;
        while channel > 0
            invariant
                t == texture_count,
                channel_count == t - 1,
                c == channel_count,
                phase < t,
                channel <= channel_count,
                slot_order.len() == t,
                phase * c + c <= t * c,
                t * c <= usize::MAX,
                base.len() == phase * c,
                slots.len() == phase * c + (c - channel),
                slots@.subrange(0, phase * c) == base,
                forall|j: int| 0 <= j < channel ==> #[trigger] slot_order@[j] == (phase + j) % (t as int),
                forall|j: int| channel <= j < c ==> #[trigger] slot_order@[j] == (phase + j + 1) % (t as int),
                slot_order@[c] == (phase + channel) % (t as int),
                forall|k: int| 0 <= k < c - channel ==> #[trigger] slots@[phase * c + k]@.len() == c,
                forall|k: int, j: int|
                    0 <= k < c - channel && 0 <= j < c ==> #[trigger] slots@[phase * c + k]@[j]
                        == channel_slot(t as int, phase as int, k, j),
            decreases channel,
        {
            let ch = channel - 1;
            let ghost k = c - channel;
            let bound = prefix_of(&slot_order, channel_count);
            assert forall|j: int| 0 <= j < c implies #[trigger] bound@[j] == channel_slot(
                t as int,
                phase as int,
                k,
                j,
            ) by {
                assert(bound@[j] == slot_order@[j]);
            }
            slots.push(bound);
            let out = slot_order[channel_count];
            let a = slot_order[ch];
            slot_order.set(ch, out);
            slot_order.set(channel_count, a);
            channel = ch;
            assert(slots@.subrange(0, phase * c) == base);
        }
        proof {
            assert forall|p: int, k: int| 0 <= p < phase + 1 && 0 <= k < c implies #[trigger] slots@[p * c + k]@.len() == c by {
                if p < phase {
                    lemma_mul_index(p, c, k, phase as int);
                    assert(slots@[p * c + k] == base[p * c + k]);
                }
            }
            assert forall|p: int, k: int, j: int| 0 <= p < phase + 1 && 0 <= k < c && 0 <= j < c implies #[trigger] slots@[p * c + k]@[j]
                == channel_slot(t as int, p, k, j) by {
                if p < phase {
                    lemma_mul_index(p, c, k, phase as int);
                    assert(slots@[p * c + k] == base[p * c + k]);
                }
            }
            assert((phase + 1) * c == phase * c + c) by (nonlinear_arith);
        }
    }
    slots
}

/// The phase after `phase`: `(phase + 1) % texture_count`.
pub fn next_phase(phase: usize, texture_count: usize) -> (r: usize)
    requires
        texture_count > 0,
        phase < usize::MAX,
    ensures
        r as int == spec_next_phase(texture_count as int, phase as int),
        r < texture_count,
{
    (phase + 1) % texture_count
}

/// Whether the cached texture bind groups of a paint state can be used
/// again: the input textures are the ones they were made for, and there are
/// some.
pub fn bind_groups_up_to_date(
    input_texture_ids: &Vec<usize>,
    cached_input_texture_ids: &Vec<usize>,
    bind_group_count: usize,
) -> (r: bool)
    ensures
        r == (input_texture_ids@ == cached_input_texture_ids@ && bind_group_count > 0),
{
    if input_texture_ids.len() != cached_input_texture_ids.len() {
        return false;
    }
    for i in 0..input_texture_ids.len()
        invariant
            input_texture_ids.len() == cached_input_texture_ids.len(),
            forall|j: int| 0 <= j < i ==> input_texture_ids@[j] == cached_input_texture_ids@[j],
    {
        if input_texture_ids[i] != cached_input_texture_ids[i] {
            return false;
        }
    }
    assert(input_texture_ids@ == cached_input_texture_ids@);
    bind_group_count > 0
}

/// One render pass of a paint: the channel it renders, the entry of the
/// per-pass tables (bind groups, output indices) it uses, and the texture
/// it writes.
#[derive(Clone, Copy, Debug, PartialEq, Eq, Structural)]
pub struct PassPlan {
    pub channel: usize,
    pub table_index: usize,
    pub output_texture: usize,
}

/// The passes that a paint in phase `phase` runs, in order: the channels in
/// reverse order, each with its table entry `phase * channel_count + k` and
/// the output texture recorded there in `pass_output_indices`.
pub fn plan_passes(pass_output_indices: &Vec<usize>, phase: usize, channel_count: usize) -> (r: Vec<
    PassPlan,
>)
    requires
        pass_output_indices.len() == (channel_count + 1) * channel_count,
        phase < channel_count + 1,
    ensures
        r.len() == channel_count,
        forall|k: int|
            0 <= k < channel_count ==> {
                &&& #[trigger] r@[k].channel == channel_count - 1 - k
                &&& r@[k].table_index == phase * channel_count + k
                &&& r@[k].output_texture == pass_output_indices@[phase * channel_count + k]
            },
{
    let ghost c = channel_count as int;
    proof {
        lemma_mul_index(phase as int, c, 0, c + 1);
    }
    let mut r: Vec<PassPlan> = Vec::new();
    let mut pass_index: usize = 0;
    while pass_index < channel_count
        invariant
            pass_index <= channel_count,
            pass_output_indices.len() == (channel_count + 1) * channel_count,
            phase * c + c <= (c + 1) * c,
            c == channel_count,
            r.len() == pass_index,
            forall|k: int|
                0 <= k < pass_index ==> {
                    &&& #[trigger] r@[k].channel == channel_count - 1 - k
                    &&& r@[k].table_index == phase * channel_count + k
                    &&& r@[k].output_texture == pass_output_indices@[phase * channel_count + k]
                },
        decreases channel_count - pass_index,
    {
        let table_index = phase * channel_count + pass_index;
        let ghost before = r@;
        r.push(
            PassPlan {
                channel: channel_count - 1 - pass_index,
                table_index,
                output_texture: pass_output_indices[table_index],
            },
        );
        assert forall|k: int| 0 <= k < pass_index + 1 implies {
            &&& #[trigger] r@[k].channel == channel_count - 1 - k
            &&& r@[k].table_index == phase * channel_count + k
            &&& r@[k].output_texture == pass_output_indices@[phase * channel_count + k]
        } by {
            if k < pass_index {
                assert(r@[k] == before[k]);
            }
        }
        pass_index = pass_index + 1;
    }
    r
}

proof fn lemma_mod_window(t: int, a: int)
    requires
        t >= 1,
        0 <= a < 2 * t,
    ensures
        a % t == if a < t { a } else { a - t },
{
    if a < t {
        assert(a % t == a) by (nonlinear_arith)
            requires
                0 <= a < t,
        ;
    } else {
        assert(a % t == a - t) by (nonlinear_arith)
            requires
                t <= a < 2 * t,
        ;
    }
}

/// While a pass renders, none of the textures it reads as channels is the
/// texture it writes.
pub proof fn lemma_pass_never_reads_its_output(t: int, p: int, k: int, j: int)
    requires
        t >= 1,
        0 <= p < t,
        0 <= k < t - 1,
        0 <= j < t - 1,
    ensures
        channel_slot(t, p, k, j) != pass_output_index(t, p, k),
{
    let c = (t - 2) - k;
    lemma_mod_window(t, p + c + 1);
    if j <= c {
        lemma_mod_window(t, p + j);
    } else {
        lemma_mod_window(t, p + j + 1);
    }
}

/// Each channel is read where it was last written: where its own pass wrote
/// it in this phase if that pass has already run, otherwise where it was
/// written in the previous phase.
pub proof fn lemma_channels_read_latest(t: int, p: int, k: int, j: int)
    requires
        t >= 1,
        0 <= p < t,
        0 <= k < t - 1,
        0 <= j < t - 1,
    ensures
        ((t - 2) - j < k) ==> channel_slot(t, p, k, j) == pass_output_index(t, p, (t - 2) - j),
        ((t - 2) - j >= k) ==> channel_slot(t, p, k, j) == pass_output_index(
            t,
            (p + t - 1) % t,
            (t - 2) - j,
        ),
{
    lemma_mod_window(t, p + t - 1);
    let q = (p + t - 1) % t;
    lemma_mod_window(t, q + j + 1);
    lemma_mod_window(t, p + j);
}

/// The last pass of a phase writes the texture of the next phase, the one
/// that the paint hands on.
pub proof fn lemma_last_pass_writes_next_phase(t: int, p: int)
    requires
        t >= 2,
        0 <= p < t,
    ensures
        pass_output_index(t, p, t - 2) == spec_next_phase(t, p),
{
}

/// The texture a paint handed on (that of the phase it moved to) is not
/// written by the next paint, which runs in that phase.
pub proof fn lemma_handed_on_texture_kept(t: int, p: int, k: int)
    requires
        t >= 1,
        0 <= p < t,
        0 <= k < t - 1,
    ensures
        pass_output_index(t, p, k) != p,
{
    lemma_mod_window(t, p + (t - 1) - k);
}

/// The passes of one phase all write different textures.
pub proof fn lemma_pass_outputs_distinct(t: int, p: int, k1: int, k2: int)
    requires
        t >= 1,
        0 <= p < t,
        0 <= k1 < t - 1,
        0 <= k2 < t - 1,
        k1 != k2,
    ensures
        pass_output_index(t, p, k1) != pass_output_index(t, p, k2),
{
    lemma_mod_window(t, p + (t - 1) - k1);
    lemma_mod_window(t, p + (t - 1) - k2);
}

// ---------------------------------------------------------------------------
// The node's state
// ---------------------------------------------------------------------------

/// The state of an effect node: not set up yet, ready with the resources
/// `R` it renders with, or failed with a message (it then passes its first
/// input through).
pub enum EffectNodeState<R> {
    Uninitialized,
    Ready(R),
    Error_(String),
}

impl<R> EffectNodeState<R> {
    /// The state after setting the effect up: ready, or failed with the
    /// setup's error.
    pub fn from_setup(setup: Result<R, String>) -> (r: Self)
        ensures
            match setup {
                Ok(ready) => r == EffectNodeState::Ready(ready),
                Err(e) => r == EffectNodeState::<R>::Error_(e),
            },
    {
        match setup {
            Ok(ready) => EffectNodeState::Ready(ready),
            Err(e) => EffectNodeState::Error_(e),
        }
    }

    /// The state after an update of a ready effect was checked (see
    /// `validate_props_update`): a refused update leaves the effect failed
    /// with the check's message; otherwise nothing changes.
    pub fn after_update_check(self, check: Result<(), String>) -> (r: Self)
        ensures
            (self is Ready && check is Err) ==> r == EffectNodeState::<R>::Error_(check->Err_0),
            !(self is Ready && check is Err) ==> r == self,
    {
        match self {
            EffectNodeState::Ready(ready) => match check {
                Ok(()) => EffectNodeState::Ready(ready),
                Err(e) => EffectNodeState::Error_(e),
            },
            other => other,
        }
    }

    /// Whether the effect renders (else it passes its first input through).
    pub fn is_ready(&self) -> (r: bool)
        ensures
            r == (*self is Ready),
    {
        match self {
            EffectNodeState::Ready(_) => true,
            _ => false,
        }
    }
}

// ---------------------------------------------------------------------------
// Props checks
// ---------------------------------------------------------------------------

/// The library file that holds the shader of the effect `name`: `name.wgsl`.
pub fn effect_source_name(name: &String) -> (r: String)
    ensures
        r@ == name@ + ".wgsl"@,
{
    let mut r = name.clone();
    r.append(".wgsl");
    r
}

/// The input count of an effect once its shader is loaded: the shader's own
/// count, which a count declared in the graph must match.
pub fn resolve_input_count(declared: Option<u32>, shader_input_count: u32) -> (r: Result<
    u32,
    String,
>)
    ensures
        match declared {
            Some(n) => if n == shader_input_count {
                r == Ok::<u32, String>(n)
            } else {
                r matches Err(e) && e@
                    == "Shader input count does not match input count declared in graph"@
            },
            None => r == Ok::<u32, String>(shader_input_count),
        },
{
    match declared {
        Some(n) => {
            if n != shader_input_count {
                return Err(
                    "Shader input count does not match input count declared in graph".to_owned(),
                );
            }
            Ok(n)
        },
        None => Ok(shader_input_count),
    }
}

/// Whether an update of a loaded effect's props may proceed: the name may
/// not change, nor the input count when the props give one. The error is
/// the message the effect is left in.
pub fn validate_props_update(
    ready_name: &String,
    ready_input_count: u32,
    props_name: &String,
    props_input_count: Option<u32>,
) -> (r: Result<(), String>)
    ensures
        props_name@ != ready_name@ ==> (r matches Err(e) && e@
            == "EffectNode name changed after construction"@),
        props_name@ == ready_name@ ==> match props_input_count {
            Some(n) => if n != ready_input_count {
                r matches Err(e) && e@ == "EffectNode input_count changed after construction"@
            } else {
                r is Ok
            },
            None => r is Ok,
        },
{
    if !(*props_name == *ready_name) {
        return Err("EffectNode name changed after construction".to_owned());
    }
    match props_input_count {
        Some(n) => {
            if n != ready_input_count {
                return Err("EffectNode input_count changed after construction".to_owned());
            }
        },
        None => {},
    }
    Ok(())
}

// ---------------------------------------------------------------------------
// Paint states per render target
// ---------------------------------------------------------------------------

/// The paint states among `states` whose render target is among `targets`,
/// in their order.
pub open spec fn kept_states<S>(states: Seq<(u128, S)>, targets: Seq<u128>) -> Seq<(u128, S)>
    decreases states.len(),
{
    if states.len() == 0 {
        seq![]
    } else {
        let rest = kept_states(states.drop_last(), targets);
        if targets.contains(states.last().0) {
            rest.push(states.last())
        } else {
            rest
        }
    }
}

/// Some paint state among `states` is for the render target `id`.
pub open spec fn has_state<S>(states: Seq<(u128, S)>, id: u128) -> bool {
    exists|i: int| 0 <= i < states.len() && (#[trigger] states[i]).0 == id
}

/// The render targets among `targets` that no paint state of `states` is
/// for, in their order.
pub open spec fn missing_targets<S>(states: Seq<(u128, S)>, targets: Seq<u128>) -> Seq<u128>
    decreases targets.len(),
{
    if targets.len() == 0 {
        seq![]
    } else {
        let rest = missing_targets(states, targets.drop_last());
        if has_state(states, targets.last()) {
            rest
        } else {
            rest.push(targets.last())
        }
    }
}

fn contains_id(ids: &Vec<u128>, id: u128) -> (r: bool)
    ensures
        r == ids@.contains(id),
{
    for i in 0..ids.len()
        invariant
            forall|j: int| 0 <= j < i ==> ids@[j] != id,
    {
        if ids[i] == id {
            assert(ids@[i as int] == id);
            return true;
        }
    }
    false
}

/// Drops the paint states of render targets that no longer exist: those
/// whose target is not among `targets` (the context's render targets).
pub fn retain_paint_states<S>(states: Vec<(u128, S)>, targets: &Vec<u128>) -> (r: Vec<(u128, S)>)
    ensures
        r@ == kept_states(states@, targets@),
{
    let ghost all = states@;
    let mut rest = states;
    let total: usize = rest.len();
    let mut kept: Vec<(u128, S)> = Vec::new();
    let mut i: usize = 0;
    while rest.len() > 0
        invariant
            i + rest.len() == all.len(),
            all.len() == total,
            rest@ == all.subrange(i as int, all.len() as int),
            kept@ == kept_states(all.subrange(0, i as int), targets@),
        decreases rest.len(),
    {
        let entry = rest.remove(0);
        assert(all.subrange(0, i + 1).drop_last() == all.subrange(0, i as int));
        assert(all.subrange(0, i + 1).last() == all[i as int]);
        if contains_id(targets, entry.0) {
            kept.push(entry);
        }
        i = i + 1;
    }
    assert(all.subrange(0, i as int) == all);
    kept
}

/// The render targets that need a new paint state: those of `targets`
/// without one among `states`.
pub fn missing_paint_states<S>(states: &Vec<(u128, S)>, targets: &Vec<u128>) -> (r: Vec<u128>)
    ensures
        r@ == missing_targets(states@, targets@),
{
    let mut missing: Vec<u128> = Vec::new();
    for t in 0..targets.len()
        invariant
            missing@ == missing_targets(states@, targets@.take(t as int)),
    {
        let id = targets[t];
        let mut found = false;
        for i in 0..states.len()
            invariant
                found <==> exists|j: int| 0 <= j < i && (#[trigger] states@[j]).0 == id,
        {
            if states[i].0 == id {
                found = true;
            }
        }
        assert(found == has_state(states@, id));
        assert(targets@.take(t + 1).drop_last() == targets@.take(t as int));
        assert(targets@.take(t + 1).last() == id);
        if !found {
            missing.push(id);
        }
    }
    assert(targets@.take(targets.len() as int) == targets@);
    missing
}

proof fn lemma_kept_states_in<S>(states: Seq<(u128, S)>, targets: Seq<u128>, k: int)
    requires
        0 <= k < kept_states(states, targets).len(),
    ensures
        targets.contains(kept_states(states, targets)[k].0),
        has_state(states, kept_states(states, targets)[k].0),
    decreases states.len(),
{
    let rest = kept_states(states.drop_last(), targets);
    if k < rest.len() {
        lemma_kept_states_in(states.drop_last(), targets, k);
        let i = choose|i: int| 0 <= i < states.drop_last().len() && (#[trigger] states.drop_last()[i]).0 == rest[k].0;
        assert(states[i] == states.drop_last()[i]);
    } else {
        assert(states[states.len() - 1] == states.last());
    }
}

proof fn lemma_kept_states_has<S>(states: Seq<(u128, S)>, targets: Seq<u128>, i: int)
    requires
        0 <= i < states.len(),
        targets.contains(states[i].0),
    ensures
        has_state(kept_states(states, targets), states[i].0),
    decreases states.len(),
{
    let rest = kept_states(states.drop_last(), targets);
    if i < states.len() - 1 {
        assert(states.drop_last()[i] == states[i]);
        lemma_kept_states_has(states.drop_last(), targets, i);
        let j = choose|j: int| 0 <= j < rest.len() && (#[trigger] rest[j]).0 == states[i].0;
        if targets.contains(states.last().0) {
            assert(rest.push(states.last())[j] == rest[j]);
        }
    } else {
        let kept = rest.push(states.last());
        assert(kept[rest.len() as int].0 == states[i].0);
    }
}

proof fn lemma_missing_targets<S>(states: Seq<(u128, S)>, targets: Seq<u128>, id: u128)
    ensures
        missing_targets(states, targets).contains(id) <==> (targets.contains(id) && !has_state(states, id)),
    decreases targets.len(),
{
    if targets.len() > 0 {
        let rest = missing_targets(states, targets.drop_last());
        lemma_missing_targets(states, targets.drop_last(), id);
        assert(targets == targets.drop_last().push(targets.last()));
        if targets.contains(id) && !has_state(states, id) {
            let i = choose|i: int| 0 <= i < targets.len() && targets[i] == id;
            if i < targets.len() - 1 {
                assert(targets.drop_last()[i] == id);
                let j = choose|j: int| 0 <= j < rest.len() && rest[j] == id;
                if !has_state(states, targets.last()) {
                    assert(rest.push(targets.last())[j] == id);
                }
            } else {
                assert(rest.push(targets.last())[rest.len() as int] == id);
            }
        }
        if missing_targets(states, targets).contains(id) {
            let j = choose|j: int| 0 <= j < missing_targets(states, targets).len() && missing_targets(states, targets)[j] == id;
            if j < rest.len() {
                assert(rest[j] == id);
                let i = choose|i: int| 0 <= i < targets.drop_last().len() && targets.drop_last()[i] == id;
                assert(targets[i] == id);
            } else {
                assert(targets[targets.len() - 1] == id);
            }
        }
    }
}

/// After an update, an effect has a paint state for exactly the context's
/// render targets: the states kept and the states added together cover
/// every target, and no other.
pub proof fn lemma_paint_states_synced<S>(states: Seq<(u128, S)>, targets: Seq<u128>, id: u128)
    ensures
        (has_state(kept_states(states, targets), id) || missing_targets(states, targets).contains(
            id,
        )) <==> targets.contains(id),
{
    lemma_missing_targets(states, targets, id);
    let kept = kept_states(states, targets);
    if has_state(kept, id) {
        let k = choose|k: int| 0 <= k < kept.len() && (#[trigger] kept[k]).0 == id;
        lemma_kept_states_in(states, targets, k);
    }
    if targets.contains(id) && has_state(states, id) {
        let i = choose|i: int| 0 <= i < states.len() && (#[trigger] states[i]).0 == id;
        lemma_kept_states_has(states, targets, i);
    }
}

/// The props an updated effect reports back: the name and input count it
/// was set up with.
pub fn write_back_props(
    ready_name: &String,
    ready_input_count: u32,
    name: &mut String,
    input_count: &mut Option<u32>,
)
    ensures
        final(name)@ == ready_name@,
        *final(input_count) == Some(ready_input_count),
{
    *name = ready_name.clone();
    *input_count = Some(ready_input_count);
}

} // verus!
