//! The application's settings and the choices the application makes from
//! them and from its environment: which audio input to restore, how inputs
//! and sources are labelled, and how environment switches are read.
use vstd::prelude::*;
use crate::audio_input::{AudioInputDevice, InputDeviceKind};
use crate::system_audio::SystemAudioSource;
use crate::text::{chars_eq, chars_of, lower_ascii, lowercase_ascii, trim, trim_chars};

verus! {

/// The label shown for the default audio input.
pub open spec fn default_input_label() -> Seq<char> {
    "Default input"@
}

/// The label shown for the default system source.
pub open spec fn default_source_label() -> Seq<char> {
    "System default source"@
}

/// The label under which the sync input `device_name` is shown (`None` for
/// the default input).
pub open spec fn input_label(device_name: Option<Seq<char>>) -> Seq<char> {
    match device_name {
        Some(name) => name,
        None => default_input_label(),
    }
}

/// The sync input that picking the label `label` asks for (`None` for the
/// default input).
pub open spec fn input_for_label(label: Seq<char>) -> Option<Seq<char>> {
    if label == default_input_label() {
        None
    } else {
        Some(label)
    }
}

/// Picking the label under which an input is shown asks for that input
/// again, unless a device is itself called "Default input".
pub proof fn lemma_input_label_round_trip(device_name: Option<Seq<char>>)
    requires
        device_name != Some(default_input_label()),
    ensures
        input_for_label(input_label(device_name)) == device_name,
{
}

/// Showing the input that a label asks for shows that label again.
pub proof fn lemma_label_for_requested_input(label: Seq<char>)
    ensures
        input_label(input_for_label(label)) == label,
{
}

/// The sync-input label stays in step with the timebase's input across a
/// pick in the list. Before the pick the label `shown` is that of `before`.
/// Picking the shown label changes nothing; picking another one asks
/// (`sync_input_pick`) for `input_for_label(picked)`, the timebase then
/// uses `after`, whatever the switch achieved, and the label becomes that
/// of `after` (`after_sync_input_switch`). Either way the label shown is
/// that of the input in use, and it is the picked label when the switch
/// got the input it was asked for.
pub proof fn lemma_sync_input_label_in_step(
    shown: Seq<char>,
    before: Option<Seq<char>>,
    picked: Seq<char>,
    after: Option<Seq<char>>,
)
    requires
        shown == input_label(before),
    ensures
        ({
            let now_used = if picked == shown { before } else { after };
            let now_shown = if picked == shown { shown } else { input_label(after) };
            &&& now_shown == input_label(now_used)
            &&& (picked != shown && after == input_for_label(picked)) ==> now_shown == picked
        }),
{
    lemma_label_for_requested_input(picked);
}

/// Settings kept between runs.
#[derive(Clone, Debug)]
pub struct AppSettings {
    pub sync_input_device_name: Option<String>,
}

impl Default for AppSettings {
    fn default() -> (r: Self)
        ensures
            r.sync_input_device_name is None,
    {
        AppSettings { sync_input_device_name: None }
    }
}

/// The label of the selected sync input: its name, or "Default input".
pub fn selected_sync_input_label(device_name: Option<&str>) -> (r: String)
    ensures
        r@ == input_label(
            match device_name {
                Some(name) => Some(name@),
                None => None,
            },
        ),
{
    match device_name {
        Some(name) => name.to_owned(),
        None => "Default input".to_owned(),
    }
}

/// The saved sync input, when a device of that name is available.
pub fn restore_sync_input_device(settings: &AppSettings, available_devices: &[AudioInputDevice]) -> (r: Option<String>)
    ensures
        match settings.sync_input_device_name {
            Some(name) => if exists|i: int|
                0 <= i < available_devices@.len() && (#[trigger] available_devices@[i]).name@
                    == name@ {
                r == Some(name)
            } else {
                r is None
            },
            None => r is None,
        },
{
    match &settings.sync_input_device_name {
        Some(device_name) => {
            for i in 0..available_devices.len()
                invariant
                    settings.sync_input_device_name == Some(*device_name),
                    forall|j: int|
                        0 <= j < i ==> (#[trigger] available_devices@[j]).name@ != device_name@,
            {
                if available_devices[i].name == *device_name {
                    return Some(device_name.clone());
                }
            }
            None
        },
        None => None,
    }
}

/// The input to switch to when the label `label` is picked: none (the
/// default input) for "Default input", else the device of that name.
pub fn requested_input_for_label(label: &String) -> (r: Option<String>)
    ensures
        match input_for_label(label@) {
            Some(_) => r == Some(*label),
            None => r is None,
        },
{
    if chars_eq(&chars_of(label.as_str()), &chars_of("Default input")) {
        None
    } else {
        Some(label.clone())
    }
}

/// The source to route to when the label `label` is picked: none (the
/// default source) for "System default source", else the source of that name.
pub fn requested_source_for_label(label: &str) -> (r: Option<&str>)
    ensures
        label@ == default_source_label() ==> r is None,
        label@ != default_source_label() ==> r == Some(label),
{
    if chars_eq(&chars_of(label), &chars_of("System default source")) {
        None
    } else {
        Some(label)
    }
}

/// The devices of kind `kind`, in their order.
pub fn devices_of_kind(devices: &[AudioInputDevice], kind: InputDeviceKind) -> (r: Vec<
    &AudioInputDevice,
>)
    ensures
        r@.map_values(|d: &AudioInputDevice| *d) == devices@.filter(
            |d: AudioInputDevice| d.kind == kind,
        ),
{
    let ghost f = |d: AudioInputDevice| d.kind == kind;
    let mut r: Vec<&AudioInputDevice> = Vec::new();
    for i in 0..devices.len()
        invariant
            f == (|d: AudioInputDevice| d.kind == kind),
            r@.map_values(|d: &AudioInputDevice| *d) == devices@.take(i as int).filter(f),
    {
        let ghost before = r@;
        proof {
            assert(devices@.take(i + 1) == devices@.take(i as int).push(devices@[i as int]));
            devices@.take(i as int).lemma_filter_push(devices@[i as int], f);
        }
        if devices[i].kind == kind {
            r.push(&devices[i]);
            assert(r@.map_values(|d: &AudioInputDevice| *d) =~= before.map_values(
                |d: &AudioInputDevice| *d,
            ).push(devices@[i as int]));
        }
    }
    assert(devices@.take(devices.len() as int) == devices@);
    r
}

/// The sources that are monitors (`monitors`) or are not, in their order.
pub fn sources_by_monitor(sources: &[SystemAudioSource], monitors: bool) -> (r: Vec<
    &SystemAudioSource,
>)
    ensures
        r@.map_values(|d: &SystemAudioSource| *d) == sources@.filter(
            |d: SystemAudioSource| d.is_monitor == monitors,
        ),
{
    let ghost f = |d: SystemAudioSource| d.is_monitor == monitors;
    let mut r: Vec<&SystemAudioSource> = Vec::new();
    for i in 0..sources.len()
        invariant
            f == (|d: SystemAudioSource| d.is_monitor == monitors),
            r@.map_values(|d: &SystemAudioSource| *d) == sources@.take(i as int).filter(f),
    {
        let ghost before = r@;
        proof {
            assert(sources@.take(i + 1) == sources@.take(i as int).push(sources@[i as int]));
            sources@.take(i as int).lemma_filter_push(sources@[i as int], f);
        }
        if sources[i].is_monitor == monitors {
            r.push(&sources[i]);
            assert(r@.map_values(|d: &SystemAudioSource| *d) =~= before.map_values(
                |d: &SystemAudioSource| *d,
            ).push(sources@[i as int]));
        }
    }
    assert(sources@.take(sources.len() as int) == sources@);
    r
}

// ---------------------------------------------------------------------------
// Environment switches
// ---------------------------------------------------------------------------

/// An environment value that switches a feature on: "1", "true", "yes" or
/// "on", ignoring surrounding white space and ASCII case.
pub open spec fn is_truthy(value: Seq<char>) -> bool {
    let v = lower_ascii(trim(value));
    v == "1"@ || v == "true"@ || v == "yes"@ || v == "on"@
}

/// Whether an environment variable with value `value` (`None` when unset)
/// switches its feature on.
pub fn env_var_truthy(value: Option<&str>) -> (r: bool)
    ensures
        match value {
            Some(v) => r == is_truthy(v@),
            None => !r,
        },
{
    match value {
        Some(v) => {
            let normalized = lowercase_ascii(&trim_chars(&chars_of(v)));
            chars_eq(&normalized, &chars_of("1")) || chars_eq(&normalized, &chars_of("true"))
                || chars_eq(&normalized, &chars_of("yes")) || chars_eq(
                &normalized,
                &chars_of("on"),
            )
        },
        None => false,
    }
}

/// The value of a string of decimal digits.
pub open spec fn digits_value(s: Seq<char>) -> int
    decreases s.len(),
{
    if s.len() == 0 {
        0
    } else {
        digits_value(s.drop_last()) * 10 + ((s.last() as int) - 48)
    }
}

/// `s` is made of ASCII digits only.
pub open spec fn all_digits(s: Seq<char>) -> bool {
    forall|i: int| 0 <= i < s.len() ==> 48 <= #[trigger] (s[i] as int) <= 57
}

/// `str::parse::<usize>`: an optional `+`, then at least one ASCII digit, of
/// a value that fits a `usize`.
pub open spec fn parse_usize(s: Seq<char>) -> Option<int> {
    let d = if s.len() > 0 && s[0] == '+' {
        s.drop_first()
    } else {
        s
    };
    if d.len() > 0 && all_digits(d) && digits_value(d) <= usize::MAX {
        Some(digits_value(d))
    } else {
        None
    }
}

proof fn lemma_digits_value_nonneg(s: Seq<char>)
    requires
        all_digits(s),
    ensures
        digits_value(s) >= 0,
    decreases s.len(),
{
    if s.len() > 0 {
        lemma_digits_value_nonneg(s.drop_last());
    }
}

proof fn lemma_digits_value_grows(s: Seq<char>, i: int)
    requires
        all_digits(s),
        0 <= i <= s.len(),
    ensures
        digits_value(s.take(i)) <= digits_value(s),
    decreases s.len() - i,
{
    if i < s.len() {
        lemma_digits_value_grows(s, i + 1);
        assert(s.take(i + 1).drop_last() == s.take(i));
        assert(all_digits(s.take(i)));
        lemma_digits_value_nonneg(s.take(i));
        assert(digits_value(s.take(i)) <= digits_value(s.take(i + 1))) by (nonlinear_arith)
            requires
                digits_value(s.take(i + 1)) == digits_value(s.take(i)) * 10 + ((s[i] as int) - 48),
                48 <= (s[i] as int),
                digits_value(s.take(i)) >= 0,
        ;
    } else {
        assert(s.take(i) == s);
    }
}

/// `str::parse::<usize>` (see `parse_usize`).
pub fn parse_usize_exec(s: &str) -> (r: Option<usize>)
    ensures
        match parse_usize(s@) {
            Some(v) => r matches Some(x) && x as int == v,
            None => r is None,
        },
{
    let cs = chars_of(s);
    let start: usize = if cs.len() > 0 && cs[0] == '+' {
        1
    } else {
        0
    };
    let ghost d = if s@.len() > 0 && s@[0] == '+' {
        s@.drop_first()
    } else {
        s@
    };
    assert(d == cs@.subrange(start as int, cs.len() as int));
    if start == cs.len() {
        return None;
    }
    let mut value: usize = 0;
    let mut i = start;
    while i < cs.len()
        invariant
            start <= i <= cs.len(),
            cs@ == s@,
            d == cs@.subrange(start as int, cs.len() as int),
            d == (if s@.len() > 0 && s@[0] == '+' {
                s@.drop_first()
            } else {
                s@
            }),
            all_digits(d.take(i - start)),
            value as int == digits_value(d.take(i - start)),
        decreases cs.len() - i,
    {
        let c = cs[i];
        assert(d[i - start] == c);
        assert(d.take(i - start + 1).drop_last() == d.take(i - start));
        if c < '0' || c > '9' {
            assert(!all_digits(d));
            return None;
        }
        let digit: usize = (c as u32 - '0' as u32) as usize;
        assert(digit as int == (c as int) - 48);
        match value.checked_mul(10) {
            Some(v10) => match v10.checked_add(digit) {
                Some(next) => {
                    value = next;
                },
                None => {
                    proof {
                        assert(all_digits(d.take(i - start + 1)));
                        if all_digits(d) {
                            lemma_digits_value_grows(d, i - start + 1);
                        }
                    }
                    return None;
                },
            },
            None => {
                proof {
                    assert(all_digits(d.take(i - start + 1)));
                    if all_digits(d) {
                        lemma_digits_value_grows(d, i - start + 1);
                        lemma_digits_value_nonneg(d.take(i - start));
                    }
                }
                return None;
            },
        }
        i = i + 1;
    }
    assert(d.take(i - start) == d);
    proof {
        lemma_digits_value_nonneg(d);
    }
    Some(value)
}

/// The number of frames between performance reports: the value of the
/// interval variable when it is a positive whole number, else 240.
pub fn report_interval(value: Option<&str>) -> (r: usize)
    ensures
        match value {
            Some(v) => match parse_usize(v@) {
                Some(n) => r == if n > 0 {
                    n
                } else {
                    240
                },
                None => r == 240,
            },
            None => r == 240,
        },
{
    match value {
        Some(v) => match parse_usize_exec(v) {
            Some(n) => if n > 0 {
                n
            } else {
                240
            },
            None => 240,
        },
        None => 240,
    }
}

/// What picking the label `picked` in the sync-input list asks of the
/// timebase: nothing when it is the label already shown, else a switch to
/// the input that label stands for (see `input_for_label`).
pub fn sync_input_pick(shown: &String, picked: &String) -> (r: Option<Option<String>>)
    ensures
        picked@ == shown@ ==> r is None,
        picked@ != shown@ ==> match input_for_label(picked@) {
            Some(_) => r == Some(Some(*picked)),
            None => r == Some(None::<String>),
        },
{
    if *picked == *shown {
        None
    } else {
        Some(requested_input_for_label(picked))
    }
}

/// After the timebase switched inputs and now uses `selected` (`None` for
/// the default input): the label to show, which is `input_label` of it, and
/// the settings to save, which remember it.
pub fn after_sync_input_switch(selected: Option<&str>) -> (r: (String, AppSettings))
    ensures
        r.0@ == input_label(
            match selected {
                Some(name) => Some(name@),
                None => None,
            },
        ),
        match selected {
            Some(name) => r.1.sync_input_device_name matches Some(saved) && saved@ == name@,
            None => r.1.sync_input_device_name is None,
        },
{
    let label = selected_sync_input_label(selected);
    let saved = match selected {
        Some(name) => Some(name.to_owned()),
        None => None,
    };
    (label, AppSettings { sync_input_device_name: saved })
}

} // verus!
