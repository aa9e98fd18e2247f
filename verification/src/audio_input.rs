//! Audio input devices: how a device is classified by its name, the order
//! in which devices are offered, and the choice of the device to listen to.
use vstd::prelude::*;
use crate::order::{lemma_stably_sorted_in_order, lex_le, lex_le_exec, lemma_lex_le_total, lemma_lex_le_transitive, stable_sort, stably_sorted, KeyOrder};
use crate::text::{chars_eq, chars_of, contains_chars, contains_seq, lower_ascii, lowercase_ascii};

verus! {

/// What an input device most likely is, judged by its name.
#[derive(Clone, Copy, Debug, PartialEq, Eq, PartialOrd, Ord, Structural)]
pub enum InputDeviceKind {
    Microphone,
    Loopback,
    Other,
}

/// An audio input device, by name, with its likely kind.
#[derive(Clone, Debug, PartialEq, Eq)]
pub struct AudioInputDevice {
    pub name: String,
    pub kind: InputDeviceKind,
}

/// Words in a device name that mark a loopback or monitor input.
pub open spec fn loopback_keywords() -> Seq<Seq<char>> {
    seq![
        "monitor"@,
        "loopback"@,
        "stereo mix"@,
        "what u hear"@,
        "blackhole"@,
        "soundflower"@,
        "vb-audio"@,
        "cable output"@,
    ]
}

/// Words in a device name that mark a microphone.
pub open spec fn microphone_keywords() -> Seq<Seq<char>> {
    seq![
        "microphone"@,
        " mic"@,
        "mic "@,
        "headset"@,
        "webcam"@,
        "built-in input"@,
        "built in input"@,
        "internal mic"@,
        "array"@,
    ]
}

/// `name` contains one of `keywords`.
pub open spec fn mentions_any(name: Seq<char>, keywords: Seq<Seq<char>>) -> bool {
    exists|i: int| 0 <= i < keywords.len() && contains_seq(name, #[trigger] keywords[i])
}

/// The kind of a device called `name`: the name is compared in ASCII lower
/// case; a loopback keyword decides first, then the name "mic" or a
/// microphone keyword; anything else is `Other`.
pub open spec fn classify_name(name: Seq<char>) -> InputDeviceKind {
    let n = lower_ascii(name);
    if mentions_any(n, loopback_keywords()) {
        InputDeviceKind::Loopback
    } else if n == "mic"@ || mentions_any(n, microphone_keywords()) {
        InputDeviceKind::Microphone
    } else {
        InputDeviceKind::Other
    }
}

fn mentions_any_exec(name: &Vec<char>, keywords: &[&str]) -> (r: bool)
    ensures
        r == mentions_any(name@, keywords@.map_values(|k: &str| k@)),
{
    let ghost ks = keywords@.map_values(|k: &str| k@);
    for i in 0..keywords.len()
        invariant
            ks == keywords@.map_values(|k: &str| k@),
            forall|j: int| 0 <= j < i ==> !contains_seq(name@, #[trigger] ks[j]),
    {
        let kw = chars_of(keywords[i]);
        if contains_chars(name, &kw) {
            assert(contains_seq(name@, ks[i as int]));
            return true;
        }
    }
    false
}

/// How a name is classified, keyword by keyword: in ASCII lower case, a
/// name that contains "monitor", "loopback", "stereo mix", "what u hear",
/// "blackhole", "soundflower", "vb-audio" or "cable output" is a loopback
/// input; otherwise a name that is "mic", or contains "microphone", " mic",
/// "mic ", "headset", "webcam", "built-in input", "built in input",
/// "internal mic" or "array", is a microphone; any other name is `Other`.
pub proof fn lemma_classify_by_keywords(name: Seq<char>)
    ensures
        (contains_seq(lower_ascii(name), "monitor"@)
            || contains_seq(lower_ascii(name), "loopback"@)
            || contains_seq(lower_ascii(name), "stereo mix"@)
            || contains_seq(lower_ascii(name), "what u hear"@)
            || contains_seq(lower_ascii(name), "blackhole"@)
            || contains_seq(lower_ascii(name), "soundflower"@)
            || contains_seq(lower_ascii(name), "vb-audio"@)
            || contains_seq(lower_ascii(name), "cable output"@)) ==> classify_name(name) == InputDeviceKind::Loopback,
        !(contains_seq(lower_ascii(name), "monitor"@)
            || contains_seq(lower_ascii(name), "loopback"@)
            || contains_seq(lower_ascii(name), "stereo mix"@)
            || contains_seq(lower_ascii(name), "what u hear"@)
            || contains_seq(lower_ascii(name), "blackhole"@)
            || contains_seq(lower_ascii(name), "soundflower"@)
            || contains_seq(lower_ascii(name), "vb-audio"@)
            || contains_seq(lower_ascii(name), "cable output"@)) && (lower_ascii(name) == "mic"@
            || contains_seq(lower_ascii(name), "microphone"@)
            || contains_seq(lower_ascii(name), " mic"@)
            || contains_seq(lower_ascii(name), "mic "@)
            || contains_seq(lower_ascii(name), "headset"@)
            || contains_seq(lower_ascii(name), "webcam"@)
            || contains_seq(lower_ascii(name), "built-in input"@)
            || contains_seq(lower_ascii(name), "built in input"@)
            || contains_seq(lower_ascii(name), "internal mic"@)
            || contains_seq(lower_ascii(name), "array"@)) ==> classify_name(name) == InputDeviceKind::Microphone,
        !(contains_seq(lower_ascii(name), "monitor"@)
            || contains_seq(lower_ascii(name), "loopback"@)
            || contains_seq(lower_ascii(name), "stereo mix"@)
            || contains_seq(lower_ascii(name), "what u hear"@)
            || contains_seq(lower_ascii(name), "blackhole"@)
            || contains_seq(lower_ascii(name), "soundflower"@)
            || contains_seq(lower_ascii(name), "vb-audio"@)
            || contains_seq(lower_ascii(name), "cable output"@)) && !(lower_ascii(name) == "mic"@
            || contains_seq(lower_ascii(name), "microphone"@)
            || contains_seq(lower_ascii(name), " mic"@)
            || contains_seq(lower_ascii(name), "mic "@)
            || contains_seq(lower_ascii(name), "headset"@)
            || contains_seq(lower_ascii(name), "webcam"@)
            || contains_seq(lower_ascii(name), "built-in input"@)
            || contains_seq(lower_ascii(name), "built in input"@)
            || contains_seq(lower_ascii(name), "internal mic"@)
            || contains_seq(lower_ascii(name), "array"@)) ==> classify_name(name) == InputDeviceKind::Other,
{
    let n = lower_ascii(name);
    let lk = loopback_keywords();
    let mk = microphone_keywords();
    assert(lk[0] == "monitor"@ && lk[1] == "loopback"@ && lk[2] == "stereo mix"@
        && lk[3] == "what u hear"@ && lk[4] == "blackhole"@ && lk[5] == "soundflower"@
        && lk[6] == "vb-audio"@ && lk[7] == "cable output"@);
    assert(mk[0] == "microphone"@ && mk[1] == " mic"@ && mk[2] == "mic "@ && mk[3] == "headset"@
        && mk[4] == "webcam"@ && mk[5] == "built-in input"@ && mk[6] == "built in input"@
        && mk[7] == "internal mic"@ && mk[8] == "array"@);
    if mentions_any(n, lk) {
        let i = choose|i: int| 0 <= i < lk.len() && contains_seq(n, #[trigger] lk[i]);
        assert(i == 0 || i == 1 || i == 2 || i == 3 || i == 4 || i == 5 || i == 6 || i == 7);
    }
    if mentions_any(n, mk) {
        let i = choose|i: int| 0 <= i < mk.len() && contains_seq(n, #[trigger] mk[i]);
        assert(i == 0 || i == 1 || i == 2 || i == 3 || i == 4 || i == 5 || i == 6 || i == 7 || i == 8);
    }
}

impl InputDeviceKind {
    /// The kind of a device, judged by its name (see `classify_name` and
    /// `lemma_classify_by_keywords`).
    pub fn classify(name: &str) -> (r: Self)
        ensures
            r == classify_name(name@),
            (contains_seq(lower_ascii(name@), "monitor"@)
                || contains_seq(lower_ascii(name@), "loopback"@)
                || contains_seq(lower_ascii(name@), "stereo mix"@)
                || contains_seq(lower_ascii(name@), "what u hear"@)
                || contains_seq(lower_ascii(name@), "blackhole"@)
                || contains_seq(lower_ascii(name@), "soundflower"@)
                || contains_seq(lower_ascii(name@), "vb-audio"@)
                || contains_seq(lower_ascii(name@), "cable output"@)) ==> r == InputDeviceKind::Loopback,
            !(contains_seq(lower_ascii(name@), "monitor"@)
                || contains_seq(lower_ascii(name@), "loopback"@)
                || contains_seq(lower_ascii(name@), "stereo mix"@)
                || contains_seq(lower_ascii(name@), "what u hear"@)
                || contains_seq(lower_ascii(name@), "blackhole"@)
                || contains_seq(lower_ascii(name@), "soundflower"@)
                || contains_seq(lower_ascii(name@), "vb-audio"@)
                || contains_seq(lower_ascii(name@), "cable output"@)) && (lower_ascii(name@) == "mic"@
                || contains_seq(lower_ascii(name@), "microphone"@)
                || contains_seq(lower_ascii(name@), " mic"@)
                || contains_seq(lower_ascii(name@), "mic "@)
                || contains_seq(lower_ascii(name@), "headset"@)
                || contains_seq(lower_ascii(name@), "webcam"@)
                || contains_seq(lower_ascii(name@), "built-in input"@)
                || contains_seq(lower_ascii(name@), "built in input"@)
                || contains_seq(lower_ascii(name@), "internal mic"@)
                || contains_seq(lower_ascii(name@), "array"@)) ==> r == InputDeviceKind::Microphone,
            !(contains_seq(lower_ascii(name@), "monitor"@)
                || contains_seq(lower_ascii(name@), "loopback"@)
                || contains_seq(lower_ascii(name@), "stereo mix"@)
                || contains_seq(lower_ascii(name@), "what u hear"@)
                || contains_seq(lower_ascii(name@), "blackhole"@)
                || contains_seq(lower_ascii(name@), "soundflower"@)
                || contains_seq(lower_ascii(name@), "vb-audio"@)
                || contains_seq(lower_ascii(name@), "cable output"@)) && !(lower_ascii(name@) == "mic"@
                || contains_seq(lower_ascii(name@), "microphone"@)
                || contains_seq(lower_ascii(name@), " mic"@)
                || contains_seq(lower_ascii(name@), "mic "@)
                || contains_seq(lower_ascii(name@), "headset"@)
                || contains_seq(lower_ascii(name@), "webcam"@)
                || contains_seq(lower_ascii(name@), "built-in input"@)
                || contains_seq(lower_ascii(name@), "built in input"@)
                || contains_seq(lower_ascii(name@), "internal mic"@)
                || contains_seq(lower_ascii(name@), "array"@)) ==> r == InputDeviceKind::Other,
    {
        proof {
            lemma_classify_by_keywords(name@);
        }
        let normalized_name = lowercase_ascii(&chars_of(name));
        let loopback_keywords: [&str; 8] = [
            "monitor",
            "loopback",
            "stereo mix",
            "what u hear",
            "blackhole",
            "soundflower",
            "vb-audio",
            "cable output",
        ];
        assert(loopback_keywords@.map_values(|k: &str| k@) =~= self::loopback_keywords());
        if mentions_any_exec(&normalized_name, &loopback_keywords) {
            return InputDeviceKind::Loopback;
        }
        let microphone_keywords: [&str; 9] = [
            "microphone",
            " mic",
            "mic ",
            "headset",
            "webcam",
            "built-in input",
            "built in input",
            "internal mic",
            "array",
        ];
        assert(microphone_keywords@.map_values(|k: &str| k@) =~= self::microphone_keywords());
        if chars_eq(&normalized_name, &chars_of("mic")) || mentions_any_exec(
            &normalized_name,
            &microphone_keywords,
        ) {
            return InputDeviceKind::Microphone;
        }
        InputDeviceKind::Other
    }
}

impl AudioInputDevice {
    /// A device called `name`, with the kind its name suggests.
    pub fn from_name(name: String) -> (r: Self)
        ensures
            r.name == name,
            r.kind == classify_name(name@),
    {
        Self { kind: InputDeviceKind::classify(name.as_str()), name }
    }
}

/// The rank of a kind in the order in which devices are offered:
/// microphones, then loopback inputs, then the others.
pub open spec fn kind_rank(k: InputDeviceKind) -> int {
    match k {
        InputDeviceKind::Microphone => 0,
        InputDeviceKind::Loopback => 1,
        InputDeviceKind::Other => 2,
    }
}

fn kind_rank_exec(k: InputDeviceKind) -> (r: u8)
    ensures
        r == kind_rank(k),
{
    match k {
        InputDeviceKind::Microphone => 0,
        InputDeviceKind::Loopback => 1,
        InputDeviceKind::Other => 2,
    }
}

/// Devices are offered by kind, then by name compared in ASCII lower case.
impl KeyOrder for AudioInputDevice {
    open spec fn key_le(a: Self, b: Self) -> bool {
        ||| kind_rank(a.kind) < kind_rank(b.kind)
        ||| kind_rank(a.kind) == kind_rank(b.kind) && lex_le(lower_ascii(a.name@), lower_ascii(b.name@))
    }

    proof fn lemma_key_le_total(a: Self, b: Self) {
        lemma_lex_le_total(lower_ascii(a.name@), lower_ascii(b.name@));
    }

    proof fn lemma_key_le_transitive(a: Self, b: Self, c: Self) {
        if kind_rank(a.kind) == kind_rank(b.kind) && kind_rank(b.kind) == kind_rank(c.kind) {
            lemma_lex_le_transitive(
                lower_ascii(a.name@),
                lower_ascii(b.name@),
                lower_ascii(c.name@),
            );
        }
    }

    fn key_le_exec(&self, other: &Self) -> (r: bool) {
        let a = kind_rank_exec(self.kind);
        let b = kind_rank_exec(other.kind);
        if a != b {
            return a < b;
        }
        let left = lowercase_ascii(&chars_of(self.name.as_str()));
        let right = lowercase_ascii(&chars_of(other.name.as_str()));
        lex_le_exec(&left, &right)
    }
}

/// Devices are offered microphones first, then loopback inputs, then the
/// others; among devices of one kind, by name in lexicographic order of
/// the ASCII-lowercased names.
pub proof fn lemma_devices_order_by_kind_then_name(a: AudioInputDevice, b: AudioInputDevice)
    ensures
        AudioInputDevice::key_le(a, b) <==> {
            ||| a.kind == InputDeviceKind::Microphone && b.kind != InputDeviceKind::Microphone
            ||| a.kind == InputDeviceKind::Loopback && b.kind == InputDeviceKind::Other
            ||| a.kind == b.kind && lex_le(lower_ascii(a.name@), lower_ascii(b.name@))
        },
{
}

/// The device called `name`, as `AudioInputDevice::from_name` makes it.
pub open spec fn device_named(name: String) -> AudioInputDevice {
    AudioInputDevice { name, kind: classify_name(name@) }
}

/// The input devices called `names`, classified and put in the order in
/// which they are offered (by kind, then by lower-case name; devices that
/// rank equal keep their order).
pub fn input_devices_from_names(names: Vec<String>) -> (r: Vec<AudioInputDevice>)
    ensures
        stably_sorted(names@.map_values(|n: String| device_named(n)), r@),
        forall|i: int, j: int|
            #![trigger r@[i], r@[j]]
            0 <= i < j < r@.len() ==> {
                &&& (r@[i].kind == InputDeviceKind::Microphone || r@[j].kind == InputDeviceKind::Other
                    || r@[i].kind == r@[j].kind)
                &&& r@[i].kind == r@[j].kind ==> lex_le(lower_ascii(r@[i].name@), lower_ascii(r@[j].name@))
            },
{
    let ghost n0 = names@;
    let mut devices: Vec<AudioInputDevice> = Vec::new();
    let mut rest = names;
    let total: usize = rest.len();
    let mut i: usize = 0;
    while rest.len() > 0
        invariant
            i + rest.len() == n0.len(),
            n0.len() == total,
            rest@ == n0.subrange(i as int, n0.len() as int),
            devices@ == n0.subrange(0, i as int).map_values(|n: String| device_named(n)),
        decreases rest.len(),
    {
        let name = rest.remove(0);
        let ghost before = devices@;
        devices.push(AudioInputDevice::from_name(name));
        assert(n0.subrange(0, i + 1) == n0.subrange(0, i as int).push(n0[i as int]));
        assert(devices@ == before.push(device_named(n0[i as int])));
        i = i + 1;
        assert(devices@ =~= n0.subrange(0, i as int).map_values(|n: String| device_named(n)));
    }
    assert(n0.subrange(0, i as int) == n0);
    let ghost unsorted = devices@;
    let sorted = stable_sort(devices);
    proof {
        assert forall|i: int, j: int| #![trigger sorted@[i], sorted@[j]] 0 <= i < j < sorted@.len() implies {
            &&& (sorted@[i].kind == InputDeviceKind::Microphone || sorted@[j].kind == InputDeviceKind::Other
                || sorted@[i].kind == sorted@[j].kind)
            &&& sorted@[i].kind == sorted@[j].kind ==> lex_le(lower_ascii(sorted@[i].name@), lower_ascii(sorted@[j].name@))
        } by {
            lemma_stably_sorted_in_order(unsorted, sorted@, i, j);
            lemma_devices_order_by_kind_then_name(sorted@[i], sorted@[j]);
        }
    }
    sorted
}

/// The name under which the selected input is shown: its device name, or
/// "Default input" when the default input is used.
pub fn device_name_or_default(selected: &Option<String>) -> (r: &str)
    ensures
        match selected {
            Some(name) => r@ == name@,
            None => r@ == "Default input"@,
        },
{
    match selected {
        Some(name) => name.as_str(),
        None => "Default input",
    }
}

/// Where the choice of an audio input stands: an input is to be opened
/// (`None` for the system's default input), or the choice is made.
#[derive(Clone, Debug, PartialEq, Eq)]
pub enum InputStep {
    Open { device: Option<String> },
    Ready { selected: Option<String>, streaming: bool },
}

/// The first step towards listening to `requested` (or to the default
/// input): open it.
pub fn start_input(requested: Option<String>) -> (r: InputStep)
    ensures
        r == (InputStep::Open { device: requested }),
{
    InputStep::Open { device: requested }
}

/// The step after an attempt to open the input of `step`: a device that
/// opened is the one in use; a named device that failed gives way to the
/// default input; when the default input fails too, there is no input (the
/// timebase then runs at its default tempo).
pub open spec fn input_step_after(step: InputStep, opened: bool) -> InputStep {
    match step {
        InputStep::Open { device } => if opened {
            InputStep::Ready { selected: device, streaming: true }
        } else if device is Some {
            InputStep::Open { device: None }
        } else {
            InputStep::Ready { selected: None, streaming: false }
        },
        InputStep::Ready { .. } => step,
    }
}

/// Takes the step after an attempt to open the input of `step` (see
/// `input_step_after`).
pub fn next_input_step(step: InputStep, opened: bool) -> (r: InputStep)
    ensures
        r == input_step_after(step, opened),
{
    match step {
        InputStep::Open { device } => {
            if opened {
                InputStep::Ready { selected: device, streaming: true }
            } else {
                match device {
                    Some(_) => InputStep::Open { device: None },
                    None => InputStep::Ready { selected: None, streaming: false },
                }
            }
        },
        InputStep::Ready { selected, streaming } => InputStep::Ready { selected, streaming },
    }
}

/// The choice of an input is made after at most two attempts: the requested
/// device is in use exactly when it opened; otherwise the default input is
/// used if it opened, and there is no input if it did not.
pub proof fn lemma_input_choice_settles(requested: Option<String>, first_ok: bool, second_ok: bool)
    ensures
        ({
            let s1 = input_step_after(InputStep::Open { device: requested }, first_ok);
            let s2 = input_step_after(s1, second_ok);
            &&& s2 is Ready
            &&& s2 == if first_ok {
                InputStep::Ready { selected: requested, streaming: true }
            } else if requested is Some {
                InputStep::Ready { selected: None, streaming: second_ok }
            } else {
                InputStep::Ready { selected: None, streaming: false }
            }
        }),
{
}

} // verus!
