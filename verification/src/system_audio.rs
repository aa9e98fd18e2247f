//! System audio sources, as the sound server lists them (`pactl`): how a
//! listing is read, how sources are labelled and ordered, and the steps that
//! move the capture stream of this program to another source.
use vstd::prelude::*;
use crate::order::{
    lemma_stably_sorted_in_order, lex_le, lex_le_exec, lemma_lex_le_total, lemma_lex_le_transitive, stable_sort, stably_sorted,
    KeyOrder,
};
use crate::text::{
    chars_eq, chars_of, contains_chars, contains_seq, ends_with, ends_with_chars, lines, lines_of,
    lower_ascii, lowercase_ascii, replace_char, replace_char_exec, slice_chars, split_chars,
    split_seq, starts_with, starts_with_chars, string_from_chars, trim, trim_chars,
    trim_end_matches, trim_end_matches_chars, views, ws_tokens, ws_tokens_of,
};

verus! {

/// A source of the sound server, with the label under which it is shown.
#[derive(Clone, Debug, PartialEq, Eq)]
pub struct SystemAudioSource {
    pub name: String,
    pub label: String,
    pub is_monitor: bool,
}

/// The label of a source: the part of its name before the last `__`
/// separated part (once any `.monitor` endings are removed), with
/// underscores shown as spaces, and " monitor" added for a monitor source.
pub open spec fn source_label(name: Seq<char>) -> Seq<char> {
    let trimmed = trim_end_matches(name, ".monitor"@);
    let parts = split_seq(trimmed, "__"@);
    let idx = if parts.len() >= 2 {
        parts.len() - 2
    } else {
        0
    };
    let readable = replace_char(parts[idx], '_', ' ');
    if ends_with(name, ".monitor"@) {
        readable + " monitor"@
    } else {
        readable
    }
}

/// The readable label of the source called `name` (see `source_label`).
pub fn label_for_system_source(name: &str) -> (r: String)
    ensures
        r@ == source_label(name@),
{
    proof {
        reveal_strlit("__");
    }
    let name_chars = chars_of(name);
    let monitor_suffix = chars_of(".monitor");
    proof {
        reveal_strlit(".monitor");
    }
    let is_monitor = ends_with_chars(&name_chars, &monitor_suffix);
    let trimmed = trim_end_matches_chars(&name_chars, &monitor_suffix);
    let separator = chars_of("__");
    let parts = split_chars(&trimmed, &separator);
    proof {
        crate::text::lemma_split_nonempty(trimmed@, separator@, 0);
    }
    let idx = if parts.len() >= 2 {
        parts.len() - 2
    } else {
        0
    };
    let readable = replace_char_exec(&parts[idx], '_', ' ');
    assert(views(parts@)[idx as int] == parts@[idx as int]@);
    if is_monitor {
        let mut out = string_from_chars(readable.as_slice());
        out.append(" monitor");
        out
    } else {
        string_from_chars(readable.as_slice())
    }
}

/// The source that a listing line names, with its label.
pub open spec fn source_for(src: SystemAudioSource, name: Seq<char>) -> bool {
    &&& src.name@ == name
    &&& src.label@ == source_label(name)
    &&& src.is_monitor == ends_with(name, ".monitor"@)
}

/// The source names in the lines of a listing: the second white-space
/// separated column of each line that has one.
pub open spec fn names_in_lines(ls: Seq<Seq<char>>) -> Seq<Seq<char>>
    decreases ls.len(),
{
    if ls.len() == 0 {
        seq![]
    } else {
        let rest = names_in_lines(ls.drop_last());
        let t = ws_tokens(ls.last());
        if t.len() >= 2 {
            rest.push(t[1])
        } else {
            rest
        }
    }
}

/// `sources` are the sources that `names` name, in the same order.
pub open spec fn sources_for(sources: Seq<SystemAudioSource>, names: Seq<Seq<char>>) -> bool {
    &&& sources.len() == names.len()
    &&& forall|i: int| 0 <= i < names.len() ==> source_for(#[trigger] sources[i], names[i])
}

/// Monitor sources come first, then the others; each group by label
/// compared in ASCII lower case.
impl KeyOrder for SystemAudioSource {
    open spec fn key_le(a: Self, b: Self) -> bool {
        ||| a.is_monitor && !b.is_monitor
        ||| a.is_monitor == b.is_monitor && lex_le(lower_ascii(a.label@), lower_ascii(b.label@))
    }

    proof fn lemma_key_le_total(a: Self, b: Self) {
        lemma_lex_le_total(lower_ascii(a.label@), lower_ascii(b.label@));
    }

    proof fn lemma_key_le_transitive(a: Self, b: Self, c: Self) {
        if a.is_monitor == b.is_monitor && b.is_monitor == c.is_monitor {
            lemma_lex_le_transitive(
                lower_ascii(a.label@),
                lower_ascii(b.label@),
                lower_ascii(c.label@),
            );
        }
    }

    fn key_le_exec(&self, other: &Self) -> (r: bool) {
        if self.is_monitor != other.is_monitor {
            return self.is_monitor;
        }
        let left = lowercase_ascii(&chars_of(self.label.as_str()));
        let right = lowercase_ascii(&chars_of(other.label.as_str()));
        lex_le_exec(&left, &right)
    }
}

/// Monitor sources are listed before the others; among sources of one
/// group, by label in lexicographic order of the ASCII-lowercased labels.
pub proof fn lemma_sources_order_monitors_then_label(a: SystemAudioSource, b: SystemAudioSource)
    ensures
        SystemAudioSource::key_le(a, b) <==> {
            ||| a.is_monitor && !b.is_monitor
            ||| a.is_monitor == b.is_monitor && lex_le(lower_ascii(a.label@), lower_ascii(b.label@))
        },
{
}

/// The sources in a listing of the sound server's sources (`pactl list
/// short sources`), monitors first; nothing when the listing failed.
pub fn available_system_audio_sources(listing: Result<String, String>) -> (r: Vec<SystemAudioSource>)
    ensures
        match listing {
            Ok(text) => exists|u: Seq<SystemAudioSource>|
                sources_for(u, names_in_lines(lines(text@))) && stably_sorted(u, r@),
            Err(_) => r.len() == 0,
        },
        forall|i: int, j: int|
            #![trigger r@[i], r@[j]]
            0 <= i < j < r@.len() ==> {
                &&& (r@[i].is_monitor || !r@[j].is_monitor)
                &&& r@[i].is_monitor == r@[j].is_monitor ==> lex_le(
                    lower_ascii(r@[i].label@),
                    lower_ascii(r@[j].label@),
                )
            },
{
    let text = match listing {
        Ok(text) => text,
        Err(_) => {
            return Vec::new();
        },
    };
    let ls = lines_of(&chars_of(text.as_str()));
    let ghost lv = views(ls@);
    let mut sources: Vec<SystemAudioSource> = Vec::new();
    for i in 0..ls.len()
        invariant
            lv == views(ls@),
            lv == lines(text@),
            sources_for(sources@, names_in_lines(lv.take(i as int))),
    {
        let tokens = ws_tokens_of(&ls[i]);
        assert(lv.take(i + 1).drop_last() == lv.take(i as int));
        assert(lv.take(i + 1).last() == ls@[i as int]@);
        if tokens.len() >= 2 {
            let name = string_from_chars(tokens[1].as_slice());
            assert(views(tokens@)[1] == tokens@[1]@);
            let label = label_for_system_source(name.as_str());
            let is_monitor = ends_with_chars(&chars_of(name.as_str()), &chars_of(".monitor"));
            let ghost before = sources@;
            sources.push(SystemAudioSource { label, is_monitor, name });
            assert forall|k: int| 0 <= k < sources@.len() implies source_for(
                #[trigger] sources@[k],
                names_in_lines(lv.take(i + 1))[k],
            ) by {
                if k < before.len() {
                    assert(sources@[k] == before[k]);
                }
            }
        }
    }
    assert(lv.take(ls.len() as int) == lv);
    let ghost unsorted = sources@;
    let r = stable_sort(sources);
    proof {
        assert forall|i: int, j: int|
            #![trigger r@[i], r@[j]]
            0 <= i < j < r@.len() implies {
            &&& (r@[i].is_monitor || !r@[j].is_monitor)
            &&& r@[i].is_monitor == r@[j].is_monitor ==> lex_le(
                lower_ascii(r@[i].label@),
                lower_ascii(r@[j].label@),
            )
        } by {
            lemma_stably_sorted_in_order(unsorted, r@, i, j);
            lemma_sources_order_monitors_then_label(r@[i], r@[j]);
        }
    }
    r
}

// ---------------------------------------------------------------------------
// The capture stream of this program
// ---------------------------------------------------------------------------

/// A block of the listing of source outputs describes this program's
/// capture stream.
pub open spec fn is_radiance_block(b: Seq<char>) -> bool {
    ||| contains_seq(b, "application.name = \"PipeWire ALSA [radiance]\""@)
    ||| contains_seq(b, "node.name = \"alsa_capture.radiance\""@)
}

/// The id a block gives this program's capture stream: the number after
/// "Source Output #" on its first line.
pub open spec fn block_output_id(b: Seq<char>) -> Option<Seq<char>> {
    let ls = lines(b);
    let prefix = "Source Output #"@;
    if is_radiance_block(b) && ls.len() > 0 && starts_with(trim(ls[0]), prefix) {
        let header = trim(ls[0]);
        Some(trim(header.subrange(prefix.len() as int, header.len() as int)))
    } else {
        None
    }
}

/// The id of this program's capture stream in the first block that gives one.
pub open spec fn first_output_id(blocks: Seq<Seq<char>>) -> Option<Seq<char>>
    decreases blocks.len(),
{
    if blocks.len() == 0 {
        None
    } else {
        match block_output_id(blocks[0]) {
            Some(id) => Some(id),
            None => first_output_id(blocks.drop_first()),
        }
    }
}

/// The id of this program's capture stream, read from the listing of the
/// sound server's source outputs (`pactl list source-outputs`): blocks are
/// separated by blank lines, and the first block of this program that names
/// its id decides.
pub open spec fn output_id_in(text: Seq<char>) -> Option<Seq<char>> {
    first_output_id(split_seq(text, "\n\n"@))
}

fn block_output_id_exec(block: &Vec<char>) -> (r: Option<Vec<char>>)
    ensures
        match block_output_id(block@) {
            Some(id) => r matches Some(v) && v@ == id,
            None => r is None,
        },
{
    let a = chars_of("application.name = \"PipeWire ALSA [radiance]\"");
    let b = chars_of("node.name = \"alsa_capture.radiance\"");
    if !(contains_chars(block, &a) || contains_chars(block, &b)) {
        return None;
    }
    let ls = lines_of(block);
    if ls.len() == 0 {
        return None;
    }
    assert(views(ls@)[0] == ls@[0]@);
    let header = trim_chars(&ls[0]);
    let prefix = chars_of("Source Output #");
    if !starts_with_chars(&header, &prefix) {
        return None;
    }
    let rest = slice_chars(&header, prefix.len(), header.len());
    Some(trim_chars(&rest))
}

/// The id of this program's capture stream in the listing of source outputs
/// (see `output_id_in`); the error of the listing itself is handed on.
pub fn current_radiance_source_output_id(listing: Result<String, String>) -> (r: Result<
    String,
    String,
>)
    ensures
        match listing {
            Err(e) => r == Err::<String, String>(e),
            Ok(text) => match output_id_in(text@) {
                Some(id) => r matches Ok(s) && s@ == id,
                None => r matches Err(e) && e@ == "Could not find the active Radiance capture stream"@,
            },
        },
{
    let text = match listing {
        Ok(text) => text,
        Err(e) => {
            return Err(e);
        },
    };
    proof {
        reveal_strlit("\n\n");
    }
    let separator = chars_of("\n\n");
    let blocks = split_chars(&chars_of(text.as_str()), &separator);
    let ghost bv = views(blocks@);
    assert(bv.skip(0) == bv);
    for i in 0..blocks.len()
        invariant
            listing == Ok::<String, String>(text),
            bv == views(blocks@),
            bv == split_seq(text@, "\n\n"@),
            first_output_id(bv) == first_output_id(bv.skip(i as int)),
    {
        assert(bv.skip(i as int)[0] == blocks@[i as int]@);
        assert(bv.skip(i as int).drop_first() == bv.skip(i + 1));
        match block_output_id_exec(&blocks[i]) {
            Some(id) => {
                return Ok(string_from_chars(id.as_slice()));
            },
            None => {},
        }
    }
    assert(bv.skip(blocks.len() as int).len() == 0);
    Err("Could not find the active Radiance capture stream".to_owned())
}

/// The name of the default source, from what `pactl get-default-source`
/// printed: the output without surrounding white space.
pub fn default_system_audio_source_name(output: Result<String, String>) -> (r: Result<
    String,
    String,
>)
    ensures
        match output {
            Ok(text) => r matches Ok(s) && s@ == trim(text@),
            Err(e) => r == Err::<String, String>(e),
        },
{
    match output {
        Ok(text) => {
            let t = trim_chars(&chars_of(text.as_str()));
            Ok(string_from_chars(t.as_slice()))
        },
        Err(e) => Err(e),
    }
}

/// The label shown for the selected system source: the default label, the
/// label of the first listed source of that name, or the name itself.
pub open spec fn selected_source_label(selected: Seq<char>, sources: Seq<SystemAudioSource>) -> Seq<
    char,
>
    decreases sources.len(),
{
    if selected == "System default source"@ {
        selected
    } else if sources.len() == 0 {
        selected
    } else if sources[0].name@ == selected {
        sources[0].label@
    } else {
        selected_source_label(selected, sources.drop_first())
    }
}

/// The label shown for the selected system source (see
/// `selected_source_label`).
pub fn selected_system_source_label(selected_source_name: &str, available_sources: &[SystemAudioSource]) -> (r: String)
    ensures
        r@ == selected_source_label(selected_source_name@, available_sources@),
{
    let selected = chars_of(selected_source_name);
    if chars_eq(&selected, &chars_of("System default source")) {
        return selected_source_name.to_owned();
    }
    let ghost sv = available_sources@;
    assert(sv.skip(0) == sv);
    for i in 0..available_sources.len()
        invariant
            sv == available_sources@,
            selected@ == selected_source_name@,
            selected@ != "System default source"@,
            selected_source_label(selected@, sv) == selected_source_label(selected@, sv.skip(i as int)),
    {
        assert(sv.skip(i as int)[0] == sv[i as int]);
        assert(sv.skip(i as int).drop_first() == sv.skip(i + 1));
        if chars_eq(&chars_of(available_sources[i].name.as_str()), &selected) {
            return available_sources[i].label.clone();
        }
    }
    assert(sv.skip(available_sources.len() as int).len() == 0);
    selected_source_name.to_owned()
}

/// The steps that move this program's capture stream to a system source:
/// each step but the last names the sound-server command to run next.
#[derive(Debug, PartialEq, Eq)]
pub enum CaptureRouting {
    /// Ask for the default source (`pactl get-default-source`).
    QueryDefaultSource,
    /// List the source outputs (`pactl list source-outputs`) to find the
    /// capture stream, to be moved to `target`.
    ListSourceOutputs { target: String },
    /// Move the stream `output_id` to `target` (`pactl move-source-output`).
    MoveSourceOutput { output_id: String, target: String },
    /// Done: the source now in use, or why the move failed.
    Finished(Result<Option<String>, String>),
}

/// The first step of moving the capture stream to `source_name` (to the
/// default source for `None`); where the platform has no sound server to
/// route with, the move fails at once.
pub fn move_radiance_capture_to_system_source(source_name: Option<&str>, routing_available: bool) -> (r: CaptureRouting)
    ensures
        !routing_available ==> (r matches CaptureRouting::Finished(Err(e)) && e@
            == "System source routing is only available on Linux"@),
        routing_available ==> match source_name {
            Some(name) => r matches CaptureRouting::ListSourceOutputs { target } && target@ == name@,
            None => r == CaptureRouting::QueryDefaultSource,
        },
{
    if !routing_available {
        return CaptureRouting::Finished(
            Err("System source routing is only available on Linux".to_owned()),
        );
    }
    match source_name {
        Some(name) => CaptureRouting::ListSourceOutputs { target: name.to_owned() },
        None => CaptureRouting::QueryDefaultSource,
    }
}

/// How many commands a move still runs, at most, from `step`.
pub open spec fn routing_steps_left(step: CaptureRouting) -> nat {
    match step {
        CaptureRouting::QueryDefaultSource => 3,
        CaptureRouting::ListSourceOutputs { .. } => 2,
        CaptureRouting::MoveSourceOutput { .. } => 1,
        CaptureRouting::Finished(_) => 0,
    }
}

/// The step after the command of `step` printed `output` (or failed with
/// it): the default source's name is trimmed, the capture stream's id read
/// from the listing, and the move's success reports the target; any failure
/// ends the move with that error. Every step brings the move closer to its
/// end, so a move runs at most three commands.
pub fn advance_capture_routing(step: CaptureRouting, output: Result<String, String>) -> (r: CaptureRouting)
    ensures
        step is Finished || routing_steps_left(r) < routing_steps_left(step),
        match step {
            CaptureRouting::QueryDefaultSource => match output {
                Ok(text) => r matches CaptureRouting::ListSourceOutputs { target } && target@ == trim(text@),
                Err(e) => r == CaptureRouting::Finished(Err(e)),
            },
            CaptureRouting::ListSourceOutputs { target } => match output {
                Ok(text) => match output_id_in(text@) {
                    Some(id) => r matches CaptureRouting::MoveSourceOutput { output_id, target: t }
                        && output_id@ == id && t == target,
                    None => r matches CaptureRouting::Finished(Err(e))
                        && e@ == "Could not find the active Radiance capture stream"@,
                },
                Err(e) => r == CaptureRouting::Finished(Err(e)),
            },
            CaptureRouting::MoveSourceOutput { output_id, target } => match output {
                Ok(_) => r == CaptureRouting::Finished(Ok(Some(target))),
                Err(e) => r == CaptureRouting::Finished(Err(e)),
            },
            CaptureRouting::Finished(_) => r == step,
        },
{
    match step {
        CaptureRouting::QueryDefaultSource => match default_system_audio_source_name(output) {
            Ok(target) => CaptureRouting::ListSourceOutputs { target },
            Err(e) => CaptureRouting::Finished(Err(e)),
        },
        CaptureRouting::ListSourceOutputs { target } => match current_radiance_source_output_id(output) {
            Ok(output_id) => CaptureRouting::MoveSourceOutput { output_id, target },
            Err(e) => CaptureRouting::Finished(Err(e)),
        },
        CaptureRouting::MoveSourceOutput { output_id: _, target } => match output {
            Ok(_) => CaptureRouting::Finished(Ok(Some(target))),
            Err(e) => CaptureRouting::Finished(Err(e)),
        },
        CaptureRouting::Finished(result) => CaptureRouting::Finished(result),
    }
}

/// The system source shown as selected once a move has finished: the source
/// the capture now uses, "System default source" when the move reported
/// none, and the previous selection when the move failed.
pub fn selected_source_after_routing(prev: &str, result: &Result<Option<String>, String>) -> (r: String)
    ensures
        match result {
            Ok(Some(name)) => r@ == name@,
            Ok(None) => r@ == "System default source"@,
            Err(_) => r@ == prev@,
        },
{
    match result {
        Ok(Some(name)) => name.clone(),
        Ok(None) => "System default source".to_owned(),
        Err(_) => prev.to_owned(),
    }
}

} // verus!
