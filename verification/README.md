# radiance (verified core)

The decision-making core of the Radiance live-visuals application, written
in Verus. Every function in `src/` carries a contract, and Verus proves all
of them but two: two small wrappers around the standard library, which Verus
believes without proof. `text.rs` builds a `String` from characters by
collecting them (`string_from_chars`), and `library.rs` lowercases text with
`str::to_lowercase` (`to_lowercase`), whose result is named by the
uninterpreted `unicode_lowercase` rather than described.

- `src/audio_input.rs`: audio input devices, their classification by name,
  their order, and the choice of the input to listen to.
- `src/capture.rs`: choosing an input stream configuration, and mixing
  interleaved integer samples down to mono.
- `src/system_audio.rs`: reading the sound server's listings, labelling and
  ordering system sources, and the steps that route the capture stream.
- `src/effect_node.rs`: effect node state, props checks, and the texture
  ring through which an effect's channels render (with its laws).
- `src/library.rs`: the node library: items of the library files, custom
  items, filtering, ranking and selection in the library panel.
- `src/nodes.rs`: pass-through nodes and the props shared by all nodes.
- `src/settings.rs`: saved settings, labels, environment switches.
- `src/perf.rs`: frame performance samples and their batching.
- `src/frame.rs`: per-frame decisions (autosave, Auto DJ slots, panels, the
  layers of the UI background).
- `src/order.rs`, `src/text.rs`: the stable sort and the string operations
  the rest is built on, each specified over character sequences.

`app/` holds the I/O around the core: the audio host, the sound server's
command-line tool, the settings file, and performance reports.
