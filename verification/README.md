# cutix_native

The rules of the cutix desktop editor that do not depend on its windowing toolkit,
written in Verus and proved against their contracts.

- `src/` is the verified library. The self-update is its largest part: which archive a
  platform takes (`update`), which release is offered (`version`, `update`), what a
  checksum listing says (`checksum`), which archive entries may be unpacked and with
  which permissions (`archive`, `tar`), which files were moved aside and how they are
  recorded (`leftovers`), and how the update moves from a found release to a restart
  (`phase`). Beside it: the project list's search and order (`projects`), the
  properties panel's tabs (`properties`), the theme's tokens (`theme`), template and
  sticker names (`templates`, `stickers`), text animation presets and windows
  (`text_anim`), sound credits and saved sounds (`sounds`), and the reframe sampling
  plan (`reframe`, whose frame size follows double-precision rounding exactly, computed
  in integers). `chars` holds the text rules the others state their results with.
- `app/` is ordinary Rust around it: the network, the file system and the process for
  the self-update, the settings file, process-wide flags, and the measures the editor
  computes in floating point.
- `tests/` runs the library on concrete values.

Calls into outside crates stand behind small trusted wrappers whose contracts are the
only unproved claims: `sha2` for the digest of a download, and a few functions of the
standard library on text (`String::push`, `str::to_lowercase`,
`String::from_utf8_lossy`, and `char`'s case and alphanumeric tests).
