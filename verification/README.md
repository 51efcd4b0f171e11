# dpx

Verified core of the dvipdfmx font-file helpers.

- `src/` (verified with Verus):
  - `bytes` — byte-string search and comparison.
  - `sniff` — recognising TrueType, OpenType (CFF), PFB Type 1 and dfont streams.
  - `names` — default suffixes, dfont resource-fork names, the temporary directory and temporary-file template.
  - `settings` — verbosity and cache-keeping mode.
  - `type1` — base fonts, descriptor flags, metric probe glyphs, subset font names, widths character range.
  - `encoding` — encoding, charset and glyph map of a Type 1 font subset, with its laws.
  - `charstrings` — the charstring conversion loop: `seac` component glyphs joining the subset, recorded widths, and buffer growth.
  - `fontfile` — layout and reserved size of the embedded CFF font file.
- `app/` — file I/O, temporary files, process-wide settings and the floating-point metrics.
- `tests/` — tests of the library on concrete values.
