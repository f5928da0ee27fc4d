# texforge

A command-line tool that builds LaTeX projects to PDF with the Tectonic
engine, formats and lints `.tex` sources, renders embedded Mermaid diagrams,
and manages templates and a user configuration.

The crate is split in two:

- `src/` is the library, written in Verus. Every function in it carries a
  contract that Verus proves: the formatter, the linter, the placeholder
  resolver, the configuration keys, the template manifest checks, version
  parsing and ordering, the engine's error report, diagram replacement, and
  the decisions and texts of the commands. The laws of the library (for
  instance that formatting is idempotent, that a value written to the
  configuration is read back, or that a version's text parses back to it)
  are public proof functions next to the code they speak of.
- `app/` is the program around it: command-line parsing, files, the Tectonic
  process, HTTP requests to GitHub, TOML reading and writing, and writing
  the rendered SVG files.

The Mermaid renderer measures text with the fonts installed on the machine
and can panic on malformed input, so the program calls it, catching such a
panic, and hands its outcomes to `diagrams::render_diagrams`, which is proved
for every outcome: which sources go to the renderer is fixed by
`diagrams::diagram_sources`.

`tests/` exercises the library on concrete values, including each law.
