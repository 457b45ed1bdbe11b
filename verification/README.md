# annotate_snippets

A library that formats source code snippets with annotations into a text
report: a title line, the annotated source lines with their line numbers,
underlines and labels under the spans they point at, and footer messages.
Reports can be rendered as ASCII art (plain, or styled with terminal escape
codes), as HTML, or as text only, where positions are written as words.

The library is written in Verus. Every function under `src/` carries a
contract stated over mathematical models (`Seq`, `Map`, spec functions), and
Verus proves that the code meets it and never panics or overflows on the
inputs its `requires` admits.

## Layout

- `src/text.rs`, `src/cursor_line.rs`, `src/output.rs`: characters, bytes,
  lines of a source and numbers written in decimal.
- `src/snippet.rs`, `src/level.rs`: the input of a report (groups of titles,
  messages, causes, suggestions and origins).
- `src/renderer/`: the source map (byte offsets to lines and columns), the
  placement of annotations on lines, folding, the display list of a report,
  the text-only report, the report prepared for rendering, and the styles.
- `src/display_list/`, `src/format*.rs`, `src/display_list_formatting.rs`:
  the display list model and its plain, styled and coloured formatters.
- `src/ascii_default.rs`, `src/ascii_styles/`, `src/html.rs`,
  `src/styles.rs`, `src/marks.rs`, `src/term_paint.rs`: the ASCII and HTML
  renderers, their styles and the terminal colour codes.
- `src/laws.rs`, `src/label_laws.rs`: properties that relate several
  functions (folding, normalizing, the layout of a rendered line), stated and
  proved as public proof functions.
- `tests/`: tests on concrete values.
- `app/`: the parts that need outside traits (`Display`), around the library.

Outside crates (`unicode-width`, `anstyle`, `ansi_term`, `termcolor`,
`memchr`) are called through small wrappers whose contracts state what the
crates document; those contracts are the only unproved assumptions.
