# keynot

Terminal slide presentations from a single markdown file: slides are
separated by `---` lines, columns by `|||` lines, and an optional YAML
frontmatter sets the title, theme, transition and highlight style.

## Layout

- `src/` is the library, verified with Verus:
  - `markdown/` splits a source into frontmatter, slides and columns and
    parses each column's markdown (through pulldown-cmark) into blocks;
    `rejoin.rs` shows that slides written out again with `---` lines
    split back into themselves, and `span_form.rs` that the inline spans
    a column builds are non-empty, tab-free and merged;
  - `render/` turns blocks into styled, wrapped terminal lines: word
    wrap, code highlighting (through syntect), tables, lists, quotes,
    columns side by side and picture placement;
  - `render/dark_plus.rs` is the built-in `Dark+` code theme, the dark
    theme's default: a hand-written TextMate theme with VS Code's Dark+
    token colors (keywords blue, strings sienna, comments green,
    functions yellow, types teal, numbers pale green), loaded next to
    syntect's default themes. A language syntect does not know is
    highlighted as plain text;
  - `theme.rs` resolves the frontmatter's theme and color overrides;
  - `player.rs` is the player as a state machine: what each key does to
    the slide, the outline, the line highlight and the transitions;
  - `screen.rs` lays a frame out: the slide area, the footer, the
    outline, the help box and the highlight's styling;
  - `app/` holds the checks made before playing (`check`'s summary, the
    unknown frontmatter keys, the code theme) and the transition plans;
  - `template.rs` personalizes the starter deck for `keynot new` and
    titles it after the file.
- `app/` is the program around it: the command line, reading files and
  images, the YAML frontmatter, the terminal and its event loop.
- `tests/` exercises the library.
