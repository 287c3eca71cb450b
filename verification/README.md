# jump

Jump-to-label navigation for a text editor, verified with Verus.

Typing into the jump bar searches the visible part of every open editor for
the query (ASCII letters compared without case). Every occurrence gets a
single-character label, nearest to the cursor first (rows weigh a thousand
columns; other editors than the cursor's pay a fixed penalty), taken from the
home row, then the top row, then the bottom row, then the same keys with shift,
skipping every character that follows some occurrence. Typing a label jumps to
its occurrence; with `autojump` on, a single occurrence is jumped to at once.

Layout:

- `src/text_search.rs`: the byte-level search in a UTF-8 text.
- `src/ranking.rs`: distances from the cursor and the stable sort by distance.
- `src/labels.rs`: label characters and the characters that exclude them.
- `src/jump_bar.rs`: the jump bar's state and its decisions on each event.
- `src/panes.rs`: the editors that the panes show, and where an editor is.
- `src/settings.rs`, `src/actions.rs`: settings and the action type.
- `src/laws.rs`: properties of the library as a whole, proved.
- `app/lib.rs`: the bar driven against traits that stand for the workspace,
  the editors and the query editor; the serde forms of the action and settings.
