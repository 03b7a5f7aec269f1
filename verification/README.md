# tuicr

Word diff and side-by-side layout for reviewing a diff in the terminal, verified
with Verus.

`src/` is the library:

- `word_diff`: tokens of a line, and the tokens that differ between the two
  lines of a pair.
- `edit_script`, `unicode`, `text`: the edit scripts, grapheme clusters, display
  widths and byte ranges that it rests on.
- `style`, `paint`, `theme`: styled text, and highlights painted over byte
  ranges of it.
- `gutter`, `columns`, `line_rows`: line numbers, markers and the divider; the
  text of a column; the row of a diff line.
- `model`, `context`, `rows`: what a review holds, how it is shown, and the rows
  that come out.
- `comments`, `hunk_rows`, `gap_rows`, `side_by_side`: comments and threads,
  hunks, hidden lines, files, and the whole document.
- `viewport`: the rows on screen, wrapped and scrolled.
- `laws`, `culling`, `input_box`: what holds of every document.

Contracts speak of runs, the texts of a row with their styles, span by span.
Laws about single characters speak of the cells that runs show.

`app/` draws the rows in a panel of the terminal. Cutting and wrapping text,
header texts and overlays come from the application around it.
