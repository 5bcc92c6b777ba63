# zaroxi_interface_desktop

Verified presentation logic of a desktop code editor shell, written in Verus.

`src/` holds the logic, each function with a contract proved by Verus:

- `wrap`, `wrap_styled`: soft wrapping of editor lines at word boundaries,
  for plain text and for colored run streams, on one shared row plan.
- `syntax_spans`: validation of highlight spans against the text they color,
  carrying spans across an edit with the edited lines kept plain, and the
  colored runs of lines and viewport windows.
- `tab_state`, `destination`: the workbench tab model, destinations of the
  activity rail, sidebar rows and file tab labels.
- `status_bar`: the status bar model derived from live inputs and its zones.
- `terminal`: bottom dock tab/focus decisions and the session commands the
  caller performs, plus the dock's header texts.
- `terminal_grid`: projection of a terminal screen grid into text runs and
  background cells.
- `editor_content`: the overscanned editor window, its text, restored
  trailing empty lines, body title and tab entries, which colorizing pass
  applies, and the editor payload assembled from the work content.
- `syntax_cache`: incremental colorizing with a per-line cache of runs.
- `scrollbars`: when a panel's scrollbar thumb shows.
- `render_schedule`, `render_state`, `ui_nodes`, `diff_markers`: frame pacing
  and redraw decisions,
  render payload cache keys, retained UI-node dirtiness, change markers.
- `editor_buf`, `icons`, `explorer`, `ai_presenter`: tab expansion and column
  mapping, file tree glyphs, explorer texts, AI panel status.

Public proof functions named `law_*` state properties that hold across
calls or over all inputs.

`tests/` runs the library on concrete values. `app/` is the thin
unverified glue: environment switches, the monotonic clock, and the
floating-point metrics (frame rate, grid size, colors).
