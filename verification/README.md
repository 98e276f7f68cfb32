# schnellui_widgets

The widget logic of a retained-mode UI toolkit, written in Verus: every
function in `src/` carries a contract and is proved against it.

## Layout

`src/` is the verified library.

- Text editing: `boundary` (UTF-8 boundaries, word and line motion),
  `selection` (multi-selection replacement), `edit` (single-line editor
  state and keys), `pointer` (click, double-click word and triple-click line
  selection), `dispatch` (the editor entry points), `display` (password
  masking), `clipboard` (copy and paste normalisation), `area` (multi-line
  editor and vertical motion), `highlight` (selection and caret placement in
  bytes), `wrapped` (carets in soft-wrapped lines), `laws` (properties that
  span several operations).
- Widgets: `navigation` (tab bars, tabs, lists), `picker` (dropdowns and
  combo boxes), `combobox` (suggestion filtering), `table` (rows, headers,
  sorting), `tree` (click, selection and focus rules over a scene model),
  `terminal` (terminal grid model, hit testing, incremental repaint plans),
  `theme` (interaction styles), `svg` and `svg_markup` (vector-image
  builder, tag scanning, attribute, colour and paint syntax).
- Outside crates: `small_vec` holds secondary selections in a `SmallVec`;
  `segment` asks `unicode-segmentation` for word and grapheme boundaries.

`app/` is ordinary Rust around the library: floating-point geometry (pointer
mapping, label animation, SVG numbers, rasterization, theme blending, virtual
list heights) and the registries that own handler closures.

`tests/` exercises the library on concrete values.
