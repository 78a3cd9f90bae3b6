# xtop_widgets

The widget packs of the xtop terminal monitor, split in two:

- `src/` — the verified library. Every widget's layout decisions (which
  rows, columns and cells a box of a given size gets, which texts they
  carry, how options select cores, interfaces, mounts and sections) are
  functions with contracts proved by Verus, together with the laws that
  hold across them (selections never go blank, the selected process is
  always in view, cut text always fits its width, chart columns tile the
  history, the order and repetition of a core spec's items never change
  what it selects, and so on).
- `app/` — the renderers: they read the widget state, hand the library
  plain values, and paint what it plans into the ratatui buffer. The
  floating-point samples (usages, rates, temperatures) and the colors stay
  here.
- `tests/` — examples on concrete values for the library's functions and
  laws.
