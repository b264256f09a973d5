# stock_cli

The decision-making core of a terminal stock screener, written in Verus and
proved against its contracts.

- `src/` is the verified library: routing and key handling (`navigation`),
  menus, pickers and the preset-name dialog (`menus`), preset slugs and string
  helpers (`text`), file listings (`files`), stable sorting (`sorting`), the
  results table with its sort order, scrolling and footer (`results`), the
  chart's history cache and timeframes (`chart`), the sampling of price series
  for drawing (`series`), the threshold editor (`thresholds`), column widths
  and list layout (`width`) and screen geometry (`layout`).
- `app/` is the terminal front end: it draws with ratatui, reads keys with
  crossterm, reads directories and the clock, and hands every decision to the
  library.
- `tests/` runs the library on concrete inputs.

Public proof functions named `lemma_*` state the library's laws, such as that
flipping the sort direction twice restores the table, that a delivered price
history stays cached, or that switching a metric twice restores the editor.
