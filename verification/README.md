# saga_seeker_html2md

Turns Saga & Seeker HTML character sheets into compact Markdown: the page is
decoded (UTF-8, or Shift_JIS), its skills are read from element attributes and
embedded JSON, hidden and decorative elements are removed, the page is rendered
as Markdown, and the rendering is cleaned up section by section.

- `src/` is the verified library (Verus). `text` holds the character-level
  primitives; `line_rules` classifies single lines; `markdown` splits and
  trims line lists; `status`, `skills` and `json` handle the status section and
  the skills; `sheet` decides what each section becomes and cleans up a whole
  page; `dom` holds the parsed page and the calls into its tree; `page`
  decodes, reads skills, strips the page and renders Markdown; `report` covers
  file names and the log; `laws` states what holds of every input.
- `app/` is the command-line program: it walks `input/`, writes `output/` and
  `log.txt`, and times each stage.
- `tests/` runs the library on concrete pages and lines.
