# pimtron

The content side of a personal site (portfolio, blog, projects page),
written in Verus.

- `src/` is the verified library: text utilities with their models
  (`text`), a stable newest-first sort and its laws (`order`), dates through
  `chrono` (`dates`), Markdown through `pulldown_cmark` (`markdown`), front
  matter, embedded pages and the project list (`content`), posts from the
  publishing service's records (`records`), posts bundled with the program
  (`embedded`), the site generator's decisions and code highlighting
  through `syntect` (`generate`), and what the pages decide before they
  render (`view`).
- `tests/` runs the library on concrete values.
- `app/` is the Leptos application and the generator's file handling:
  network requests, the file system, the DOM, and serde.
