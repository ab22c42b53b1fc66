# iotactl

A Miller-columns terminal browser over pluggable node sources: the local
filesystem, zip archives piped in from another source, JSON documents and a
built-in manual.

## Layout

- `src/` — the library, verified with Verus. It holds every decision the
  browser makes: how a command-line path selects and pipes node sources
  (`registry`), listing and previewing the filesystem (`fs`, `fs_preview`,
  `fs_format`), indexing and resolving paths inside a zip archive
  (`zip_index`, `zip_vfs`), JSON and manual sources (`json`, `manual`),
  syntax highlighting over tree-sitter's events (`highlight`), sanitizing
  untrusted text before it reaches the terminal (`sanitize`), simulated
  seeking over forward-only streams (`streams`), the navigation state
  machine (`browser`) and the screen layout, hit-testing and rendering
  decisions (`ui`). The laws that relate several functions are public
  proof functions (`lemma_*`). Where a result comes from tree-sitter or
  ratatui, the contract speaks of it through a named result of that
  call; which highlight configurations build is such a result, so the
  registry's contract lists the languages whose configuration built. The
  cancellation flag shared with worker threads carries no contract on
  its value.
- `app/` — the program around the library: command-line parsing, the
  terminal event loop, file and archive I/O, and drawing with ratatui.
- `tests/` — tests of the library on concrete values.
