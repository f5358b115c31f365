# md_viewer

The verified core of a lightweight Markdown previewer (a native web view fed
by an editor over standard input, or watching one file).

- `src/` is the library, verified with Verus:
  - `percent` — URL percent decoding of `asset://` paths and link targets,
    with the round-trip laws;
  - `path` — the sandbox: components, `starts_with`, `extension`, `file_name`
    and `parent` as `std::path::Path` has them on Unix, the prohibited system directories, the
    hidden-file rule, and the image and Markdown checks;
  - `mime` — image MIME types by extension;
  - `render` — Markdown to HTML (comrak) and the page shell with its content
    security policy;
  - `script` — the JavaScript calls the host evaluates;
  - `ipc` — editor messages to window events, and navigation decisions;
  - `text` — string comparison and the std text conversions used.
- `app/` is the program: arguments, standard input, file watching, file
  system access, the window and the web view.
- `tests/` exercises the library with concrete values.

The GitHub dark stylesheet is not part of this tree: `app/` reads it from
`assets/github-markdown-dark.min.css` beside the installed program.
