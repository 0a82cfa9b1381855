# tuitr

A terminal file viewer and annotator: browse a directory tree, read a file
with syntax highlighting, attach comments to lines, search, switch to a
compiled LaTeX view or a side-by-side git diff, and copy comments to the
clipboard as a prompt.

## Layout

- `src/` is the library, verified with Verus:
  - `text.rs`: lines, words, trimming, decimal notation;
  - `layout.rs`: row counts, widths, word wrapping, wrapping of highlighted text;
  - `tree.rs`: the file tree built from directory listings, expand/collapse;
  - `editor.rs`: the viewer state (`App`): cursor, scrolling, comments,
    search, view modes, opening and reloading files;
  - `keys.rs`: what each key and mouse event does, and which outside work it asks for;
  - `diff.rs`: the rows of the side-by-side diff, from `similar`'s line diff;
  - `prompt.rs`: the prompt built from every stored comment;
  - `highlight.rs`: highlighting with `syntect`;
  - `path.rs`: file names and extensions;
  - `screen.rs`: the text and colours of every panel;
  - `laws.rs`: properties that span several operations.
- `app/` is the terminal program: it reads the disk, keeps the comment
  database, talks to the clipboard, `git` and `pandoc`, and draws with ratatui.
- `tests/` runs the library on concrete cases.
