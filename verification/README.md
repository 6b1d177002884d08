# Chronicle

The verified core of Chronicle, a writing tool for Japanese novels: projects made of
chapters (directories) of tales (Markdown files) and of reference materials, with a
preview that turns `{漢字|かんじ}` into ruby, every line into a paragraph and sets the
Japanese comma and full stop apart.

- `src/` — the library, verified with Verus:
  - `markdown/` — preprocessing, rendering (pulldown-cmark) and punctuation markup,
    with the properties of whole texts in `markdown/properties.rs`;
  - `model/` — the project, its naming rules (`NN-title`, `stem-k.md`), renaming and
    removal, paths, labels; properties in `model/properties.rs`;
  - `editor.rs` — the formatting commands and their selections;
  - `session.rs` — character counts, daily progress, recent projects, tabs (opening, closing, deletions, renames), auto-save, the sidebar's recent list;
  - `export.rs` — the pages and file names of the exports;
  - `import.rs` — reading a project archive (zip) and where it unpacks;
  - `dialog.rs` — deletion messages, rename headings, name checks, numbers typed into settings;
  - `text.rs` — character helpers.
- `tests/` — tests of the library.
- `app/` — a command-line program around the library: files, JSON, ZIP archives.
