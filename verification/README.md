# OneNote Linux — verified core

A desktop editor for imported Microsoft OneNote notebooks. The notebook logic
lives in a Verus-verified library (`src/`); the egui application, file and
network access, and all floating-point geometry live in `app/`.

## Library modules

- `text` — character searches, decimal formatting, trimming, and the
  Unicode character classes used by the rest.
- `model` — the editable project: sections, pages, positioned blocks, assets
  and Graph page links, and the small edits of the page list. Pixel values
  are kept as `f32` bit patterns and compared as they are written in JSON.
- `native` — the part of a native notebook that edits are written back to,
  text-occurrence counts, and paragraph replacement inside formatting runs.
- `plan` — planning which title and paragraph edits can be written back to a
  native `.one`/`.onepkg`, and applying a plan.
- `import` — visible text, table-cell text, the blocks an outline becomes,
  asset naming, and merging adjacent paragraphs into one box.
- `markdown` — Markdown export.
- `paths` — file formats, asset directories and asset paths, and which asset
  files a save or export writes.
- `html` — reading and replacing a page body and finding the Graph id of the
  synchronized content block.
- `graph` — Microsoft sign-in and Graph requests, sessions, error messages,
  multipart bodies, update commands, and the steps of updating a linked page.
- `sync` — the OneDrive dialog's state machine: what each reply and each
  action does to the connection state and to the project.
- `history` — bounded undo and redo of page edits.
- `workflow` — how paths are opened and saved, and the status messages.

## Application

`app/` draws the window, the canvas and the OneDrive dialog, reads and writes
files, talks to Microsoft Graph and the keyring, converts `libonenote`
documents to and from the library's model, and computes layouts and ink
geometry.
