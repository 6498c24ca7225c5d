# parket

A parquet file viewer and converter. `parket file.parquet` opens the file in
a terminal view with a data tab and a schema tab, a case-insensitive search
over the rows and an export dialog; `parket export file.parquet --format
json|jsonl|csv [--output path]` converts the file.

The library under `src/` carries machine-checked contracts and proofs:

- `export`: the JSON, JSON Lines and CSV encodings of cells and tables, and
  the export path; the contracts give each document exactly.
- `app`: the viewer's state, modelled by `AppView`, with one spec function
  per operation and per key, and the invariant that every operation keeps.
- `ui`: the texts and windows that the screen shows.
- `data`: cell texts for export.
- `table`: how the library reads arrow record batches and schemas.
- `text`: character-level helpers.

`app/` holds the program around it: command line, reading the parquet file,
the terminal, drawing, and writing files.
