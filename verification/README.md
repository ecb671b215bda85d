# pingtest

The verified core of a batch ping tool.

- `src/` is the library, checked by Verus:
  - `source` decides from a file name how a target list is read
    (`.xlsx`, `.xls`, `.txt`/`.csv`) and drives the reading step by step:
    each step says what file or workbook access the caller does next;
  - `workbook` picks the sheet to read and splits off its header row;
  - `text` reads plain-text lists: one target per non-blank line, trimmed;
  - `export` plans the result workbook: columns, headers and row cells;
  - `commands` holds the decisions behind the application's commands:
    setting up targets, starting and stopping a run, the run summary.
- `app/` is a small command-line front end: file access, opening and
  reading workbooks with `calamine`, writing result workbooks with
  `rust_xlsxwriter`, and serde copies of the data types.
- `tests/` runs the library on concrete inputs.
