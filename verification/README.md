# python_ls

The core of a language server for Python, verified with Verus, and the server around it.

- `src/` is the library. `text` converts between positions and byte offsets and applies edits;
  `syntax` and `parser` hold the tree of a module; `trace` walks through it; `search`, `binding`
  and `scope` find what a name stands for; `hover`, `symbols`, `location` and `references` answer
  requests; `modules` and `imports` find where an import leads; `source` and `workspace` keep the
  documents; `batch` sums up a run over many files. `laws` states what holds of the whole.
- `app/` is the server: the protocol, the file system, and the mode `--bench DIRECTORY`, which
  parses every Python file below a directory.
- `tests/` runs the library on concrete documents.
