# Silicon

A static check of RP2040 firmware: it reads C source and the chip's SVD file, and reports
every register write and SDK call that the SVD does not allow. What it cannot verify (a
target or a value that is not statically known, a field without an enumeration) it notes,
and never flags.

The library is written in Verus. Each function states in its contract what it returns, and
Verus proves it.

| Module | What it holds |
|---|---|
| `svd`, `svd_source`, `svd_model` | an SVD document, read with `svd-parser`, as a model that can be queried |
| `svd_text`, `svd_items` | the documents that `svd-parser` would not get through, told beforehand |
| `syntax`, `c_source` | C source, read with `tree-sitter`, as a syntax tree of plain values |
| `literal`, `macros`, `fw_parse` | integer literals, macros of a project, and the register accesses and SDK calls of a source |
| `fw_parse_laws` | what holds of every extraction |
| `bits`, `finding`, `checker`, `hal_check` | what is checked, and what is found |
| `checker_laws` | what holds of every check: findings rest on the SVD, mismatches are reported, uncertainty is only noted |
| `messages`, `report`, `report_laws`, `sarif` | findings in words, in the terminal and as SARIF 2.1.0 |
| `baseline`, `order`, `path_order`, `project` | known findings, the order of a report, and the check of a project |
| `project_laws` | the order of the files does not matter |
| `options`, `command`, `explain`, `listing`, `hook`, `watch` | the rest of the command |
| `text` | strings as sequences of characters |

`app/` is the command around the library: arguments, files, the terminal, the file watcher.
It reads the RP2040's SVD from `data/rp2040.svd` unless `--svd` or `.silicon.toml` names
another one.
