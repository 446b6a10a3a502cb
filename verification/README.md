# hjlib

Handoff tracking for the `hj` command line tool: the data model of a
handoff file, its validation and repair, the reconciliation of handoff
items with a todo list, Markdown rendering, the survey of handoffs across
repositories, and the repository bookkeeping around them.

## Layout

- `src/` is the library, written in Verus. Every function states its
  behaviour in `requires` / `ensures` and is proved against it, except
  four small trusted wrappers whose contracts are taken on trust:
  `String::push` and `char::to_uppercase` from std, and the `toml`
  crate's parse of a manifest (with its conversion to the library's
  `TomlValue`). The laws
  that span several functions (repair is idempotent, reconciliation
  accounts for every item, a survey lists each repository once, and so on)
  are public proof functions named `law_*`.
  - `text`, `yaml`: character and string helpers; a plain model of YAML
    values and of string-keyed field maps.
  - `model`, `items`, `naming`, `records`: handoff types and their item,
    naming and priority rules.
  - `validate`, `reconcile`, `render`, `session`: validation and repair,
    the reconcile plan, Markdown output, and the per-command decisions.
  - `handup`, `survey`: the cross-repository survey and its report.
  - `detect`, `paths`, `gitignore`, `store`, `alias`, `install`: project
    detection, path handling, the `.gitignore` block, database rows and
    parameters, argument aliasing and install arguments.
- `tests/` runs the library on concrete inputs.
- `app/` is the command line program: argument parsing, git and process
  calls, file and database I/O, and the serde forms of the library types.
  It hands plain values to the library and prints what comes back.
