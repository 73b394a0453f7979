# cortx

A schema-driven command line for a Second Brain kept as Markdown files with
YAML frontmatter (PARA + GTD), written in Verus.

- `src/` is the library, verified by Verus: values and their order, the
  frontmatter format, the `types.yaml` schema and validation, wikilinks, the
  query language (lexer, parser, evaluator), title slugs, and the rules of
  every command (what `create`, `update`, `rename`, `doctor`, `meta`, `note`,
  `query --sort-by` and `schema` compute). Contracts state each function's
  result over mathematical models; public proof functions state the laws
  that relate several functions (round trips of frontmatter and wikilinks,
  validation, back references, sorting).
- `app/` is the program around it: argument parsing with clap, YAML and TOML
  text through serde, the file system (reading, writing, locking and walking
  the vault), and printing.
- `tests/` run the library on concrete values.
