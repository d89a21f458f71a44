# phm

A per-shell PHP version manager for Homebrew installations, written in Verus.

- `src/` is the library. Every function in it is verified by Verus against its
  `requires`/`ensures` contract, stated over `Seq<char>` models of the text involved:
  version and Composer-constraint parsing, resolution of a constraint against the
  installed versions, discovery of Homebrew installations from the entries of
  `/opt/homebrew/opt`, the generated shell setup code, the `default` and `current`
  files, multishell directory names, the decisions of `install`, `uninstall`, `exec`
  `use` and `list`, and the `doctor` report. Public `law_*` proof functions state properties
  that span several functions (for example, that parsing a printed version gives it back).
- `app/` is the command-line program: argument handling (clap), file-system and process
  work, terminal colours, and the `composer.json` deserialisation (serde). It hands the
  library plain values and acts on what it returns.
- `tests/` exercises the library on concrete inputs, including comparisons with the
  standard library's own text functions.
