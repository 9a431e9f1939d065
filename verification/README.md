# cw — a Conventional Commits assistant

`cw` guides the writing of Conventional Commit messages, checks the
messages of a range of commits, rewords the ones that do not conform,
bumps the semantic version and writes a changelog.

## Layout

- `src/` — the library, verified with Verus:
  - `text.rs`, `textmap.rs`: text primitives over `Seq<char>` and a sorted
    string-keyed map (`StrMap`) with its map model;
  - `git/`: the header grammar (validation and parsing), version bumps,
    GitHub web addresses, tags, status lists, push outcomes;
  - `config/`: the configuration and how it is completed with defaults;
  - `commit/`: the changelog rendering, the fix file and the reword
    workflow;
  - `command/`: the decisions of each subcommand (what is accepted, the
    message written, the files produced).
- `tests/`: tests of the library.
- `app/`: the command-line program: argument parsing, prompts, files,
  Git access and configuration files, around the library.
