# commitguard

A Conventional Commits linter and changelog generator, written in Verus.

- `src/` is the verified library:
  - `text.rs`: trimming, line splitting, joining, substring search and decimal
    rendering over characters, each specified over `Seq<char>`;
  - `subject.rs`: the subject-line grammar `type(scope)!: description`, its
    matcher, and the proof that the grammar is unambiguous;
  - `parse.rs`: parsing a full message into a `ConventionalCommit`;
  - `lint.rs`: the lint rules and the rejection report;
  - `changelog.rs`: grouping commits by section and rendering the changelog;
  - `gitlog.rs`: the `git log` arguments and splitting its output into
    messages.
- `app/` is the command line: reading files, running git, installing the
  `commit-msg` hook, printing.
- `tests/` holds the tests, including a comparison of the verified grammar
  with the equivalent regular expression.
