# codememory

A local context engine for coding assistants. It indexes a project (file
digests, symbols found with tree-sitter, marker comments, import
statements), records git
history, and answers which files matter for a task by a five-stage ranking:
full-text hits, import neighbours, matching commits and churn, the working
set, and pruning to the ten best.

Layout:

- `src/` is the verified library (Verus). Each module states its results as
  spec functions and proves the code against them. What an outside crate
  computes (a SHA-256 digest, tree-sitter's parse and query matches) is
  given a name, an uninterpreted spec function, in the contract of the
  small trusted function that calls it, and the library's contracts are
  stated over those names:
  `text` (lines, words, trimming, decimal rendering), `digest` (project and
  file identifiers), `git` (branch and log output), `history` (rows for the
  change history), `indexer` (file records, skipping rules, marker
  comments, import statements), `sessions`, `parsers::syntax` (handles on
  tree-sitter's parser, trees and queries), `parsers::tree_sitter` (symbol
  extraction), `search` (the full-text query), `onboarding` (reasons of the
  reading list), `working_set` (changed files) and `smart_context` (the
  score board, the stages and their composition, and the ranking). Scores
  are kept in hundredths.
- `app/` is the program around it: SQLite through rusqlite, running git,
  walking the directory, and the entry point.
- `tests/` runs the library on concrete values.
