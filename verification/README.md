# guiguitsu

A tool for working on several stacked branches at once in a
[jj](https://github.com/jj-vcs/jj) workspace: every stack is a parent of one
workspace merge commit, and the tool lists the stacks, adds and removes them,
rebases them onto the remote trunk and moves their bookmarks forward.

The crate is written in Verus.

- `src/` is the library, verified: the command line and what each subcommand
  changes in the configuration and the merge parents, the git and jj command
  lines that the tool runs and the parsers of their output, the lane layout of
  the commit graph, and the text of the listings. Every public function states
  its result in its `ensures`; the `lemma_*` proof functions state the laws
  that hold across functions.
- `app/` is the program around it: it runs the planned git and jj commands,
  reads and writes the configuration file (serde), reads diffs with libgit2,
  and prints.
- `tests/` exercises the library on concrete values.
