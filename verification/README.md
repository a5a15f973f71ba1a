# svlint

A SystemVerilog linter. The library (`src/`) holds what the linter decides,
with contracts proved by Verus:

- `syntaxrules/`: the rules `identifier_matches_filename`,
  `implicit_case_default` and `parameter_in_package`, each a function from the
  events of a walk over a syntax tree (and, for `implicit_case_default`, what it
  remembers) to a verdict;
- `control`: the grammar of control comments (`/* svlint off rule */`);
- `linter`, `run`: the rules that a configuration switches on, control comments,
  and whether a run passes;
- `define`, `opt`: macro definitions from the command line and file lists, and
  the sources to lint;
- `path`, `text`: file names and character sequences.

`app/` is the command-line program: it parses options, reads the config file,
parses the sources with `sv-parser`, turns each node of the syntax tree into the
library's events and prints what the rules report.
