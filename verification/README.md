# engram

A memory for coding agents. It keeps episodes, decisions, failures and procedures of a
project, finds them again, and serves them over the Model Context Protocol and on the
command line.

- `src/` is the library, written in Verus: the rules of retrieval, context composition,
  consolidation, reflection, evidence collection, the entity graph, the configuration, the
  command line and the protocol. The functions that decide or compute something carry
  contracts, and the laws that span functions stand beside them as public proof functions.
- `tests/` runs the library on concrete values.
- `app/` is the program around it: SQLite storage, git history, files, the embedding model,
  the floating-point ranking, standard input and output, and HTTP.

Scores and weights are floating-point numbers and are computed in `app/`. The library holds
them as bits, as hundredths, or as a rank with the text to show.

The environment variable `ENGRAM_RULES_FILE` names the file that the agents of a project
take their rules from. `init-guide` adds its import there, to `AGENTS.md` where none is
named, and `collect` files it under the guidelines.
