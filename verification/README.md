# specgraphen

Extracts specifications from legacy Java code bases: Java sources are lifted
into a graph of entities and relations with their places in the sources, and
questions about the graph are answered with evidence. Branching methods and
JSP screens become minimized decision tables.

The library under `src/` is written in Verus. Every function states what it
returns over mathematical models of its data, and the laws of the library are
proved beside the code they speak of:

- `logic`: decision tables, exact minimization (Quine-McCluskey) and heuristic
  minimization over cubes; minimized rules agree with every observed row.
- `lift`: syntax trees, decision tables of methods and screens, entities and
  relations; the rules of a method give its outcome under any truth of its
  conditions (`rule_laws`, `tag_laws`), and every lifted cell has a witness
  (`lift_laws`).
- `model`: cells, incidences, spaces and the graph store.
- `query`: the answers to questions about a space; a change affects exactly
  what depends on it (`impact_laws`).
- `invariants`: structural checks of a space.
- `corroboration` and `llm`: questions to a language model and what becomes of
  its replies.
- `mcp`: the tools of the server, their calls and their answers.
- `cli`: what the command line decides and prints.

`app/` is the program around the library: arguments, files, JSON and standard
input and output.
