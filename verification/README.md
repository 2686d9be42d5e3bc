# ctadl_ascent

The front ends of CTADL, a taint-analysis tool, as a verified library. C and C++ source is parsed
with tree-sitter and lowered to a control-flow graph of loads, stores, assignments and calls; what
several units define is linked into one program; what cannot be lowered as written is reported.

Every function of `src/` is proved against its contract with [Verus](https://github.com/verus-lang/verus).
The contracts are stated over spec functions on sequences, maps and integers; the laws that relate
several functions are public proof functions beside them.

## Layout

| Module | What it holds |
| --- | --- |
| `syntax`, `kinds` | syntax trees, and the nodes they consist of |
| `shapes` | what is read off declarators, types, initializers and assemblies |
| `units`, `plan` | the definitions of an import, and which function each of them is |
| `scope`, `paths`, `mir` | scopes, access paths, and the intermediate representation |
| `state` | the state of lowering a function, and its elementary steps |
| `lowering` | what every expression and statement is lowered to, as spec functions |
| `expressions`, `statements`, `function`, `program` | the lowering itself, for C |
| `labels` | when lowering cannot fail |
| `edges` | where control goes: the edges of loops and branches |
| `externs` | stubs for functions that are only called |
| `classes`, `graph`, `discovery`, `objects`, `construction`, `cpp` | what C++ adds |
| `report`, `dump`, `sources` | reports, the annotated IR dump, which files are read |
| `xapk`, `cli` | app bundles, and what the commands decide |
| `lattice` | the lattice of at most one value per key |
| `collections`, `text`, `error` | hash tables, strings, errors |

`tests/` runs the library on source text; `tests/c_flows.rs` holds a small flow analysis of its own
to see that what the source passes on is passed on in the IR. `app/` is the command-line program
around the library: argument parsing, files, logging, and a backend that keeps imports in memory.

## What is trusted

Parsing is tree-sitter's, with the `tree-sitter-c` and `tree-sitter-cpp` grammars; the library names
the rows of the tree that a text is parsed to, and says nothing of what they are. Whatever rows come
back, a tree is only built from them if they are those of a tree whose nodes have the parts that the
library reads. Hash tables are `hashbrown`'s, behind wrappers that state what each method does. Of
the standard library, `str`'s `==`, `String::push` and `char::is_whitespace` are taken to do what
their documentation says.
