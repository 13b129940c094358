# cargo vet

Supply-chain security for Rust: a project records which versions of its dependencies were
reviewed, and `cargo vet` tells what is still missing.

`src/` is a library with the rules, verified with Verus. `app/` is the program around it: the
command line, the files, the downloads and the runs of `git`. `tests/` runs the library on
concrete values.

| module | what it holds |
| --- | --- |
| `text` | decimal numbers, white space, lines and pieces of text |
| `version` | semantic versions: how they are read, written and ordered |
| `sorted` | lists in order, in which nothing occurs twice |
| `stable_map` | a map that keeps its keys in the order in which they came |
| `format` | what the files of the store hold |
| `metadata` | the packages of a workspace, and the files of a fresh store |
| `certify` | recording a review |
| `store` | loading and storing the files, and the audits of other projects |
| `cli`, `metaconfig` | the command line and the settings, and what follows from them |
| `vet`, `request` | the course of a check, and what is asked of the cache |
| `registry`, `cache`, `unpack` | finding, downloading and unpacking package sources |
| `diffstat`, `diff_cache`, `recommend` | the size of diffs, and which one is the smallest |
| `help` | the command line manual |

Functions whose names begin with `law_` state what holds of several functions together.

Some outside functions are trusted: the parser of semantic versions and their order, the test
whether a source is that of crates.io, and the decoding of UTF-8. What is taken for granted of
each stands in its contract.
