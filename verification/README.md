# narsil-mcp

A code-intelligence server that speaks the Model Context Protocol. It indexes repositories,
answers questions about their symbols, references, calls and history, and follows their
changes.

## Layout

- `src/` is the library, verified with Verus. It holds the index, the rules that decide what
  is indexed and when, the tools that answer queries, and the protocol. It does no input or
  output: what a file, a commit or a language server says comes in as a plain value.
- `app/` is the program around it: the command line, the file system, git, GNU Global, the
  language servers and the transports.
- `tests/` runs the library on concrete values.

## What is proved

Every function of the library states in its contract what it returns or changes, and Verus
proves the contract for all inputs. Properties that span several functions are public proof
functions whose names begin with `law_`.

Calls into outside crates (`glob`, `ignore`, `serde_json`, `sha2`) and into a few functions of the
standard library go through small wrappers. What Verus is told about each of them stands
above it.
