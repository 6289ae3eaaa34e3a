# rlox

A tree-walking interpreter for the Lox language, whose front end and scope
handling are verified with Verus.

- `src/` is the verified library:
  - `scanner.rs`: the lexical grammar as spec functions over the source
    characters, and the scanner proved to follow it;
  - `grammar.rs`, `parser.rs`: the syntactic grammar as a recursive-descent
    spec over the token list (with error recovery), and the parser proved to
    follow it;
  - `resolution.rs`, `resolver.rs`: the static scope rules and the resolver
    proved to follow them;
  - `environment.rs`, `runtime.rs`, `bindings.rs`, `class.rs`,
    `instance.rs`: the run-time scopes, classes and instances;
  - `pipeline.rs`: source text to a resolved program;
  - `program_laws.rs` and the `law_*` proof functions: properties that relate
    the stages.
- `app/` is the command-line program and the evaluator, which computes with
  floating-point numbers and runs programs that need not terminate.
- `tests/` exercises the library on concrete programs.
