# eevee

The front half of a SystemVerilog simulator, verified with Verus: from source text
to a design of classes, register programs, nets, drivers and processes.

* `src/` is the library. Every function has a contract; the modules whose names end
  in `_laws` state what holds across functions.
  * `bit`, `bits`, `logic`, `literal`: four-state vectors.
  * `time`, `region`: simulation time and event regions.
  * `scan`, `macros`, `preprocess`: the preprocessor, on files that it is handed.
  * `verible`, `cst`: what the Verible parser reports.
  * `subset`, `syntax_check`, `strength`: the syntax that conformance mode accepts.
  * `lower*`, `drive`: from the parser's tree and the strengths among its tokens to
    the syntax tree in `ast`.
  * `stmt_check`, `net_check`, `delay_check`, `design_check`: the semantics that
    conformance mode accepts.
  * `mono*`, `mangle`: expanding parameterized classes, each expansion under a name
    of its own.
  * `gather`, `numbering`, `class_layout`, `link`: declarations, numbers and layouts.
  * `gen_*`, `compile`: compiling procedural code to the programs in `ir`.
  * `hierarchy`: module instances with their nets, drivers and processes.
  * `elaborate`: all of it.
* `app/` reads files, runs the parser and decodes what it prints; it also holds the
  times that are floating point.
* `tests/` runs the library.

A design is plain data: a scheduler instantiates its nets and drivers and runs its
processes. Delays are amounts in time units.

Permissive mode compiles what it can and stubs the callables that it cannot.
Conformance mode rejects syntax and semantics outside the supported subset, and any
design with a stub.
