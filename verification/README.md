# lib: a TypeScript-to-bytecode virtual machine, verified with Verus

The library takes TypeScript source through lexing, parsing, semantic
analysis, typed IR lowering and bytecode compilation, and it checks,
encodes and decodes the resulting bytecode modules. Around that pipeline
it provides a generational garbage-collected heap, a module graph bundler,
planning for the TypeScript scripts of a page, a small DOM and the
results exchanged over the C interface. Each public function has a
`requires`/`ensures` contract over mathematical models (`Seq`, `Map`,
`int`), and Verus proves the code against it.

## Layout

- `src/` is the verified library. It has one module per stage:
  - `lexer`, `parser`, `semantic`, `ir`, `compiler` and `checker` make up
    the compilation pipeline;
  - `codec` is the byte format;
  - `heap`, `modules`, `scripts`, `dom`, `prepared`, `interop`, `capi`
    and `bench` cover the rest.

  Modules whose names end in `_spec` hold the spec functions that the
  contracts are written in, together with their lemmas. The laws that
  relate several operations are public proof functions whose names begin
  with `law_`, for example:
  - `law_decode_refuses_prefix_and_extension`;
  - `law_collect_keeps_exactly_what_roots_reach`;
  - `law_clean_graph_has_nothing_to_report`.
- `tests/` holds ordinary Rust tests of the library.
- `app/` is the unverified program around the library. It holds:
  - the `f64` interpreter;
  - the benchmarks, which need the clock;
  - the browser bindings and the C pointer interface.

  It calls the library and checks each function's preconditions before
  the call.

## Trust

Only a few standard-library calls are trusted, each behind a small
wrapper whose contract is stated in its doc comment:

- `String::from_iter`
- `str::from_utf8`
- `Debug` formatting of `str`
- `BTreeMap::iter`
- `slice::sort_unstable`
