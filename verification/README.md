# pilisp_jit

The native-code compiler of pi-lisp, a small Lisp: it turns bytecode chunks into
x86-64 code, and holds the runtime helpers that the code calls, the decisions of
the read-eval-print loop, and those of the command line.

`src/` is the library, verified with Verus.

- `assembly`, `bytecode`: instructions and labels; chunks and values.
- `double`: doubles as bit patterns: comparison, and conversion from and to
  integers.
- `frame`, `jit_abi`: the frame of a compiled function and the runtime helpers.
  A helper that needs the interpreter is split into a request and the handling of
  the reply.
- `jit_compiler`: the compiler.
- `machine`, `layout`, `execution`, `convention`, `simulation`: a model of the
  processor, and the proof that compiled code does what the bytecode does.
- `runtime`, `model`: the library's helpers in such a run, how a run ends when one
  of them fails, and a runtime for which all of this holds.
- `repl`, `cli`: the loop and the command line.

`app/` is the program around it: terminal, files, the memory that compiled code
runs in, and the calls into the interpreter crate `pilisp`, which brings the
reader, the evaluator, the heap, the virtual machine and the encoder.

`tests/` runs the library, compiled code included, on a small model of the
processor.
