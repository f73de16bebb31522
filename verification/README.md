# Ferrix

Ferrix is a small language with a register bytecode: a bytecode model with a verifier, an
optimizer, a binary format and a disassembler, an assembler with labels, a source compiler,
diagnostics, and the decisions of its command line tools. The library is written in Verus: its
functions state what they return, and the statements are proved. What the clock says, and so how
long a pass of the optimizer takes, is left open.

## Layout

- `src/bytecode`: instructions, chunks and programs; structural verification; the optimizer; the
  binary format; feature flags; the disassembler; what executing a chunk means.
- `src/assembler`: a builder for chunks with named labels.
- `src/compiler`: lexer, parser, name analysis, linking of modules, code generation and reports;
  what source code means.
- `src/diagnostics`: source files, locations and rendered messages.
- `src/cli`: commands, package manifests, module loading, the debugger and the benchmark baseline.
- `app`: the command line tools around the library. No virtual machine is linked into them.
- `tests`: tests of the library; some of them run programs on small interpreters of their own.

## What holds

The public proof functions state what holds across functions. Among others:

- what is encoded decodes to the same program, programs and containers are told apart, and bytes
  that were cut short, extended or damaged are refused;
- different instructions have different texts;
- a token's characters alone are that token again, top-level statements part the tokens, every
  part of a syntax tree lies within the part around it, and two texts parse apart;
- a verified program has all of its operands in bounds;
- optimized chunks execute as the chunks that they come from, and stay valid;
- compiled functions and function literals do what their source means, and functions that capture
  one variable share it;
- programs that name analysis accepts compile, up to the limits of the format;
- modules are loaded once, after their imports, and import cycles are reported.
