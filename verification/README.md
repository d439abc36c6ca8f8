# snek_compiler

A compiler from the snek expression language to x86-64 instructions, verified with
Verus: each compiling function is proved to produce exactly the code, or the error,
that a mathematical description of the compiler gives, and properties of the whole
compiler are proved as lemmas over that description.

## Layout

- `src/ast.rs` — expressions, their sizes, and the stack slots they need (`stack_depth`).
- `src/instr.rs` — the instructions the compiler emits, and their abstract forms.
- `src/context.rs` — the compiling context and the state threaded through compiling.
- `src/envmap.rs` — the persistent maps (`im::HashMap`) of the environments, with the
  contracts assumed of the `im` methods used.
- `src/codegen.rs` — the description of what each expression compiles to.
- `src/compiler.rs` — the compiler itself: `depth`, and `compile_expr`,
  `compile_expr_aligned`, `compile_func_defns` for valid programs, beside
  `try_compile_expr`, `try_compile_expr_aligned`, `try_compile_func_defns`, which
  also tell an invalid program by its error.
- `src/listing.rs` — the assembly text of instructions (`instrs_to_string`).
- `src/assemble.rs` — the labels a piece of code defines, for an assembler.
- `src/error.rs` — compile errors and their messages.
- `src/text.rs` — decimal forms of numbers and generated label names.
- `src/laws.rs`, `src/frame.rs`, `src/jumps.rs` — properties of the compiler: labels
  are defined once, every jump lands on a label, and code writes only inside its frame
  wherever the frame's size counts every slot written (a call's depth counts only its
  arguments' number, so where an argument needs more slots the frame can be too small).
- `app/lib.rs` — machine-code emission with `dynasmrt` (`instrs_to_asm`).
- `tests/` — tests on concrete programs.
