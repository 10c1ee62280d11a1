# rua

Rua is a small scripting language with Chinese keywords (`变量`, `如果`,
`当`, `返回`, `喵`, `喵叫`). This crate is its implementation, written in
Verus: every function of the library carries a contract that Verus proves.

## Layout

- `src/lexer.rs`, `src/parser.rs`, `src/ast.rs` — the front end. Both the
  lexer and the parser are specified by functional definitions of the token
  stream and of the grammar.
- `src/runtime.rs` — the tree-walking interpreter as a step machine (tasks,
  values, scopes, an array heap). Printing and calls of machine code are
  reported by `Runtime::exec` to its caller.
- `src/vm.rs` — the bytecode engine for integer functions: the VM-able test,
  the compiler (specified instruction by instruction) and the frame machine.
- `src/jit.rs` — the x86-64 code generator for the same functions: byte-exact
  instruction encoders, labels, the frame plan and code generation, each
  function's bytes specified exactly. The generated bytes and the addresses
  they embed are handed to the caller.
- `src/native/` — the `.rab` bytecode file reader and its register machine.
- `src/listing.rs` — the debug listings: the syntax-tree outline, token
  lines and function lines, specified character by character.
- `src/text.rs` — decimal rendering and string quoting.
- `app/` — the command-line program: file reading, output, timing, printing
  the debug listings, executable memory and calls into generated code.
- `tests/` — tests of the library through its public interface.
