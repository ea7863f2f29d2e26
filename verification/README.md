# emu

A toy 16-bit machine and its tools, written in Verus: every function of the
library in `src/` carries a contract that Verus proves.

- `cfg`: word types and the machine's configuration.
- `text`: the string handling the assembly readers need (numbers, trimming,
  splitting), specified character by character.
- `machine_code`: the instruction layout (mneumonic byte, metadata byte, two
  bytes per operand), its encoder and decoder, and the law that decoding an
  encoded instruction gives it back.
- `isa`: registers, operands and operations, their text and machine code.
- `bytecode`: the bytecode of the arithmetic operations and its
  disassembly, with the law that disassembling assembled code gives the
  operations back.
- `ops`: the arithmetic instruction set of the four-register core.
- `lexer`, `parser`: the two-pass assembler, with the law that labels resolve
  to the addresses of the code they mark.
- `listing`: assembling listings line by line and reading machine code back.
- `mem`: physical addresses, the memory endpoints, the controller that
  routes and counts each access, and the machine's memory map.
- `cache`, `cpu::cache`: the set-associative caches.
- `cpu`: the four-register core; `cpu::proc` the core that runs machine code
  from memory through a write-through cache, proved to behave as the
  cache-free machine does, with a downward-growing stack, calls, returns and
  system calls through an interrupt table (a pop gives back what a push
  stored, and a return right after a call or system call restores every
  register).
- `telemetry`: cycle counts per module.

`app/` holds the terminal front end and the command-line tools; `tests/`
exercises the library.
