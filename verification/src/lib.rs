//! A toy 16-bit machine: its instruction set, assembler front end, machine-code
//! encoding, memory fabric, cache and CPU, each with a verified contract.

pub mod cfg;
pub mod machine_code;
pub mod bytecode;
pub mod text;
pub mod isa;
pub mod mem;
pub mod cache;
pub mod cpu;
pub mod lexer;
pub mod parser;
pub mod listing;
pub mod ops;
pub mod telemetry;
