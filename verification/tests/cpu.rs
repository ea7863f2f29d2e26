use emu::cpu::cache::CacheAddr;
use emu::cpu::proc;
use emu::cpu::{Cpu, Regs};
use emu::isa::{self, Register};
use emu::lexer::tokenize;
use emu::mem::{Console, Dram, Endpoint, MemoryController, PhysAddr, Sram};
use emu::parser::parse;
use emu::ops::{Operand, OperandInner, Operation};

fn r(n: u16) -> Operand {
    Operand { ty: OperandInner::Register, word: n, deref: false }
}

fn r_star(n: u16) -> Operand {
    Operand { ty: OperandInner::Register, word: n, deref: true }
}

fn lit(n: u16) -> Operand {
    Operand { ty: OperandInner::Literal, word: n, deref: false }
}

fn lit_star(n: u16) -> Operand {
    Operand { ty: OperandInner::Literal, word: n, deref: true }
}

fn add(op0: Operand, op1: Operand) -> Operation {
    Operation::Add(op0, op1)
}

// Runs one operation on the four-register core over a main memory, after
// seeding memory and setting registers.
fn run(op: Operation, seed: &[(u16, u8)], regs: &[(usize, u16)]) -> Cpu {
    let mut mc = MemoryController::new();
    mc.reg_mem_ep(Endpoint::Dram(Dram::new()));
    for (a, v) in seed {
        mc.write(PhysAddr::new(*a), *v);
    }
    let mut cpu = Cpu::new(mc, vec![op]);
    for (i, v) in regs {
        cpu.regs.set(*i, *v);
    }
    assert!(!cpu.next_step_faults());
    while cpu.execute().is_some() {}
    cpu
}

#[test]
fn cpu_test_add() {
    // Test adding lit to reg
    let cpu = run(add(r(0), lit(1)), &[], &[]);
    assert_eq!(cpu.regs.get(0), 1);

    // Test adding reg to reg
    let cpu = run(add(r(0), r(1)), &[], &[(0, 2), (1, 3)]);
    assert_eq!(cpu.regs.get(0), 5);

    // Test adding lit to *reg
    let cpu = run(add(r_star(0), lit(0xFF00)), &[], &[]);
    let entry = cpu.cache.lookup(emu::cache::CacheAddr::from(0)).expect("Cache entry not present");
    assert_eq!(entry, 0xFF00);
    assert_eq!(cpu.memory().sideband_read(PhysAddr::new(0)), 0);
    assert_eq!(cpu.memory().sideband_read(PhysAddr::new(1)), 0xFF);

    // Test adding reg to *reg
    let cpu = run(add(r_star(0), r(1)), &[(0x00, 0xAD)], &[(1, 0xDE00)]);
    let entry = cpu.cache.lookup(emu::cache::CacheAddr::from(0)).expect("Cache entry not present");
    assert_eq!(entry, 0xDEAD);
    assert_eq!(cpu.memory().sideband_read(PhysAddr::new(0)), 0xAD);
    assert_eq!(cpu.memory().sideband_read(PhysAddr::new(1)), 0xDE);

    // Test adding lit to *lit
    let cpu = run(add(lit_star(0x00), lit(0xDE00)), &[(0x00, 0xAD)], &[]);
    let entry = cpu.cache.lookup(emu::cache::CacheAddr::from(0)).expect("Cache entry not present");
    assert_eq!(entry, 0xDEAD);
    assert_eq!(cpu.memory().sideband_read(PhysAddr::new(0)), 0xAD);
    assert_eq!(cpu.memory().sideband_read(PhysAddr::new(1)), 0xDE);

    // Test adding reg to *lit
    let cpu = run(add(lit_star(0x00), r(0)), &[(0x00, 0xAD)], &[(0, 0xDE00)]);
    let entry = cpu.cache.lookup(emu::cache::CacheAddr::from(0)).expect("Cache entry not present");
    assert_eq!(entry, 0xDEAD);
    assert_eq!(cpu.memory().sideband_read(PhysAddr::new(0)), 0xAD);
    assert_eq!(cpu.memory().sideband_read(PhysAddr::new(1)), 0xDE);

    // Test adding *reg to *reg
    let cpu = run(add(r_star(0), r_star(1)), &[(0x00, 0xAD), (0x03, 0xDE)], &[(0, 0x00), (1, 0x02)]);
    let entry = cpu.cache.lookup(emu::cache::CacheAddr::from(0)).expect("Cache entry not present");
    assert_eq!(entry, 0xDEAD);
    assert_eq!(cpu.memory().sideband_read(PhysAddr::new(0)), 0xAD);
    assert_eq!(cpu.memory().sideband_read(PhysAddr::new(1)), 0xDE);
}

#[test]
fn four_register_core_sub_and_mov() {
    let cpu = run(Operation::Sub(r(2), lit(3)), &[], &[(2, 10)]);
    assert_eq!(cpu.regs.get(2), 7);
    assert!(cpu.regs.is_highlighted(2));
    assert!(!cpu.regs.is_highlighted(0));
    let cpu = run(Operation::Mov(lit_star(0x10), lit(0x1234)), &[], &[]);
    assert_eq!(cpu.memory().sideband_read(PhysAddr::new(0x10)), 0x34);
    assert_eq!(cpu.memory().sideband_read(PhysAddr::new(0x11)), 0x12);
    assert_eq!(cpu.position(), 1);
}

#[test]
fn four_register_core_faults() {
    let mut mc = MemoryController::new();
    mc.reg_mem_ep(Endpoint::Dram(Dram::new()));
    let faults = |op: Operation| {
        let mut mc = MemoryController::new();
        mc.reg_mem_ep(Endpoint::Dram(Dram::new()));
        Cpu::new(mc, vec![op]).next_step_faults()
    };
    // A literal destination.
    assert!(faults(add(lit(1), lit(1))));
    // A register the core lacks.
    assert!(faults(add(r(4), lit(1))));
    // An odd address, and one beyond the cache's reach.
    assert!(faults(add(lit_star(1), lit(1))));
    assert!(faults(add(lit_star(0x100), lit(1))));
    // Overflow and underflow.
    assert!(faults(Operation::Sub(r(0), lit(1))));
    assert!(!faults(add(r(0), lit(0xFFFF))));
    let cpu = Cpu::new(mc, vec![]);
    assert!(!cpu.next_step_faults());
}

#[test]
fn four_register_core_stops_at_the_end_of_its_program() {
    let mut mc = MemoryController::new();
    mc.reg_mem_ep(Endpoint::Dram(Dram::new()));
    let mut cpu = Cpu::new(mc, vec![add(r(1), lit(2)), add(r(1), lit(3))]);
    assert_eq!(cpu.execute(), Some(()));
    assert_eq!(cpu.execute(), Some(()));
    assert_eq!(cpu.execute(), None);
    assert_eq!(cpu.regs.get(1), 5);
    assert_eq!(cpu.program().len(), 2);
    cpu.regs.clear_highlights();
    assert!(!cpu.regs.is_highlighted(1));
    cpu.kill();
}

#[test]
fn registers_of_the_four_register_core() {
    let mut regs = Regs::new();
    assert_eq!(regs.name(0), "0");
    assert_eq!(regs.name(3), "3");
    regs.set(3, 9);
    assert_eq!(regs.get(3), 9);
    assert!(regs.is_highlighted(3));
    regs.clear_highlights();
    assert!(!regs.is_highlighted(3));
    assert_eq!(regs.get(3), 9);
}

// A core with `program` at the start of program memory, the rest of which
// holds the filler byte.
fn core_with(program: &[isa::Operation]) -> proc::Cpu {
    let mut sram = [0x6Bu8; 0x0FFF];
    let mut pos = 0;
    for op in program {
        for b in op.compile() {
            sram[pos] = b;
            pos += 1;
        }
    }
    let mut mc = MemoryController::new();
    mc.reg_mem_ep(Endpoint::Dram(Dram::new()));
    mc.reg_mem_ep(Endpoint::Sram(Sram::new(sram)));
    proc::Cpu::new(mc)
}

fn ireg(r: Register) -> isa::Operand {
    isa::Operand::RValue(isa::OperandInner::Register(r))
}

fn ireg_star(r: Register) -> isa::Operand {
    isa::Operand::LValue(isa::OperandInner::Register(r))
}

fn ilit(v: u16) -> isa::Operand {
    isa::Operand::RValue(isa::OperandInner::Literal(v))
}

fn ilit_star(v: u16) -> isa::Operand {
    isa::Operand::LValue(isa::OperandInner::Literal(v))
}

fn run_core(program: &[isa::Operation], seed: &[(u16, u8)], regs: &[(Register, u16)]) -> proc::Cpu {
    let mut prog = program.to_vec();
    prog.push(isa::Operation::End);
    let mut cpu = core_with(&prog);
    for (a, v) in seed {
        cpu.mc.write(PhysAddr::new(*a), *v);
    }
    for (r, v) in regs {
        cpu.regs.set(*r, *v);
    }
    loop {
        assert!(!cpu.next_step_faults());
        if cpu.execute().is_none() {
            break;
        }
    }
    cpu
}

#[test]
fn proc_test_add() {
    // Test adding lit to reg
    let cpu = run_core(&[isa::Operation::Add(ireg(Register::R0), ilit(1))], &[], &[]);
    assert_eq!(cpu.regs.get(Register::R0), 1);
    assert_eq!(cpu.counts.steps, 2);
    assert_eq!(cpu.mc.writes(), 0);

    // Test adding reg to reg
    let cpu = run_core(
        &[isa::Operation::Add(ireg(Register::R0), ireg(Register::R1))],
        &[],
        &[(Register::R0, 2), (Register::R1, 3)],
    );
    assert_eq!(cpu.regs.get(Register::R0), 5);

    // Test adding lit to *reg
    let cpu = run_core(&[isa::Operation::Add(ireg_star(Register::R0), ilit(0xFF00))], &[], &[]);
    let entry = cpu.cache.lookup(CacheAddr::from(0)).expect("Cache entry not present");
    assert_eq!(entry, 0xFF00);
    assert_eq!(cpu.mc.sideband_read(PhysAddr::new(0)), 0);
    assert_eq!(cpu.mc.sideband_read(PhysAddr::new(1)), 0xFF);

    // Test adding reg to *reg
    let cpu = run_core(
        &[isa::Operation::Add(ireg_star(Register::R0), ireg(Register::R1))],
        &[(0x00, 0xAD)],
        &[(Register::R1, 0xDE00)],
    );
    let entry = cpu.cache.lookup(CacheAddr::from(0)).expect("Cache entry not present");
    assert_eq!(entry, 0xDEAD);
    assert_eq!(cpu.mc.sideband_read(PhysAddr::new(0)), 0xAD);
    assert_eq!(cpu.mc.sideband_read(PhysAddr::new(1)), 0xDE);

    // Test adding lit to *lit
    let cpu = run_core(&[isa::Operation::Add(ilit_star(0x00), ilit(0xDE00))], &[(0x00, 0xAD)], &[]);
    let entry = cpu.cache.lookup(CacheAddr::from(0)).expect("Cache entry not present");
    assert_eq!(entry, 0xDEAD);
    assert_eq!(cpu.mc.sideband_read(PhysAddr::new(0)), 0xAD);
    assert_eq!(cpu.mc.sideband_read(PhysAddr::new(1)), 0xDE);

    // Test adding reg to *lit
    let cpu = run_core(
        &[isa::Operation::Add(ilit_star(0x00), ireg(Register::R0))],
        &[(0x00, 0xAD)],
        &[(Register::R0, 0xDE00)],
    );
    let entry = cpu.cache.lookup(CacheAddr::from(0)).expect("Cache entry not present");
    assert_eq!(entry, 0xDEAD);
    assert_eq!(cpu.mc.sideband_read(PhysAddr::new(0)), 0xAD);
    assert_eq!(cpu.mc.sideband_read(PhysAddr::new(1)), 0xDE);

    // Test adding *reg to *reg
    let cpu = run_core(
        &[isa::Operation::Add(ireg_star(Register::R0), ireg_star(Register::R1))],
        &[(0x00, 0xAD), (0x03, 0xDE)],
        &[(Register::R0, 0x00), (Register::R1, 0x02)],
    );
    let entry = cpu.cache.lookup(CacheAddr::from(0)).expect("Cache entry not present");
    assert_eq!(entry, 0xDEAD);
    assert_eq!(cpu.mc.sideband_read(PhysAddr::new(0)), 0xAD);
    assert_eq!(cpu.mc.sideband_read(PhysAddr::new(1)), 0xDE);
}

#[test]
fn core_compares_and_jumps() {
    let jmp_target = 0xF000 + 6 + 4 + 6;
    let cpu = run_core(
        &[
            isa::Operation::Cmp(ireg(Register::R0), ilit(0)),
            isa::Operation::Jmp(ilit(jmp_target)),
            isa::Operation::Mov(ireg(Register::R1), ilit(99)),
        ],
        &[],
        &[],
    );
    assert_eq!(cpu.regs.get(Register::ST) % 2, 1);
    assert_eq!(cpu.regs.get(Register::R1), 0);
    assert_eq!(cpu.regs.get(Register::IP), jmp_target + 2);
}

#[test]
fn core_faults_and_upcoming_instructions() {
    let add = isa::Operation::Add(ireg(Register::R0), ilit(1));
    let bad = isa::Operation::Add(ilit(1), ilit(1));
    let cpu = core_with(&[add, bad]);
    assert!(!cpu.next_step_faults());
    assert_eq!(cpu.upcoming(5), vec![add, bad]);
    assert_eq!(cpu.upcoming(1), vec![add]);
    let mut cpu = cpu;
    assert_eq!(cpu.execute(), Some(()));
    assert!(cpu.next_step_faults());
    // A push with the stack pointer at the bottom of the address space.
    let mut cpu = core_with(&[isa::Operation::Psh(ilit(1))]);
    cpu.regs.set(Register::SP, 1);
    assert!(cpu.next_step_faults());
    assert_eq!(cpu.next_write_address(), None);
    // The filler byte is no instruction.
    let cpu = core_with(&[]);
    assert!(cpu.next_step_faults());
    assert_eq!(cpu.upcoming(3), vec![]);
}

#[test]
fn core_tells_where_the_next_step_writes() {
    let cpu = core_with(&[isa::Operation::Mov(ilit_star(0x10), ilit(7))]);
    assert_eq!(cpu.next_write_address(), Some(0x10));
    let cpu = core_with(&[isa::Operation::Add(ireg(Register::R0), ilit(7))]);
    assert_eq!(cpu.next_write_address(), None);
    let mut cpu = core_with(&[isa::Operation::Sub(ireg_star(Register::R2), ilit(0))]);
    cpu.regs.set(Register::R2, 0x40);
    assert_eq!(cpu.next_write_address(), Some(0x40));
    assert_eq!(cpu.execute(), Some(()));
    assert!(cpu.regs.is_highlighted(Register::IP));
    assert!(!cpu.regs.is_highlighted(Register::R0));
}

// A core running the assembly `source`, with the console mapped ahead of
// main memory, stepped until it halts.
fn run_source(source: &str) -> proc::Cpu {
    let ops = parse(tokenize(source.to_string()).unwrap());
    let mut sram = [0x6Bu8; 0x0FFF];
    let mut pos = 0;
    for op in ops {
        for b in op.compile() {
            sram[pos] = b;
            pos += 1;
        }
    }
    let mut mc = MemoryController::new();
    mc.reg_mem_ep(Endpoint::Console(Console::new()));
    mc.reg_mem_ep(Endpoint::Dram(Dram::new()));
    mc.reg_mem_ep(Endpoint::Sram(Sram::new(sram)));
    let mut cpu = proc::Cpu::new(mc);
    loop {
        assert!(!cpu.next_step_faults());
        if cpu.execute().is_none() {
            break;
        }
    }
    cpu
}

#[test]
fn core_pushes_and_pops() {
    let cpu = run_source("psh 13\npsh 37\npop $r0\npop $r1\nend\n");
    assert_eq!(cpu.regs.get(Register::R0), 37);
    assert_eq!(cpu.regs.get(Register::R1), 13);
    assert_eq!(cpu.regs.get(Register::SP), 0x0100);
    // The stack grows downwards from 0x0100 a word at a time.
    assert_eq!(cpu.mc.sideband_read(PhysAddr::new(0x00FE)), 13);
    assert_eq!(cpu.mc.sideband_read(PhysAddr::new(0x00FC)), 37);
}

#[test]
fn core_push_moves_the_stack_pointer_down() {
    let mut cpu = core_with(&[isa::Operation::Psh(ilit(0xBEEF))]);
    assert_eq!(cpu.next_write_address(), Some(0x00FE));
    assert_eq!(cpu.execute(), Some(()));
    assert_eq!(cpu.regs.get(Register::SP), 0x00FE);
    assert!(cpu.regs.is_highlighted(Register::SP));
    assert_eq!(cpu.mc.sideband_read(PhysAddr::new(0x00FE)), 0xEF);
    assert_eq!(cpu.mc.sideband_read(PhysAddr::new(0x00FF)), 0xBE);
}

#[test]
fn core_calls_and_returns() {
    let cpu = run_source("psh 13\npsh 37\ncal FOO\nend\n\nFOO:\nret\n");
    assert_eq!(cpu.regs.get(Register::SP), 0x00FC);
    // `end` sits after two pushes of four bytes and a call of four bytes.
    assert_eq!(cpu.regs.get(Register::IP), 0xF000 + 12 + 2);
    let cpu = run_source("mov $r0,0\ncal INC_R0\ncal INC_R0\nend\n\n// Increments the value in $r0\nINC_R0:\nadd $r0,1\nret\n");
    assert_eq!(cpu.regs.get(Register::R0), 2);
    assert_eq!(cpu.regs.get(Register::SP), 0x0100);
}

#[test]
fn core_takes_system_calls_through_the_interrupt_table() {
    let source = "MAIN:\nmov *0,SYSCALL_0\nmov *2,SYSCALL_1\nmov $it,0\n\nsys 1\nend\n\nSYSCALL_0:\nmov $r0,7\nret\n\nSYSCALL_1:\nmov $r0,1\nret\n";
    let cpu = run_source(source);
    assert_eq!(cpu.regs.get(Register::R0), 1);
    let cpu = run_source(&source.replace("sys 1", "sys 0"));
    assert_eq!(cpu.regs.get(Register::R0), 7);
    // A handler that only returns leaves the stack as it was.
    let cpu = run_source("mov *0,H\nmov $it,0\nsys 0\nend\nH:\nret\n");
    assert_eq!(cpu.regs.get(Register::SP), 0x0100);
    assert_eq!(cpu.regs.get(Register::IP), 0xF000 + 6 + 6 + 4 + 2);
}

#[test]
fn core_prints_hello_world_to_the_console() {
    let source = "MAIN:
// Setup idt
mov *0,SYS_CALL_PUTC
mov $it,0

// He
mov $r0,25928
mov $r1,0
sys 0

// ll
mov $r0,27756
mov $r1,2
sys 0

// 'o '
mov $r0,8303
mov $r1,4
sys 0

// Wo
mov $r0,28503
mov $r1,6
sys 0

// rl
mov $r0,27762
mov $r1,8
sys 0

// d!
mov $r0,8548
mov $r1,10
sys 0
end

// $r0: char
// $r1: buf_idx
SYS_CALL_PUTC:
// Calculate address in display buffer
mov $r2,57344
add $r2,$r1
// Write
mov *$r2,$r0
ret
";
    let cpu = run_source(source);
    let text: Vec<u8> = (0..12).map(|i| cpu.mc.sideband_read(PhysAddr::new(0xE000 + i))).collect();
    assert_eq!(text, b"Hello World!".to_vec());
}

#[test]
fn core_branches_on_the_zero_flag() {
    let source = "cmp $r0,0\njeq SKIP\nmov $r1,5\nSKIP:\ncmp $r0,1\njne OUT\nmov $r2,5\nOUT:\nend\n";
    let cpu = run_source(source);
    assert_eq!(cpu.regs.get(Register::R1), 0);
    assert_eq!(cpu.regs.get(Register::R2), 0);
    let cpu = run_source("cmp $r0,1\njeq SKIP\nmov $r1,5\nSKIP:\nend\n");
    assert_eq!(cpu.regs.get(Register::R1), 5);
}

#[test]
fn four_register_core_sets_and_reads_registers() {
    let mut mc = MemoryController::new();
    mc.reg_mem_ep(Endpoint::Dram(Dram::new()));
    let mut cpu = Cpu::new(mc, vec![add(r(2), r(1))]);
    cpu.set_register(1, 40);
    assert_eq!(cpu.register(1), 40);
    assert!(cpu.register_highlighted(1));
    cpu.clear_register_highlights();
    assert!(!cpu.register_highlighted(1));
    assert_eq!(cpu.execute(), Some(()));
    assert_eq!(cpu.register(2), 40);
    assert!(cpu.register_highlighted(2));
}

#[test]
fn core_stores_only_the_word_it_names() {
    let mut cpu = core_with(&[isa::Operation::Mov(ilit_star(0x10), ilit(0x0707))]);
    cpu.mc.write(PhysAddr::new(0x0F), 1);
    cpu.mc.write(PhysAddr::new(0x12), 2);
    assert_eq!(cpu.execute(), Some(()));
    assert_eq!(cpu.mc.sideband_read(PhysAddr::new(0x10)), 7);
    assert_eq!(cpu.mc.sideband_read(PhysAddr::new(0x11)), 7);
    assert_eq!(cpu.mc.sideband_read(PhysAddr::new(0x0F)), 1);
    assert_eq!(cpu.mc.sideband_read(PhysAddr::new(0x12)), 2);
    assert_eq!(cpu.mc.writes(), 4);
}

#[test]
fn core_counts_its_cache_lookups_and_memory_traffic() {
    // `add $r0, 1` takes six bytes, three cache lines, all missed at first.
    let mut cpu = core_with(&[isa::Operation::Add(ireg(Register::R0), ilit(1))]);
    assert_eq!(cpu.execute(), Some(()));
    assert_eq!(cpu.counts.steps, 1);
    assert_eq!(cpu.counts.cache_reads, 6);
    assert_eq!(cpu.counts.cache_writes, 3);
    assert_eq!((cpu.mc.reads(), cpu.mc.writes()), (6, 0));
    // A store to a dereferenced literal: one lookup of its line, one insert,
    // and its two bytes written.
    let mut cpu = core_with(&[isa::Operation::Mov(ilit_star(0x10), ilit(7))]);
    assert_eq!(cpu.execute(), Some(()));
    assert_eq!(cpu.counts.cache_reads, 6 + 1);
    assert_eq!(cpu.counts.cache_writes, 3 + 1 + 1);
    assert_eq!((cpu.mc.reads(), cpu.mc.writes()), (6 + 2, 2));
}

#[test]
fn four_register_core_counts_its_cache_lookups() {
    let mut mc = MemoryController::new();
    mc.reg_mem_ep(Endpoint::Dram(Dram::new()));
    let mut cpu = Cpu::new(mc, vec![add(r_star(0), lit(1)), add(r(1), lit(1))]);
    assert_eq!(cpu.execute(), Some(()));
    let c = cpu.counts();
    assert_eq!((c.steps, c.cache_reads, c.cache_writes), (1, 2, 2));
    assert_eq!((cpu.memory().reads(), cpu.memory().writes()), (2, 2));
    assert_eq!(cpu.execute(), Some(()));
    let c = cpu.counts();
    assert_eq!((c.steps, c.cache_reads, c.cache_writes), (2, 2, 2));
    assert_eq!(cpu.execute(), None);
    assert_eq!(cpu.counts().steps, 2);
}
