use emu::mem::{
    dispatch, Block, Console, Dram, Endpoint, MemoryController, MemoryFabricEndpoint, MemoryOps,
    MemoryRegion, Offset, PhysAddr, Sram,
};

fn dram_controller() -> MemoryController {
    let mut mc = MemoryController::new();
    mc.reg_mem_ep(Endpoint::Dram(Dram::new()));
    mc
}

#[test]
fn test_read() {
    let mut mc = dram_controller();
    mc.write(PhysAddr::new(0x0), 0xDE);
    mc.write(PhysAddr::new(0x1), 0xAD);
    mc.write(PhysAddr::new(0x2), 0xBE);
    mc.write(PhysAddr::new(0x3), 0xEF);

    assert_eq!(mc.read(PhysAddr::new(0x0)), 0xDE);
    assert_eq!(mc.read(PhysAddr::new(0x1)), 0xAD);
    assert_eq!(mc.read(PhysAddr::new(0x2)), 0xBE);
    assert_eq!(mc.read(PhysAddr::new(0x3)), 0xEF);

    mc.kill();
}

#[test]
fn test_write() {
    let mut mc = dram_controller();

    mc.write(PhysAddr::new(0x0), 0xDE);
    mc.write(PhysAddr::new(0x1), 0xAD);
    mc.write(PhysAddr::new(0x2), 0xBE);
    mc.write(PhysAddr::new(0x3), 0xEF);

    assert_eq!(mc.sideband_read(PhysAddr::new(0x0)), 0xDE);
    assert_eq!(mc.sideband_read(PhysAddr::new(0x1)), 0xAD);
    assert_eq!(mc.sideband_read(PhysAddr::new(0x2)), 0xBE);
    assert_eq!(mc.sideband_read(PhysAddr::new(0x3)), 0xEF);

    mc.kill();
}

#[test]
fn the_first_endpoint_holding_an_address_serves_it() {
    let mut program = [0u8; 0x0FFF];
    program[0] = 0x11;
    program[0x0FFE] = 0x22;
    let mut mc = MemoryController::new();
    mc.reg_mem_ep(Endpoint::Dram(Dram::new()));
    mc.reg_mem_ep(Endpoint::Sram(Sram::new(program)));
    mc.reg_mem_ep(Endpoint::Console(Console::new()));
    assert_eq!(mc.read(PhysAddr::new(0xF000)), 0x11);
    assert_eq!(mc.read(PhysAddr::new(0xFFFE)), 0x22);
    assert!(!mc.is_mapped(PhysAddr::new(0xFFFF)));
    assert!(mc.is_mapped(PhysAddr::new(0xEFFF)));
    // The console's buffer lies inside the main memory's region, which was
    // registered first: the main memory serves those addresses.
    mc.write(PhysAddr::new(0xE000), 0x41);
    assert_eq!(mc.read(PhysAddr::new(0xE000)), 0x41);
    assert_eq!(
        mc.describe(),
        "Memory Controller EPs:\tDRAM: [0x0000-0xF000]\tSRAM: [0xF000-0xFFFF]\tConsole: [0xE000-0xE040]"
    );
}

#[test]
fn addresses_and_regions() {
    let a = PhysAddr::new(0xFFFF);
    assert_eq!(a.plus(Offset::new(2)).into_raw(), 1);
    assert_eq!(PhysAddr::new(1).minus(Offset::new(2)).into_raw(), 0xFFFF);
    assert_eq!(PhysAddr::new(0x10).offset_from(PhysAddr::new(0x4)).into_raw(), 0xC);
    assert!(PhysAddr::new(4).is_word_aligned());
    assert!(!PhysAddr::new(5).is_word_aligned());
    let mut b = PhysAddr::new(0x10);
    b.add_assign(Offset::new(0x20));
    assert_eq!(b.into_raw(), 0x30);
    assert_eq!(a.to_string(), "0xFFFF");
    assert_eq!(Offset::new(0x2A).to_string(), "0x002A");
    let r = MemoryRegion::new(PhysAddr::new(0xE000), Offset::new(64));
    assert!(r.contains(PhysAddr::new(0xE000)));
    assert!(r.contains(PhysAddr::new(0xE03F)));
    assert!(!r.contains(PhysAddr::new(0xE040)));
    assert!(!r.contains(PhysAddr::new(0xDFFF)));
}

#[test]
fn blocks_serve_requests() {
    let mut dram = Dram::new();
    let w = dram.serve(MemoryOps::Write(Offset::new(7), 9));
    assert_eq!(w.reply, None);
    assert!(w.keep_serving);
    let r = dram.serve(MemoryOps::Read(Offset::new(7)));
    assert_eq!(r.reply, Some(9));
    assert!(!dram.serve(MemoryOps::Kill).keep_serving);

    let mut console = Console::new();
    console.serve(MemoryOps::Write(Offset::new(3), b'x'));
    assert_eq!(console.byte(3), b'x');
    assert_eq!(console.serve(MemoryOps::Read(Offset::new(3))).reply, Some(b'x'));
    assert_eq!(console.id(), Some("Console".to_string()));
    assert_eq!(console.region().begin.into_raw(), 0xE000);
}

#[test]
fn a_block_serves_requests_until_it_is_killed() {
    let mut dram = Dram::new();
    let ops = vec![
        MemoryOps::Write(Offset::new(1), 0xAA),
        MemoryOps::Read(Offset::new(1)),
        MemoryOps::Read(Offset::new(2)),
        MemoryOps::Kill,
        MemoryOps::Write(Offset::new(2), 0xBB),
    ];
    assert_eq!(dispatch(&mut dram, &ops), vec![None, Some(0xAA), Some(0), None]);
    // The write after the kill was not served.
    assert_eq!(dram.serve(MemoryOps::Read(Offset::new(2))).reply, Some(0));

    let mut console = Console::new();
    let replies = dispatch(&mut console, &vec![MemoryOps::Write(Offset::new(63), b'!'), MemoryOps::Read(Offset::new(63))]);
    assert_eq!(replies, vec![None, Some(b'!')]);
}

#[test]
fn program_memory_holds_the_image_then_filler() {
    let sram = Sram::from_image(&[1, 2, 3]).unwrap();
    let mut mc = MemoryController::new();
    mc.reg_mem_ep(Endpoint::Sram(sram));
    assert_eq!(mc.read(PhysAddr::new(0xF000)), 1);
    assert_eq!(mc.read(PhysAddr::new(0xF002)), 3);
    assert_eq!(mc.read(PhysAddr::new(0xF003)), 0x6B);
    assert_eq!(mc.read(PhysAddr::new(0xFFFE)), 0x6B);
    assert!(Sram::from_image(&vec![0u8; 0x1000]).is_none());
    assert!(Sram::from_image(&vec![0u8; 0x0FFF]).is_some());
    assert_eq!(mc.len(), 1);
    assert!(matches!(mc.endpoint(0), Endpoint::Sram(_)));
}

#[test]
fn the_machine_map_puts_the_console_ahead_of_main_memory() {
    let mut mc = MemoryController::machine_map(Sram::new([7u8; 0x0FFF]));
    assert_eq!(mc.len(), 3);
    assert_eq!((mc.reads(), mc.writes()), (0, 0));
    mc.write(PhysAddr::new(0xE000), b'H');
    match mc.endpoint(0) {
        Endpoint::Console(c) => assert_eq!(c.byte(0), b'H'),
        _ => panic!("the console comes first"),
    }
    assert_eq!(mc.read(PhysAddr::new(0xE000)), b'H');
    assert_eq!(mc.read(PhysAddr::new(0xF000)), 7);
    assert_eq!(mc.read(PhysAddr::new(0x0100)), 0);
    assert_eq!((mc.reads(), mc.writes()), (3, 1));
    assert_eq!(mc.sideband_read(PhysAddr::new(0xF000)), 7);
    assert_eq!(mc.reads(), 3);
}

#[test]
fn words_and_addresses_convert_both_ways() {
    let a = PhysAddr::from(0xBEEFu16);
    assert_eq!(a, PhysAddr::new(0xBEEF));
    assert_eq!(u16::from(a), 0xBEEF);
    assert_eq!(PhysAddr::new(0x1234).into_raw(), 0x1234);
    assert_eq!(Offset::from(7u16), Offset::new(7));
}

#[test]
fn a_read_gives_the_last_write_to_its_address() {
    let mut mc = dram_controller();
    mc.write(PhysAddr::new(0x40), 1);
    mc.write(PhysAddr::new(0x41), 2);
    mc.write(PhysAddr::new(0x40), 3);
    assert_eq!(mc.read(PhysAddr::new(0x40)), 3);
    assert_eq!(mc.sideband_read(PhysAddr::new(0x40)), 3);
    assert_eq!(mc.read(PhysAddr::new(0x41)), 2);
}
