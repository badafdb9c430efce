use systemless::cpu::{is_unknown_operand, CpuExit, M68kCpu, Register, StepResult};
use systemless::memory::MacMemoryBus;
use systemless::runner::{FixtureRunner, FixtureRunnerConfig};

fn processor_at(pc: u32, words: &[u16]) -> (M68kCpu, MacMemoryBus) {
    let mut cpu = M68kCpu::new();
    let mut bus = MacMemoryBus::new(0x2_0000);
    for (i, word) in words.iter().enumerate() {
        bus.write_word(pc + 2 * i as u32, *word);
    }
    cpu.write_reg(Register::PC, pc);
    cpu.write_reg(Register::A7, 0x1_8000);
    (cpu, bus)
}

#[test]
fn words_with_an_unknown_operand_are_illegal() {
    for word in [0x047D, 0x067E, 0x0A3F, 0x0C7D, 0x40FD, 0x4A7F, 0x4EBD, 0x51FF, 0x803D, 0xB03E, 0xC0FF, 0xD03D, 0xE0FD] {
        assert!(is_unknown_operand(word, true));
        let (mut cpu, mut bus) = processor_at(0x1000, &[0x7001, word]);
        assert_eq!(cpu.run_batch(&mut bus, 10, &[0]), (1, CpuExit::Illegal(word)));
        assert_eq!(cpu.read_reg(Register::D0), 1);
        assert_eq!(cpu.ppc(), 0x1002);
        assert_eq!(cpu.pc(), 0x1004);
        cpu.write_reg(Register::PC, 0x1002);
        assert_eq!(cpu.step(&mut bus), StepResult::Stopped);
    }
}

#[test]
fn every_other_word_is_handed_to_the_interpreter() {
    // Each word alone, with words behind it that make no sense as operands either.
    for word in 0..=0xFFFFu16 {
        let (mut cpu, mut bus) = processor_at(0x1000, &[word, 0xFFFF, 0xFFFF, 0xFFFF, 0xFFFF, 0xFFFF]);
        let (n, _) = cpu.run_batch(&mut bus, 1, &[0]);
        assert!(n <= 1);
    }
}

#[test]
fn words_are_handed_over_in_user_mode_too() {
    assert!(is_unknown_operand(0x46FD, true));
    assert!(!is_unknown_operand(0x46FD, false));
    for word in 0..=0xFFFFu16 {
        let (mut cpu, mut bus) = processor_at(0x1000, &[word, 0x0000, 0x1234, 0x0000, 0x1234]);
        cpu.set_sr_noint_nosp(0);
        let (n, _) = cpu.run_batch(&mut bus, 1, &[0]);
        assert!(n <= 1);
    }
}

#[test]
fn words_that_only_look_unknown_run() {
    for word in [0x003F, 0x0AFD, 0x41BD, 0x4C3D, 0x4C7D, 0x7E3D, 0xA9FD, 0xE87D, 0x61FD] {
        assert!(!is_unknown_operand(word, true));
    }
    assert!(!is_unknown_operand(0x40FC, true));
}

#[test]
fn odd_program_counter_leads_to_its_handler() {
    let (mut cpu, mut bus) = processor_at(0x1000, &[0x4E71]);
    bus.write_long(0x0C, 0x1200); // the handler
    bus.write_word(0x1200, 0x7009); // MOVEQ #9,D0
    cpu.write_reg(Register::PC, 0x1001);
    assert_eq!(cpu.run_batch(&mut bus, 1, &[0]), (1, CpuExit::BudgetExhausted));
    assert_eq!(cpu.read_reg(Register::D0), 9);
}

#[test]
fn handlers_that_cannot_be_fetched_fill_the_stack() {
    let (mut cpu, mut bus) = processor_at(0x1000, &[0x4E71]);
    bus.write_long(0x0C, 0x1201);
    cpu.write_reg(Register::PC, 0x1001);
    // The frames come down to the vector and make it even.
    assert_eq!(cpu.run_batch(&mut bus, 5, &[0]), (5, CpuExit::BudgetExhausted));
    assert_eq!(cpu.read_reg(Register::A7), 8);
    assert_eq!(bus.read_long(0x0C), 0x1201_000C);
    assert_eq!(cpu.pc(), 0x1201_000C + 5 * 4);
}

/// A processor whose addresses 0 to 0x00FF_FFFF are translated to those 0x100 higher, and
/// whose others are not there.
fn translating_processor() -> (M68kCpu, MacMemoryBus) {
    // PMOVE (A0),CRP; PMOVE (A1),TC
    let (mut cpu, mut bus) = processor_at(0x1000, &[0xF010, 0x4C00, 0xF011, 0x4000, 0x4E71, 0x4E71]);
    bus.write_long(0x3000, 0x0000_0002); // entries of four bytes
    bus.write_long(0x3004, 0x0000_2000);
    bus.write_long(0x3010, 0x8000_8000); // on, with eight bits to choose an entry
    bus.write_long(0x2000, 0x0000_0101); // a page that begins at 0x100
    cpu.write_reg(Register::A0, 0x3000);
    cpu.write_reg(Register::A1, 0x3010);
    assert_eq!(cpu.run_batch(&mut bus, 2, &[0]), (2, CpuExit::BudgetExhausted));
    assert_eq!(cpu.pc(), 0x1008);
    (cpu, bus)
}

#[test]
fn translated_addresses_lead_to_other_instructions() {
    let (mut cpu, mut bus) = translating_processor();
    bus.write_word(0x1108, 0x7005); // MOVEQ #5,D0
    bus.write_word(0x110A, 0x40FD);
    assert_eq!(cpu.run_batch(&mut bus, 5, &[0]), (1, CpuExit::Illegal(0x40FD)));
    assert_eq!(cpu.read_reg(Register::D0), 5);
    assert_eq!(cpu.pc(), 0x100C);
}

#[test]
fn translation_that_fails_leads_to_its_handler() {
    let (mut cpu, mut bus) = translating_processor();
    bus.write_word(0x1108, 0x4EF9); // JMP 0x01000000
    bus.write_long(0x110A, 0x0100_0000);
    bus.write_long(0xE8, 0x1020); // the handler
    bus.write_word(0x1120, 0x7207); // MOVEQ #7,D1
    assert_eq!(cpu.run_batch(&mut bus, 2, &[0]), (2, CpuExit::BudgetExhausted));
    assert_eq!(cpu.read_reg(Register::D1), 7);
    assert_eq!(cpu.pc(), 0x1022);
}

#[test]
fn return_from_a_last_frame_works_under_translation() {
    let (mut cpu, mut bus) = translating_processor();
    bus.write_word(0x1108, 0x4E73); // RTE
    bus.write_word(0x1_8100, 0x2700);
    bus.write_long(0x1_8102, 0x1040);
    bus.write_word(0x1_8106, 0x0000);
    assert_eq!(cpu.run_batch(&mut bus, 1, &[0]), (1, CpuExit::BudgetExhausted));
    assert_eq!(cpu.pc(), 0x1040);
    cpu.write_reg(Register::PC, 0x1008);
    cpu.write_reg(Register::A7, 0x1_8000);
    bus.write_word(0x1_8106, 0x1000); // a frame to throw away
    assert_eq!(cpu.run_batch(&mut bus, 1, &[0]), (0, CpuExit::Illegal(0x4E73)));
}

#[test]
fn instructions_go_round_the_address_space() {
    let (mut cpu, mut bus) = processor_at(0x1000, &[0x4E71]);
    cpu.write_reg(Register::PC, 0xFFFF_FFFE); // ORI.B, with its operand at 0
    assert_eq!(cpu.run_batch(&mut bus, 1, &[0]), (1, CpuExit::BudgetExhausted));
    assert_eq!(cpu.pc(), 2);
}

#[test]
fn runs_in_two_parts_end_as_one() {
    let words = [0xC101, 0x6902, 0x7407, 0x7609]; // ABCD D1,D0; BVS over MOVEQ #7,D2; MOVEQ #9,D3
    for (d0, d1) in [(0x45, 0x38), (0x99, 0x01), (0x0F, 0x0F), (0x79, 0x79), (0x3A, 0x46)] {
        let (mut whole, mut bus) = processor_at(0x1000, &words);
        whole.write_reg(Register::D0, d0);
        whole.write_reg(Register::D1, d1);
        whole.run_batch(&mut bus, 3, &[0]);
        let (mut parts, mut bus) = processor_at(0x1000, &words);
        parts.write_reg(Register::D0, d0);
        parts.write_reg(Register::D1, d1);
        for _ in 0..3 {
            parts.run_batch(&mut bus, 1, &[0]);
        }
        assert_eq!(whole.pc(), parts.pc());
        for r in [Register::D0, Register::D2, Register::D3] {
            assert_eq!(whole.read_reg(r), parts.read_reg(r));
        }
    }
}

#[test]
fn stopped_processor_runs_nothing() {
    let (mut cpu, mut bus) = processor_at(0x1000, &[0x4E72, 0x2700, 0x7001]);
    assert_eq!(cpu.run_batch(&mut bus, 5, &[0]), (1, CpuExit::Stopped));
    assert!(cpu.is_stopped());
    assert_eq!(cpu.run_batch(&mut bus, 5, &[0]), (0, CpuExit::Stopped));
    assert_eq!(cpu.step(&mut bus), StepResult::Stopped);
    assert_eq!(cpu.read_reg(Register::D0), 0);
}

#[test]
fn watched_address_ends_a_run_behind_an_instruction() {
    let (mut cpu, mut bus) = processor_at(0x1000, &[0x4E71, 0x4E71, 0x4E71]);
    assert_eq!(cpu.run_batch(&mut bus, 9, &[0x1000, 0x1004]), (2, CpuExit::WatchedPc(0x1004)));
    assert_eq!(cpu.run_batch(&mut bus, 0, &[0x1004]), (0, CpuExit::BudgetExhausted));
}

#[test]
fn machine_halts_at_an_unknown_operand_and_records_it() {
    let mut runner = FixtureRunner::new(8 * 1024 * 1024, FixtureRunnerConfig::default());
    runner.cpu.write_reg(Register::PC, 0x0001_0000);
    runner.cpu.write_reg(Register::A7, 0x0070_0000);
    runner.bus.write_word(0x0001_0000, 0x7003); // MOVEQ #3,D0
    runner.bus.write_word(0x0001_0002, 0x40FD);
    let (steps, running) = runner.run_steps(10, None);
    assert_eq!((steps, running), (1, false));
    assert_eq!(runner.halted_pc(), Some(0x0001_0004));
    assert_eq!(runner.halted_sp(), Some(0x0070_0000));
    assert_eq!(runner.halted_d0(), Some(3));
    runner.cpu.write_reg(Register::D0, 77);
    assert_eq!(runner.run_steps(10, None), (0, false));
    assert_eq!(runner.halted_d0(), Some(3));
}

#[test]
fn machine_with_little_memory_runs() {
    let mut runner = FixtureRunner::new(0x200, FixtureRunnerConfig::default());
    runner.bus.write_word(0x0100, 0x7004); // MOVEQ #4,D0
    runner.bus.write_word(0x0102, 0x60FE); // BRA.S to itself
    runner.cpu.write_reg(Register::PC, 0x0100);
    runner.cpu.write_reg(Register::A7, 0x01F0);
    assert_eq!(runner.run_steps(10, None), (10, true));
    assert_eq!(runner.cpu.read_reg(Register::D0), 4);
}
