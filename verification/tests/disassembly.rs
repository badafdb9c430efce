use systemless::runner::{FixtureRunner, FixtureRunnerConfig};

#[test]
fn disassemble_at_decodes_known_opcodes_with_correct_advance() {
    let mut runner = FixtureRunner::new(8 * 1024 * 1024, FixtureRunnerConfig::default());
    let pc = 0x10000u32;
    // $4E71 NOP
    runner.bus.write_word(pc, 0x4E71);
    // $A8EC (CopyBits trap-line word)
    runner.bus.write_word(pc + 2, 0xA8EC);
    // $4E71 NOP again
    runner.bus.write_word(pc + 4, 0x4E71);
    let out = runner.disassemble_at(pc, 3);
    assert_eq!(
        out.len(),
        3,
        "disassemble_at must return exactly count entries"
    );
    assert_eq!(
        out[0].0, pc,
        "first entry's PC must equal the requested start"
    );
    assert!(
        out[0].1.contains("NOP"),
        "$4E71 must disassemble to NOP, got: {}",
        out[0].1
    );
    assert!(
        out[0].2 >= 2 && out[0].2 <= 10,
        "instruction size must be in clamp range [2, 10], got {}",
        out[0].2
    );
    assert_eq!(
        out[1].0,
        pc + out[0].2,
        "second entry's PC must equal first PC + first size"
    );
    assert!(
        out[1].1.contains("$A8EC"),
        "A-line trap $A8EC must surface in mnemonic (DC.W form), got: {}",
        out[1].1
    );
    assert!(
        out[2].1.contains("NOP"),
        "third entry must be the second NOP we seeded"
    );
}
