use systemless::cpu::Register;
use systemless::runner::{FixtureRunner, FixtureRunnerConfig};

#[test]
fn tickcount_inline_skip_increments_inline_skipped() {
    let mut runner = FixtureRunner::new(8 * 1024 * 1024, FixtureRunnerConfig::default());
    let base = 0x0001_0000u32;
    // Plain TickCount call: SUBQ.W #4, A7 ; _TickCount ; NOP
    // The runner's pre-dispatch fast path recognises 0xA975,
    // writes the tick to (A7), and continues without calling
    // dispatch().
    runner.bus.write_word(base, 0x594F); // SUBQ.W #4, A7 (reserve LONGINT slot)
    runner.bus.write_word(base + 2, 0xA975); // _TickCount
    runner.bus.write_word(base + 4, 0x4E71); // NOP (sentinel)
    runner.cpu.write_reg(Register::PC, base);
    runner.cpu.write_reg(Register::A7, 0x0010_0000);
    runner.dispatcher.tick_count = 0;
    runner.bus.write_long(0x016A, 0);
    runner.set_instructions_per_tick(1_000_000);

    let idx = (0xA975u16 & 0xFFF) as usize;
    let before = runner.dispatcher.inline_skipped[idx];

    // Two steps: the SUBQ first, then the trap that triggers the inline.
    let (steps, running) = runner.run_steps(2, None);
    assert!(running, "runner should not halt on a plain trap fast path");
    assert_eq!(steps, 2);

    let after = runner.dispatcher.inline_skipped[idx];
    assert_eq!(
        after - before,
        1,
        "TickCount fast path must increment inline_skipped[$0175]"
    );
    assert_eq!(
        runner.dispatcher.trap_histogram[idx], 1,
        "the same path must also increment trap_histogram[$0175]"
    );
}

#[test]
fn halted_by_exit_to_shell_classifies_clean_application_quit() {
    let mut runner = FixtureRunner::new(8 * 1024 * 1024, FixtureRunnerConfig::default());
    let base = 0x0001_0000u32;
    runner.bus.write_word(base, 0xA9F4); // _ExitToShell
    runner.cpu.write_reg(Register::PC, base);
    runner.cpu.write_reg(Register::A7, 0x0010_0000);

    let (_steps, running) = runner.run_steps(1, None);

    assert!(!running, "ExitToShell should stop the runner");
    assert!(runner.is_halted());
    assert_eq!(runner.halted_trap(), Some(0xA9F4));
    assert!(
        runner.halted_by_exit_to_shell(),
        "ExitToShell halt must be classified as a clean application exit"
    );
}

#[test]
fn halted_by_exit_to_shell_rejects_invalid_pc_halts() {
    let mut runner = FixtureRunner::new(8 * 1024 * 1024, FixtureRunnerConfig::default());
    runner.cpu.write_reg(Register::PC, runner.bus.ram_size());
    runner.cpu.write_reg(Register::A7, 0x0010_0000);

    let (_steps, running) = runner.run_steps(1, None);

    assert!(!running, "invalid PC should stop the runner");
    assert!(runner.is_halted());
    assert_eq!(runner.halted_trap(), None);
    assert!(
        !runner.halted_by_exit_to_shell(),
        "invalid-PC halts must not be reported as clean application exits"
    );
}

#[test]
fn ptinrect_inline_path_matches_pascal_stack_contract() {
    let mut runner = FixtureRunner::new(8 * 1024 * 1024, FixtureRunnerConfig::default());
    let base = 0x0001_0000u32;
    let sp = 0x0010_0000u32;
    let rect = 0x0020_0000u32;

    runner.bus.write_word(base, 0xA8AD); // _PtInRect
    runner.cpu.write_reg(Register::PC, base);
    runner.cpu.write_reg(Register::A7, sp);
    runner.set_instructions_per_tick(1_000_000);

    runner.bus.write_long(sp, rect);
    runner.bus.write_word(sp + 4, 20); // pt.v
    runner.bus.write_word(sp + 6, 30); // pt.h
    runner.bus.write_word(rect, 10); // top
    runner.bus.write_word(rect + 2, 25); // left
    runner.bus.write_word(rect + 4, 40); // bottom
    runner.bus.write_word(rect + 6, 50); // right

    let idx = (0xA8ADu16 & 0xFFF) as usize;
    let before_inline = runner.dispatcher.inline_skipped[idx];
    let before_game = runner.dispatcher.game_trap_count;

    let (steps, running) = runner.run_steps(1, None);

    assert!(running, "runner should not halt on PtInRect inline path");
    assert_eq!(steps, 1);
    assert_eq!(runner.cpu.read_reg(Register::PC), base + 2);
    assert_eq!(runner.cpu.read_reg(Register::A7), sp + 8);
    assert_eq!(runner.bus.read_word(sp + 8), 0x0100);
    assert_eq!(runner.dispatcher.inline_skipped[idx] - before_inline, 1);
    assert_eq!(runner.dispatcher.trap_histogram[idx], 1);
    assert_eq!(runner.dispatcher.game_trap_count - before_game, 1);
}

#[test]
fn eventavail_inline_path_peeks_without_dequeueing() {
    let mut runner = FixtureRunner::new(8 * 1024 * 1024, FixtureRunnerConfig::default());
    let base = 0x0001_0000u32;
    let sp = 0x0010_0000u32;
    let event = 0x0020_0000u32;

    runner.bus.write_word(base, 0xA971); // _EventAvail
    runner.cpu.write_reg(Register::PC, base);
    runner.cpu.write_reg(Register::A7, sp);
    runner.set_instructions_per_tick(1_000_000);
    runner.bus.write_long(sp, event);
    runner.bus.write_word(sp + 4, 0x0008); // keyDownMask
    runner.dispatcher.push_key_down(0x31, b' ');

    let idx = (0xA971u16 & 0xFFF) as usize;
    let before_inline = runner.dispatcher.inline_skipped[idx];
    let before_game = runner.dispatcher.game_trap_count;

    let (steps, running) = runner.run_steps(1, None);

    assert!(running, "runner should not halt on EventAvail inline path");
    assert_eq!(steps, 1);
    assert_eq!(runner.cpu.read_reg(Register::PC), base + 2);
    assert_eq!(runner.cpu.read_reg(Register::A7), sp + 6);
    assert_eq!(runner.bus.read_word(sp + 6), 0xFFFF);
    assert_eq!(runner.bus.read_word(event), 3);
    assert_eq!(
        runner.bus.read_long(event + 2),
        (0x31u32 << 8) | u32::from(b' ')
    );
    assert_eq!(
        runner.dispatcher.event_queue.len(),
        1,
        "EventAvail must not dequeue the matching event"
    );
    assert_eq!(runner.dispatcher.inline_skipped[idx] - before_inline, 1);
    assert_eq!(runner.dispatcher.trap_histogram[idx], 1);
    assert_eq!(
        runner.dispatcher.game_trap_count, before_game,
        "EventAvail remains excluded from game_trap_count as an idle trap"
    );
}

#[test]
fn zero_divide_rte_handler_resumes_after_divu_by_zero() {
    let mut runner = FixtureRunner::new(8 * 1024 * 1024, FixtureRunnerConfig::default());

    runner.bus.write_word(0x00FE, 0x4E73); // RTE
    runner.bus.write_long(0x0014, 0x0000_00FE);

    let prog = 0x0010_0000u32;
    runner.bus.write_word(prog, 0x82C0); // DIVU.W D0, D1
    runner.bus.write_word(prog + 2, 0x4E71); // NOP
    runner.bus.write_word(prog + 4, 0x4E71); // NOP

    runner.cpu.write_reg(Register::PC, prog);
    runner.cpu.write_reg(Register::A7, 0x007F_FFC0);
    runner.cpu.write_reg(Register::D0, 0);
    runner.cpu.write_reg(Register::D1, 100);

    // 1 step: DIVU.W traps, vectors to $00FE.
    // 2nd step: RTE at $00FE pops SR/PC, returns past DIVU.
    // 3rd step: NOP at prog+2.
    let (steps, running) = runner.run_steps(3, None);

    assert!(running, "runner must not halt on zero-divide");
    assert_eq!(steps, 3);
    assert_eq!(
        runner.cpu.read_reg(Register::PC),
        prog + 4,
        "PC must advance past the DIVU+NOP without re-entering the trap"
    );
    assert_eq!(
        runner.cpu.read_reg(Register::D1),
        100,
        "DIVU by zero must leave the destination register unchanged"
    );
}

#[test]
fn chk_rte_handler_resumes_after_bounds_violation() {
    let mut runner = FixtureRunner::new(8 * 1024 * 1024, FixtureRunnerConfig::default());

    runner.bus.write_word(0x00FE, 0x4E73); // RTE
    runner.bus.write_long(0x0018, 0x0000_00FE); // CHK vector

    let prog = 0x0010_0000u32;
    runner.bus.write_word(prog, 0x41BC); // CHK.W #imm, D0
    runner.bus.write_word(prog + 2, 0x0005); // imm = 5
    runner.bus.write_word(prog + 4, 0x4E71); // NOP

    runner.cpu.write_reg(Register::PC, prog);
    runner.cpu.write_reg(Register::A7, 0x007F_FFC0);
    runner.cpu.write_reg(Register::D0, 100);

    // 1 step: CHK fires (100 > 5), vectors to $00FE.
    // 2nd step: RTE pops SR/PC, returns past CHK.
    // 3rd step: NOP executes.
    let (steps, running) = runner.run_steps(3, None);

    assert!(running, "runner must not halt on CHK bounds violation");
    assert_eq!(steps, 3);
    assert_eq!(
        runner.cpu.read_reg(Register::PC),
        prog + 6,
        "PC must advance past CHK (4 bytes) + NOP (2 bytes)"
    );
    assert_eq!(runner.cpu.read_reg(Register::D0), 100);
}

#[test]
fn trapv_rte_handler_resumes_when_v_flag_is_set() {
    let mut runner = FixtureRunner::new(8 * 1024 * 1024, FixtureRunnerConfig::default());

    runner.bus.write_word(0x00FE, 0x4E73); // RTE
    runner.bus.write_long(0x001C, 0x0000_00FE); // TRAPV vector

    let prog = 0x0010_0000u32;
    runner.bus.write_word(prog, 0x4E76); // TRAPV
    runner.bus.write_word(prog + 2, 0x4E71); // NOP

    runner.cpu.write_reg(Register::PC, prog);
    runner.cpu.write_reg(Register::A7, 0x007F_FFC0);
    runner.cpu.set_ccr(0x02); // V flag set

    // 1: TRAPV traps; 2: RTE; 3: NOP.
    let (steps, running) = runner.run_steps(3, None);

    assert!(running, "runner must not halt on TRAPV");
    assert_eq!(steps, 3);
    assert_eq!(runner.cpu.read_reg(Register::PC), prog + 4);
}
