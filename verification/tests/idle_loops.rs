use systemless::cpu::Register;
use systemless::runner::{FixtureRunner, FixtureRunnerConfig};

#[test]
fn exact_idle_cycle_requires_cpu_and_memory_repeat() {
    let mut runner = FixtureRunner::new(8 * 1024 * 1024, FixtureRunnerConfig::default());
    let trap_pc = 0x0002_0000u32;
    let sp = 0x0010_0000u32;
    let scratch = 0x0020_0000u32;
    runner.cpu.write_reg(Register::PC, trap_pc + 2);
    runner.cpu.set_last_instruction(trap_pc, 0xA975);
    runner.cpu.write_reg(Register::A7, sp);
    runner.bus.write_long(sp, 100);
    runner.bus.write_long(scratch, 0x1122_3344);
    runner.bus.write_long(0x016A, 100);
    runner.dispatcher.tick_count = 100;
    assert!(!runner.try_exact_idle_cycle_fastfwd(trap_pc, 200, Some(105)));
    assert!(!runner.try_exact_idle_cycle_fastfwd(trap_pc, 200, Some(105)));
    assert!(runner.idle_cycle_probe.is_some());
    assert!(runner.bus.is_probing());

    // A complete guest iteration may use its stack and locals as long as
    // it restores every touched byte before returning to the boundary.
    runner.bus.write_long(scratch, 0xAABB_CCDD);
    runner.bus.write_long(scratch, 0x1122_3344);
    runner.note_idle_cycle_trap_result(0xA971); // null EventAvail result at SP

    assert!(runner.try_exact_idle_cycle_fastfwd(trap_pc, 200, Some(105)));
    assert_eq!(runner.dispatcher.tick_count, 105);
    assert_eq!(runner.bus.read_long(0x016A), 105);
    assert_eq!(runner.bus.read_long(sp), 100);
    assert!(runner.idle_cycle_probe.is_none());
    assert!(runner.idle_cycle_sleep.is_some());
    assert!(
        runner.bus.is_probing(),
        "the parked sleep keeps a write guard armed across the frontend boundary"
    );

    runner.dispatcher.sent_open_app_event = true;
    assert!(runner.try_resume_proven_idle_cycle(Some(110)));
    assert_eq!(runner.dispatcher.tick_count, 110);
    assert_eq!(runner.bus.read_long(sp), 100);
    assert!(runner.idle_cycle_sleep.is_some());

    runner.push_mouse_down(20, 30);
    assert!(
        !runner.try_resume_proven_idle_cycle(Some(115)),
        "new host input must revoke a proof before the guest event loop is skipped"
    );
    assert_eq!(runner.dispatcher.tick_count, 110);
    assert!(runner.idle_cycle_sleep.is_none());
    assert!(!runner.bus.is_probing());
}

#[test]
fn exact_idle_cycle_rejects_an_architectural_cpu_change() {
    let mut runner = FixtureRunner::new(8 * 1024 * 1024, FixtureRunnerConfig::default());
    let trap_pc = 0x0002_0000u32;
    runner.cpu.write_reg(Register::PC, trap_pc + 2);
    runner.cpu.set_last_instruction(trap_pc, 0xA970);
    runner.cpu.write_reg(Register::A7, 0x0010_0000);
    runner.bus.write_long(0x016A, 100);
    runner.dispatcher.tick_count = 100;

    assert!(!runner.try_exact_idle_cycle_fastfwd(trap_pc, 101, Some(100)));
    assert!(!runner.try_exact_idle_cycle_fastfwd(trap_pc, 101, Some(100)));
    assert!(runner.idle_cycle_probe.is_some());

    runner.cpu.write_reg(Register::D3, 1);
    assert!(!runner.try_exact_idle_cycle_fastfwd(trap_pc, 101, Some(100)));
    assert_eq!(runner.dispatcher.tick_count, 100);
    assert!(runner.idle_cycle_sleep.is_none());
    assert!(
        runner.idle_cycle_probe.is_some(),
        "a changed state may start a new observation but must not reuse the old proof"
    );
}

#[test]
fn exact_null_event_cycle_covers_the_complete_guest_state_machine() {
    let mut runner = FixtureRunner::new(8 * 1024 * 1024, FixtureRunnerConfig::default());
    let code = 0x0002_0000u32;
    let event = 0x0020_0000u32;
    let delay_base = 0x0021_0000u32;
    let tick_base = 0x0022_0000u32;
    let flag_base = 0x0023_0000u32;
    let stack = 0x0010_0000u32;

    // loop:
    //   SUBQ.W  #2,A7                 ; Boolean result slot
    //   MOVE.W  #-1,-(A7)             ; every event type
    //   PEA      event
    //   _GetNextEvent
    //   TST.W   (A7)+
    //   PEA      event.where
    //   _GlobalToLocal
    //   _SystemTask
    //   SUBQ.W  #4,A7                 ; TickCount result slot
    //   _TickCount
    //   MOVE.W  16(A0),D0             ; event/timeout predicate
    //   EXT.L   D0
    //   ADD.L   32(A1),D0
    //   CMP.L   (A7)+,D0
    //   SLT     D0
    //   TST.W   48(A2)
    //   SNE     D1
    //   OR.B    D1,D0
    //   BEQ.W   loop
    //
    // The event record is overwritten with host coordinates and then
    // converted to local coordinates on every pass. The write journal
    // must compare final values, not reject the temporary overwrite. The
    // post-TickCount words deliberately resemble a compiler-generated
    // event/timeout predicate. The proof is based on the complete cycle's
    // observed state, not on recognizing that instruction sequence.
    for (offset, word) in [
        (0, 0x554F),
        (2, 0x3F3C),
        (4, 0xFFFF),
        (6, 0x4879),
        (8, (event >> 16) as u16),
        (10, event as u16),
        (12, 0xA970),
        (14, 0x4A5F),
        (16, 0x4879),
        (18, ((event + 10) >> 16) as u16),
        (20, (event + 10) as u16),
        (22, 0xA871),
        (24, 0xA9B4),
        (26, 0x594F),
        (28, 0xA975),
        (30, 0x3028),
        (32, 16),
        (34, 0x48C0),
        (36, 0xD0A9),
        (38, 32),
        (40, 0xB09F),
        (42, 0x5DC0),
        (44, 0x4A6A),
        (46, 48),
        (48, 0x56C1),
        (50, 0x8001),
        (52, 0x6700),
        (54, 0xFFCA),
    ] {
        runner.bus.write_word(code + offset, word);
    }
    runner.cpu.write_reg(Register::PC, code);
    runner.cpu.write_reg(Register::A7, stack);
    runner.cpu.write_reg(Register::A0, delay_base);
    runner.cpu.write_reg(Register::A1, tick_base);
    runner.cpu.write_reg(Register::A2, flag_base);
    runner.cpu.write_reg(Register::D0, 0);
    runner.cpu.write_reg(Register::D1, 0);
    runner.bus.write_word(delay_base + 16, 5);
    runner.bus.write_long(tick_base + 32, 100);
    runner.bus.write_word(flag_base + 48, 0);
    runner.bus.write_long(0x016A, 100);
    runner.dispatcher.tick_count = 100;
    runner.dispatcher.sent_open_app_event = true;

    let (_, running) = runner.run_steps_internal(1_000, Some(100), 0, true, false, false);
    assert!(running);
    let sleep = runner
        .idle_cycle_sleep
        .as_ref()
        .expect("the complete null-event state machine should prove an identity cycle");
    assert_eq!(sleep.trap_pc, code + 12);
    assert_eq!(sleep.wake_tick, 101);

    assert!(!runner.try_resume_proven_idle_cycle(Some(101)));
    assert_eq!(runner.dispatcher.tick_count, 101);
    assert!(runner.idle_cycle_sleep.is_none());
    assert_eq!(runner.cpu.pc(), code + 14);
}

#[test]
fn proven_idle_cycle_stops_sleeping_at_its_known_dependency() {
    let mut runner = FixtureRunner::new(8 * 1024 * 1024, FixtureRunnerConfig::default());
    let trap_pc = 0x0002_0000u32;
    let sp = 0x0010_0000u32;
    runner.cpu.write_reg(Register::PC, trap_pc + 2);
    runner.cpu.set_last_instruction(trap_pc, 0xA975);
    runner.cpu.write_reg(Register::A7, sp);
    runner.bus.write_long(0x016A, 100);
    runner.dispatcher.tick_count = 100;
    runner.dispatcher.sent_open_app_event = true;

    let now = runner.cpu.snapshot();
    runner.park_proven_idle_cycle(trap_pc, 103, now);
    assert!(!runner.try_resume_proven_idle_cycle(Some(110)));
    assert_eq!(runner.dispatcher.tick_count, 103);
    assert!(runner.idle_cycle_sleep.is_none());
    assert!(!runner.bus.is_probing());
}

#[test]
fn exact_idle_cycle_rejects_changed_memory_and_non_quiescent_traps() {
    let mut runner = FixtureRunner::new(8 * 1024 * 1024, FixtureRunnerConfig::default());
    let trap_pc = 0x0002_0000u32;
    let scratch = 0x0020_0000u32;
    runner.cpu.write_reg(Register::PC, trap_pc + 2);
    runner.cpu.set_last_instruction(trap_pc, 0xA975);
    runner.cpu.write_reg(Register::A7, 0x0010_0000);
    runner.bus.write_long(0x016A, 100);
    runner.dispatcher.tick_count = 100;
    assert!(!runner.try_exact_idle_cycle_fastfwd(trap_pc, 200, Some(105)));
    assert!(!runner.try_exact_idle_cycle_fastfwd(trap_pc, 200, Some(105)));
    runner.bus.write_byte(scratch, 1);
    assert!(!runner.try_exact_idle_cycle_fastfwd(trap_pc, 200, Some(105)));
    assert_eq!(runner.dispatcher.tick_count, 100);

    runner.note_idle_cycle_trap_result(0xA8AD); // PtInRect has host-side HLE semantics
    assert!(runner.idle_cycle_probe.is_none());
    assert!(runner.idle_cycle_last_seen.is_none());
    assert!(!runner.bus.is_probing());
}

#[test]
fn ordinary_tick_advance_cancels_an_exact_idle_cycle_probe() {
    let mut runner = FixtureRunner::new(8 * 1024 * 1024, FixtureRunnerConfig::default());
    let trap_pc = 0x0002_0000u32;
    runner.cpu.write_reg(Register::PC, trap_pc + 2);
    runner.bus.write_long(0x016A, 100);
    runner.dispatcher.tick_count = 100;
    assert!(!runner.try_exact_idle_cycle_fastfwd(trap_pc, 200, Some(105)));
    assert!(!runner.try_exact_idle_cycle_fastfwd(trap_pc, 200, Some(105)));
    assert!(runner.idle_cycle_probe.is_some());

    runner.advance_guest_tick();

    assert!(runner.idle_cycle_probe.is_none());
    assert!(runner.idle_cycle_last_seen.is_none());
    assert!(!runner.bus.is_probing());
}
