use systemless::cpu::{Register, StepResult};
use systemless::events::VblTask;
use systemless::policy::spin_wait_fastfwd_gate;
use systemless::runner::{ActiveInterruptCallbackSource, FixtureRunner, FixtureRunnerConfig};

#[test]
fn spin_fastfwd_template_a_advances_ticks_and_skips_loop() {
    let mut runner = FixtureRunner::new(8 * 1024 * 1024, FixtureRunnerConfig::default());
    let base = 0x0001_0000u32;
    // Synthesised spin body:
    //   $base+0: SUBQ.W #4, A7   (0x594F)
    //   $base+2: _TickCount      (0xA975) ← trap fires before call site
    //   $base+4: MOVE.L (A7)+, D0 (0x201F)
    //   $base+6: SUBQ.L #1, D0   (0x5380)
    //   $base+8: CMP.L D0, D3    (0xB680)
    //   $base+10: BHI.S *-12     (0x62F4)
    //   $base+12: sentinel       (0x4E71 NOP)
    runner.bus.write_word(base, 0x594F);
    runner.bus.write_word(base + 2, 0xA975);
    runner.bus.write_word(base + 4, 0x201F);
    runner.bus.write_word(base + 6, 0x5380);
    runner.bus.write_word(base + 8, 0xB680);
    runner.bus.write_word(base + 10, 0x62F4);
    runner.bus.write_word(base + 12, 0x4E71);

    // Initial tick 100, target D3=500 so target_tick = 501.
    runner.bus.write_long(0x016A, 100);
    runner.dispatcher.tick_count = 100;
    runner.cpu.write_reg(Register::D3, 500);
    runner.cpu.write_reg(Register::A7, 0x0010_0000);

    let pc_after_trap = base + 4;
    let (hit_cap, count) = runner.try_tickcount_spin_fastfwd(pc_after_trap, None);

    assert!(!hit_cap, "no tick_cap was set, cap should not trip");
    assert_eq!(runner.dispatcher.tick_count, 501, "advanced to D3+imm");
    assert_eq!(runner.bus.read_long(0x016A), 501, "bus $016A in sync");
    // After fall-through: Dn = final_tick - imm = 501 - 1 = 500 (= D3).
    assert_eq!(runner.cpu.read_reg(Register::D0), 500);
    // A7 += 4 (the popped tick slot).
    assert_eq!(runner.cpu.read_reg(Register::A7), 0x0010_0004);
    // PC past BHI (base + 12).
    assert_eq!(runner.cpu.read_reg(Register::PC), base + 12);
    // 4 synthesised instructions accounted for.
    assert_eq!(count, 4);
}

#[test]
fn spin_fastfwd_rejects_register_mismatch() {
    let mut runner = FixtureRunner::new(8 * 1024 * 1024, FixtureRunnerConfig::default());
    let base = 0x0001_0000u32;
    // Same as template A but MOVE.L (A7)+ targets D1, while
    // SUBQ/CMP operate on D0. Template detector must reject.
    runner.bus.write_word(base, 0x594F);
    runner.bus.write_word(base + 2, 0xA975);
    runner.bus.write_word(base + 4, 0x221F); // MOVE.L (A7)+, D1 (NOT D0)
    runner.bus.write_word(base + 6, 0x5380); // SUBQ.L #1, D0
    runner.bus.write_word(base + 8, 0xB680); // CMP.L D0, D3
    runner.bus.write_word(base + 10, 0x62F4); // BHI.S

    runner.bus.write_long(0x016A, 100);
    runner.dispatcher.tick_count = 100;
    runner.cpu.write_reg(Register::D3, 500);
    runner.cpu.write_reg(Register::A7, 0x0010_0000);
    let pc_after_trap = base + 4;
    let (_, count) = runner.try_tickcount_spin_fastfwd(pc_after_trap, None);

    // No change: template rejected, tick_count stays at 100.
    assert_eq!(runner.dispatcher.tick_count, 100);
    // PC stays where it was (we passed pc_after_trap but the
    // fast-forward must have returned without mutating PC).
    assert_eq!(runner.cpu.read_reg(Register::PC), 0);
    assert_eq!(count, 0);
}

#[test]
fn spin_fastfwd_template_b_memory_target_variant() {
    let mut runner = FixtureRunner::new(8 * 1024 * 1024, FixtureRunnerConfig::default());
    let base = 0x0001_0000u32;
    // $base+0: SUBQ.W #4, A7   (0x594F) — pre-trap SP adjust
    // $base+2: _TickCount      (0xA975) — trap
    // $base+4: MOVE.L (A7)+, D0 (0x201F)
    // $base+6: CMP.L (-4, A6), D0 — opcode 0xB0AE, d16=0xFFFC
    //          (1011 000 010 101 110 = 0xB0AE; next word 0xFFFC = -4)
    // $base+10: BLS.S *-12    (0x63F2) — target = $base+12 + (-14)
    //           = $base - 2. So target should be BEFORE $base.
    // $base+12: sentinel NOP  (0x4E71)
    runner.bus.write_word(base, 0x594F);
    runner.bus.write_word(base + 2, 0xA975);
    runner.bus.write_word(base + 4, 0x201F);
    runner.bus.write_word(base + 6, 0xB0AE);
    runner.bus.write_word(base + 8, 0xFFFC);
    // Branch target must be < pc_after_trap. pc_after_trap = base+4.
    // Simplest: target = base + 2 → disp = target - (base+12) = -10
    // (since branch_src = base+10, branch_src+2 = base+12).
    // disp8 = -10 = 0xF6.
    runner.bus.write_word(base + 10, 0x63F6);
    runner.bus.write_word(base + 12, 0x4E71);

    // Memory target at -4(A6). A6 points at mid-stack; -4(A6)
    // holds the target tick.
    let a6 = 0x0010_1000u32;
    runner.bus.write_long(a6.wrapping_sub(4), 400);

    // Initial state
    runner.bus.write_long(0x016A, 100);
    runner.dispatcher.tick_count = 100;
    runner.cpu.write_reg(Register::A6, a6);
    runner.cpu.write_reg(Register::A7, 0x0010_0000);

    let pc_after_trap = base + 4;
    let (hit_cap, count) = runner.try_tickcount_spin_fastfwd(pc_after_trap, None);

    assert!(!hit_cap);
    // target_tick = mem_target + 1 = 400 + 1 = 401.
    assert_eq!(runner.dispatcher.tick_count, 401);
    assert_eq!(runner.bus.read_long(0x016A), 401);
    // Template B exit: D0 = final_tick (no SUBQ).
    assert_eq!(runner.cpu.read_reg(Register::D0), 401);
    assert_eq!(runner.cpu.read_reg(Register::A7), 0x0010_0004);
    assert_eq!(runner.cpu.read_reg(Register::PC), base + 12);
    // Template B synthesises 3 instructions (MOVE, CMP, BLS).
    assert_eq!(count, 3);
}

#[test]
fn spin_fastfwd_template_b_signed_ble_variant() {
    let mut runner = FixtureRunner::new(8 * 1024 * 1024, FixtureRunnerConfig::default());
    let base = 0x0001_0000u32;
    let a5 = 0x0001_8000u32;
    let sp = 0x0010_0000u32;

    // Signed memory-target loop shape emitted by some classic compilers:
    //   SUBQ.W #4,A7; _TickCount; MOVE.L (A7)+,D0
    //   CMP.L (-16,A5),D0; BLE.S back-to-SUBQ
    runner.bus.write_word(base, 0x594F);
    runner.bus.write_word(base + 2, 0xA975);
    runner.bus.write_word(base + 4, 0x201F);
    runner.bus.write_word(base + 6, 0xB0AD);
    runner.bus.write_word(base + 8, 0xFFF0);
    runner.bus.write_word(base + 10, 0x6FF4);
    runner.bus.write_word(base + 12, 0x4E71);

    runner.bus.write_long(a5 - 16, 400);
    runner.bus.write_long(0x016A, 100);
    runner.bus.write_long(sp, 100);
    runner.dispatcher.tick_count = 100;
    runner.cpu.write_reg(Register::A5, a5);
    runner.cpu.write_reg(Register::A7, sp);

    let (hit_cap, count) = runner.try_tickcount_spin_fastfwd(base + 4, None);

    assert!(!hit_cap);
    assert_eq!(runner.guest_tick(), 401);
    assert_eq!(runner.cpu.read_reg(Register::D0), 401);
    assert_eq!(runner.cpu.read_reg(Register::A7), sp + 4);
    assert_eq!(runner.cpu.read_reg(Register::PC), base + 12);
    assert_eq!(count, 3);
}

#[test]
fn spin_fastfwd_template_b_signed_blt_variant() {
    let mut runner = FixtureRunner::new(8 * 1024 * 1024, FixtureRunnerConfig::default());
    let base = 0x0001_0000u32;
    let a5 = 0x0001_8000u32;
    let sp = 0x0010_0000u32;

    // Exclusive signed memory-target loop:
    //   SUBQ.W #4,A7; _TickCount; MOVE.L (A7)+,D0
    //   CMP.L (-16,A5),D0; BLT.S back-to-SUBQ
    runner.bus.write_word(base, 0x594F);
    runner.bus.write_word(base + 2, 0xA975);
    runner.bus.write_word(base + 4, 0x201F);
    runner.bus.write_word(base + 6, 0xB0AD);
    runner.bus.write_word(base + 8, 0xFFF0);
    runner.bus.write_word(base + 10, 0x6DF4);
    runner.bus.write_word(base + 12, 0x4E71);

    runner.bus.write_long(a5 - 16, 400);
    runner.bus.write_long(0x016A, 100);
    runner.bus.write_long(sp, 100);
    runner.dispatcher.tick_count = 100;
    runner.cpu.write_reg(Register::A5, a5);
    runner.cpu.write_reg(Register::A7, sp);

    let (hit_cap, count) = runner.try_tickcount_spin_fastfwd(base + 4, None);

    assert!(!hit_cap);
    assert_eq!(runner.guest_tick(), 400);
    assert_eq!(runner.cpu.read_reg(Register::D0), 400);
    assert_eq!(runner.cpu.read_reg(Register::A7), sp + 4);
    assert_eq!(runner.cpu.read_reg(Register::PC), base + 12);
    assert_eq!(count, 3);
}

#[test]
fn spin_fastfwd_template_b_signed_ble_rejects_overflow_target() {
    let mut runner = FixtureRunner::new(8 * 1024 * 1024, FixtureRunnerConfig::default());
    let base = 0x0001_0000u32;
    let a5 = 0x0001_8000u32;
    let sp = 0x0010_0000u32;
    runner.bus.write_word(base, 0x594F);
    runner.bus.write_word(base + 2, 0xA975);
    runner.bus.write_word(base + 4, 0x201F);
    runner.bus.write_word(base + 6, 0xB0AD);
    runner.bus.write_word(base + 8, 0xFFF0);
    runner.bus.write_word(base + 10, 0x6FF4);
    runner.bus.write_long(a5 - 16, i32::MAX as u32);
    runner.bus.write_long(0x016A, 100);
    runner.bus.write_long(sp, 100);
    runner.dispatcher.tick_count = 100;
    runner.cpu.write_reg(Register::A5, a5);
    runner.cpu.write_reg(Register::A7, sp);

    let (_, count) = runner.try_tickcount_spin_fastfwd(base + 4, None);

    assert_eq!(runner.guest_tick(), 100);
    assert_eq!(runner.cpu.read_reg(Register::PC), 0);
    assert_eq!(runner.cpu.read_reg(Register::A7), sp);
    assert_eq!(count, 0);
}

#[test]
fn spin_fastfwd_template_c_absolute_long_target_variant() {
    let mut runner = FixtureRunner::new(8 * 1024 * 1024, FixtureRunnerConfig::default());
    let base = 0x0001_0000u32;
    let target_addr = 0x0002_FE44u32;

    // $base+0:  SUBQ.W #4, A7      (0x594F)
    // $base+2:  _TickCount         (0xA975)
    // $base+4:  MOVE.L (A7)+, D0   (0x201F)
    // $base+6:  CMP.L (xxx).L, D0  (0xB0B9 + absolute long)
    // $base+12: BCS.S $base        (0x65F2; base+14-14)
    // $base+14: sentinel NOP
    runner.bus.write_word(base, 0x594F);
    runner.bus.write_word(base + 2, 0xA975);
    runner.bus.write_word(base + 4, 0x201F);
    runner.bus.write_word(base + 6, 0xB0B9);
    runner.bus.write_long(base + 8, target_addr);
    runner.bus.write_word(base + 12, 0x65F2);
    runner.bus.write_word(base + 14, 0x4E71);

    runner.bus.write_long(target_addr, 400);
    runner.bus.write_long(0x016A, 100);
    runner.dispatcher.tick_count = 100;
    runner.cpu.write_reg(Register::A7, 0x0010_0000);

    let pc_after_trap = base + 4;
    let (hit_cap, count) = runner.try_tickcount_spin_fastfwd(pc_after_trap, None);

    assert!(!hit_cap);
    assert_eq!(runner.dispatcher.tick_count, 400);
    assert_eq!(runner.bus.read_long(0x016A), 400);
    assert_eq!(runner.cpu.read_reg(Register::D0), 400);
    assert_eq!(runner.cpu.read_reg(Register::A7), 0x0010_0004);
    assert_eq!(runner.cpu.read_reg(Register::PC), base + 14);
    assert_eq!(count, 3);
}

#[test]
fn spin_fastfwd_template_e_computed_signed_deadline_variant() {
    let mut runner = FixtureRunner::new(8 * 1024 * 1024, FixtureRunnerConfig::default());
    let base = 0x0001_0000u32;
    let a5 = 0x0001_8000u32;
    let a6 = 0x0010_1000u32;
    let sp = 0x0010_0000u32;

    // Signed computed-deadline loop:
    //   SUBQ.W #4,A7; _TickCount
    //   MOVE.W (-2,A6),D0; EXT.L D0; ADD.L (-16,A5),D0
    //   CMP.L (A7)+,D0; BGT.S back-to-SUBQ
    runner.bus.write_word(base, 0x594F);
    runner.bus.write_word(base + 2, 0xA975);
    runner.bus.write_word(base + 4, 0x302E);
    runner.bus.write_word(base + 6, 0xFFFE);
    runner.bus.write_word(base + 8, 0x48C0);
    runner.bus.write_word(base + 10, 0xD0AD);
    runner.bus.write_word(base + 12, 0xFFF0);
    runner.bus.write_word(base + 14, 0xB09F);
    runner.bus.write_word(base + 16, 0x6EEE);
    runner.bus.write_word(base + 18, 0x4E71);

    runner.bus.write_word(a6 - 2, 5);
    runner.bus.write_long(a5 - 16, 400);
    runner.bus.write_long(0x016A, 100);
    runner.bus.write_long(sp - 4, 100);
    runner.dispatcher.tick_count = 100;
    runner.cpu.write_reg(Register::A5, a5);
    runner.cpu.write_reg(Register::A6, a6);
    runner.cpu.write_reg(Register::A7, sp - 4);
    runner.cpu.write_reg(Register::PC, base + 4);

    let (hit_cap, count) = runner.try_tickcount_spin_fastfwd(base + 4, None);

    assert!(!hit_cap);
    assert_eq!(runner.guest_tick(), 405);
    assert_eq!(runner.bus.read_long(sp - 4), 405);
    assert_eq!(runner.cpu.read_reg(Register::PC), base + 4);
    assert_eq!(runner.cpu.read_reg(Register::A7), sp - 4);
    assert_eq!(count, 0, "post-trap body remains for exact CPU execution");

    for _ in 0..5 {
        assert!(matches!(
            runner.cpu.step(&mut runner.bus),
            StepResult::Done
        ));
    }
    assert_eq!(runner.cpu.read_reg(Register::D0), 405);
    assert_eq!(runner.cpu.read_reg(Register::A7), sp);
    assert_eq!(runner.cpu.read_reg(Register::PC), base + 18);
}

#[test]
fn spin_fastfwd_template_e_computed_signed_deadline_inclusive_variant() {
    let mut runner = FixtureRunner::new(8 * 1024 * 1024, FixtureRunnerConfig::default());
    let base = 0x0001_0000u32;
    let a5 = 0x0001_8000u32;
    let a6 = 0x0010_1000u32;
    let sp = 0x0010_0000u32;

    // Inclusive signed computed-deadline loop:
    //   SUBQ.W #4,A7; _TickCount
    //   MOVE.W (-2,A6),D0; EXT.L D0; ADD.L (-16,A5),D0
    //   CMP.L (A7)+,D0; BGE.S back-to-SUBQ
    runner.bus.write_word(base, 0x594F);
    runner.bus.write_word(base + 2, 0xA975);
    runner.bus.write_word(base + 4, 0x302E);
    runner.bus.write_word(base + 6, 0xFFFE);
    runner.bus.write_word(base + 8, 0x48C0);
    runner.bus.write_word(base + 10, 0xD0AD);
    runner.bus.write_word(base + 12, 0xFFF0);
    runner.bus.write_word(base + 14, 0xB09F);
    runner.bus.write_word(base + 16, 0x6CEE);
    runner.bus.write_word(base + 18, 0x4E71);

    runner.bus.write_word(a6 - 2, 5);
    runner.bus.write_long(a5 - 16, 400);
    runner.bus.write_long(0x016A, 100);
    runner.bus.write_long(sp - 4, 100);
    runner.dispatcher.tick_count = 100;
    runner.cpu.write_reg(Register::A5, a5);
    runner.cpu.write_reg(Register::A6, a6);
    runner.cpu.write_reg(Register::A7, sp - 4);
    runner.cpu.write_reg(Register::PC, base + 4);

    let (hit_cap, count) = runner.try_tickcount_spin_fastfwd(base + 4, None);

    assert!(!hit_cap);
    assert_eq!(runner.guest_tick(), 406);
    assert_eq!(runner.bus.read_long(sp - 4), 406);
    assert_eq!(runner.cpu.read_reg(Register::PC), base + 4);
    assert_eq!(runner.cpu.read_reg(Register::A7), sp - 4);
    assert_eq!(count, 0, "post-trap body remains for exact CPU execution");

    for _ in 0..5 {
        assert!(matches!(
            runner.cpu.step(&mut runner.bus),
            StepResult::Done
        ));
    }
    assert_eq!(runner.cpu.read_reg(Register::D0), 405);
    assert_eq!(runner.cpu.read_reg(Register::A7), sp);
    assert_eq!(runner.cpu.read_reg(Register::PC), base + 18);
}

#[test]
fn spin_fastfwd_template_e_rejects_inclusive_signed_overflow() {
    let mut runner = FixtureRunner::new(8 * 1024 * 1024, FixtureRunnerConfig::default());
    let base = 0x0001_0000u32;
    let a5 = 0x0001_8000u32;
    let a6 = 0x0010_1000u32;
    let sp = 0x0010_0000u32;

    runner.bus.write_word(base, 0x594F);
    runner.bus.write_word(base + 2, 0xA975);
    runner.bus.write_word(base + 4, 0x302E);
    runner.bus.write_word(base + 6, 0xFFFE);
    runner.bus.write_word(base + 8, 0x48C0);
    runner.bus.write_word(base + 10, 0xD0AD);
    runner.bus.write_word(base + 12, 0xFFF0);
    runner.bus.write_word(base + 14, 0xB09F);
    runner.bus.write_word(base + 16, 0x6CEE);

    runner.bus.write_word(a6 - 2, 0);
    runner.bus.write_long(a5 - 16, i32::MAX as u32);
    runner.bus.write_long(0x016A, 100);
    runner.bus.write_long(sp - 4, 100);
    runner.dispatcher.tick_count = 100;
    runner.cpu.write_reg(Register::A5, a5);
    runner.cpu.write_reg(Register::A6, a6);
    runner.cpu.write_reg(Register::A7, sp - 4);

    let (hit_cap, count) = runner.try_tickcount_spin_fastfwd(base + 4, None);

    assert!(!hit_cap);
    assert_eq!(runner.guest_tick(), 100);
    assert_eq!(runner.bus.read_long(sp - 4), 100);
    assert_eq!(count, 0);
}

#[test]
fn spin_fastfwd_template_e_rejects_mismatched_extension_register() {
    let mut runner = FixtureRunner::new(8 * 1024 * 1024, FixtureRunnerConfig::default());
    let base = 0x0001_0000u32;
    runner.bus.write_word(base, 0x594F);
    runner.bus.write_word(base + 2, 0xA975);
    runner.bus.write_word(base + 4, 0x302E); // MOVE.W (-2,A6),D0
    runner.bus.write_word(base + 6, 0xFFFE);
    runner.bus.write_word(base + 8, 0x48C1); // EXT.L D1, not D0
    runner.bus.write_word(base + 10, 0xD0AD);
    runner.bus.write_word(base + 12, 0xFFF0);
    runner.bus.write_word(base + 14, 0xB09F);
    runner.bus.write_word(base + 16, 0x6EEE);
    runner.bus.write_long(0x016A, 100);
    runner.dispatcher.tick_count = 100;

    let (_, count) = runner.try_tickcount_spin_fastfwd(base + 4, None);

    assert_eq!(runner.guest_tick(), 100);
    assert_eq!(count, 0);
}

#[test]
fn spin_fastfwd_template_d_bcc_stack_compare_variant() {
    let mut runner = FixtureRunner::new(8 * 1024 * 1024, FixtureRunnerConfig::default());
    let base = 0x0001_0000u32;
    let sp = 0x0010_0000u32;

    // Stack-result BCC variant:
    //   CLR.L -(A7); _TickCount; CMP.L (A7)+,D7; BCC.S *-8
    runner.bus.write_word(base, 0x42A7);
    runner.bus.write_word(base + 2, 0xA975);
    runner.bus.write_word(base + 4, 0xBE9F);
    runner.bus.write_word(base + 6, 0x64F8);
    runner.bus.write_word(base + 8, 0x4E71);

    runner.bus.write_long(0x016A, 100);
    runner.dispatcher.tick_count = 100;
    runner.cpu.write_reg(Register::D7, 500);
    runner.cpu.write_reg(Register::A7, sp - 4);
    runner.cpu.write_reg(Register::PC, base + 4);
    runner.bus.write_long(sp - 4, 100);

    let (hit_cap, count) = runner.try_tickcount_spin_fastfwd(base + 4, None);

    assert!(!hit_cap);
    assert_eq!(runner.guest_tick(), 501);
    assert_eq!(runner.bus.read_long(sp - 4), 501);
    assert_eq!(runner.cpu.read_reg(Register::PC), base + 4);
    assert_eq!(runner.cpu.read_reg(Register::A7), sp - 4);
    assert_eq!(count, 0, "CMP/BCC remain for exact CPU execution");

    assert!(matches!(
        runner.cpu.step(&mut runner.bus),
        StepResult::Done
    ));
    assert!(matches!(
        runner.cpu.step(&mut runner.bus),
        StepResult::Done
    ));
    assert_eq!(runner.cpu.read_reg(Register::PC), base + 8);
    assert_eq!(runner.cpu.read_reg(Register::A7), sp);
}

#[test]
fn spin_fastfwd_template_d_lemmings_beq_variant() {
    let mut runner = FixtureRunner::new(8 * 1024 * 1024, FixtureRunnerConfig::default());
    let base = 0x0001_0000u32;
    let sp = 0x0010_0000u32;

    // Exact loop emitted by Lemmings 1.5.2:
    //   CLR.L -(A7); _TickCount; CMP.L (A7)+,D7; BEQ.S *-8
    runner.bus.write_word(base, 0x42A7);
    runner.bus.write_word(base + 2, 0xA975);
    runner.bus.write_word(base + 4, 0xBE9F);
    runner.bus.write_word(base + 6, 0x67F8);
    runner.bus.write_word(base + 8, 0x4E71);

    runner.bus.write_long(0x016A, 100);
    runner.dispatcher.tick_count = 100;
    runner.cpu.write_reg(Register::D7, 100);
    runner.cpu.write_reg(Register::A7, sp - 4);
    runner.cpu.write_reg(Register::PC, base + 4);
    runner.bus.write_long(sp - 4, 100);

    let (hit_cap, count) = runner.try_tickcount_spin_fastfwd(base + 4, None);

    assert!(!hit_cap);
    assert_eq!(runner.guest_tick(), 101);
    assert_eq!(runner.bus.read_long(sp - 4), 101);
    assert_eq!(runner.cpu.read_reg(Register::PC), base + 4);
    assert_eq!(runner.cpu.read_reg(Register::A7), sp - 4);
    assert_eq!(count, 0, "CMP/BEQ remain for exact CPU execution");

    assert!(matches!(
        runner.cpu.step(&mut runner.bus),
        StepResult::Done
    ));
    assert!(matches!(
        runner.cpu.step(&mut runner.bus),
        StepResult::Done
    ));
    assert_eq!(runner.cpu.read_reg(Register::PC), base + 8);
    assert_eq!(runner.cpu.read_reg(Register::A7), sp);
}

#[test]
fn spin_fastfwd_template_d_beq_does_not_advance_after_tick_changed() {
    let mut runner = FixtureRunner::new(8 * 1024 * 1024, FixtureRunnerConfig::default());
    let base = 0x0001_0000u32;
    let sp = 0x0010_0000u32;
    runner.bus.write_word(base, 0x42A7);
    runner.bus.write_word(base + 2, 0xA975);
    runner.bus.write_word(base + 4, 0xBE9F);
    runner.bus.write_word(base + 6, 0x67F8);

    runner.bus.write_long(0x016A, 101);
    runner.dispatcher.tick_count = 101;
    runner.cpu.write_reg(Register::D7, 100);
    runner.cpu.write_reg(Register::A7, sp - 4);
    runner.cpu.write_reg(Register::PC, base + 4);
    runner.bus.write_long(sp - 4, 101);

    let (hit_cap, count) = runner.try_tickcount_spin_fastfwd(base + 4, None);

    assert!(!hit_cap);
    assert_eq!(runner.guest_tick(), 101);
    assert_eq!(runner.bus.read_long(sp - 4), 101);
    assert_eq!(runner.cpu.read_reg(Register::PC), base + 4);
    assert_eq!(runner.cpu.read_reg(Register::A7), sp - 4);
    assert_eq!(count, 0);
}

#[test]
fn spin_fastfwd_template_d_honors_gui_tick_cap() {
    let mut runner = FixtureRunner::new(8 * 1024 * 1024, FixtureRunnerConfig::default());
    let base = 0x0001_0000u32;
    let sp = 0x0010_0000u32;
    runner.bus.write_word(base, 0x42A7);
    runner.bus.write_word(base + 2, 0xA975);
    runner.bus.write_word(base + 4, 0xBE9F);
    runner.bus.write_word(base + 6, 0x64F8);
    runner.bus.write_long(0x016A, 100);
    runner.dispatcher.tick_count = 100;
    runner.cpu.write_reg(Register::D7, 500);
    runner.cpu.write_reg(Register::A7, sp - 4);
    runner.cpu.write_reg(Register::PC, base + 4);
    runner.bus.write_long(sp - 4, 100);

    let (hit_cap, count) = runner.try_tickcount_spin_fastfwd(base + 4, Some(102));

    assert!(hit_cap);
    assert_eq!(runner.guest_tick(), 102);
    assert_eq!(runner.bus.read_long(sp - 4), 102);
    assert_eq!(runner.cpu.read_reg(Register::PC), base + 4);
    assert_eq!(runner.cpu.read_reg(Register::A7), sp - 4);
}

#[test]
fn spin_fastfwd_leaves_interrupt_callback_state_unsynthesized() {
    let mut runner = FixtureRunner::new(8 * 1024 * 1024, FixtureRunnerConfig::default());
    let base = 0x0001_0000u32;
    let target_addr = 0x0002_FE44u32;
    let task_ptr = 0x0020_2000u32;
    let sp = 0x0010_0000u32;

    // Same absolute-long TickCount spin as template C. The VBL task
    // becomes due during the accelerated tick advance, before the
    // loop reaches its target tick.
    runner.bus.write_word(base, 0x594F);
    runner.bus.write_word(base + 2, 0xA975);
    runner.bus.write_word(base + 4, 0x201F);
    runner.bus.write_word(base + 6, 0xB0B9);
    runner.bus.write_long(base + 8, target_addr);
    runner.bus.write_word(base + 12, 0x65F2);
    runner.bus.write_word(base + 14, 0x4E71);

    runner.bus.write_long(target_addr, 400);
    runner.bus.write_long(0x016A, 100);
    runner.dispatcher.tick_count = 100;
    runner.cpu.write_reg(Register::PC, base + 4);
    runner.cpu.write_reg(Register::A7, sp);
    runner.cpu.write_reg(Register::D0, 0xDEAD_BEEF);
    runner.cpu.set_sr_noint_nosp(0x2000);
    runner.bus.write_long(sp, 100);

    runner.bus.write_word(task_ptr + 4, 1);
    runner.bus.write_long(task_ptr + 6, 0x0004_1234);
    runner.bus.write_word(task_ptr + 10, 1);
    runner.bus.write_word(task_ptr + 12, 0);
    runner.dispatcher.vbl_tasks.push(VblTask {
        task_ptr,
        slot: None,
    });

    let (hit_cap, count) = runner.try_tickcount_spin_fastfwd(base + 4, None);

    assert!(!hit_cap);
    assert_eq!(runner.dispatcher.tick_count, 101);
    assert_eq!(runner.bus.read_long(0x016A), 101);
    assert_eq!(count, 0);
    assert_eq!(runner.cpu.read_reg(Register::D0), 0xDEAD_BEEF);
    assert_eq!(runner.cpu.read_reg(Register::PC), runner.vbl_trampoline);
    assert_eq!(runner.cpu.read_reg(Register::A7), sp - 4);
    assert_eq!(runner.bus.read_long(sp - 4), base + 4);

    let active = runner
        .active_interrupt_callback
        .expect("VBL callback should remain active for normal resume handling");
    assert!(matches!(active.source, ActiveInterruptCallbackSource::Vbl));
    assert_eq!(active.resume_pc, base + 4);
    assert_eq!(active.resume_sp, sp);
}

#[test]
fn spin_fastfwd_gate_defaults_on_with_gui_cadence_guarded_by_tick_cap() {
    // Neither force_on nor force_off → default behaviour:
    //   headless (yield_for_ui = false) → enabled
    //   capped GUI → enabled; tick_cap preserves visible cadence
    //   uncapped GUI → disabled; it could otherwise batch visible ticks
    assert!(spin_wait_fastfwd_gate(false, false, false, false));
    assert!(spin_wait_fastfwd_gate(false, false, false, true));
    assert!(spin_wait_fastfwd_gate(false, false, true, true));
    assert!(!spin_wait_fastfwd_gate(false, false, true, false));
}

#[test]
fn spin_fastfwd_gate_force_off_wins() {
    // force_off must dominate force_on and override the default in
    // either mode.
    assert!(!spin_wait_fastfwd_gate(false, true, false, false));
    assert!(!spin_wait_fastfwd_gate(false, true, true, true));
    assert!(!spin_wait_fastfwd_gate(true, true, false, true));
    assert!(!spin_wait_fastfwd_gate(true, true, true, false));
}

#[test]
fn spin_fastfwd_gate_force_on_remains_enabled() {
    // The legacy force-on override remains accepted, including for an
    // uncapped GUI caller that defaults to disabled.
    assert!(spin_wait_fastfwd_gate(true, false, false, false));
    assert!(spin_wait_fastfwd_gate(true, false, true, false));
}

#[test]
fn spin_fastfwd_rejects_wrong_branch_target() {
    let mut runner = FixtureRunner::new(8 * 1024 * 1024, FixtureRunnerConfig::default());
    let base = 0x0001_0000u32;
    runner.bus.write_word(base, 0x594F);
    runner.bus.write_word(base + 2, 0xA975);
    runner.bus.write_word(base + 4, 0x201F);
    runner.bus.write_word(base + 6, 0x5380);
    runner.bus.write_word(base + 8, 0xB680);
    // BHI.S with disp8 = 0xF6 (= -10, not -12). Target would
    // land at base+8, not at the SUBQ.W #4, A7 at base+0.
    runner.bus.write_word(base + 10, 0x62F6);

    runner.bus.write_long(0x016A, 100);
    runner.dispatcher.tick_count = 100;
    runner.cpu.write_reg(Register::D3, 500);
    runner.cpu.write_reg(Register::A7, 0x0010_0000);
    let pc_after_trap = base + 4;
    let (_, count) = runner.try_tickcount_spin_fastfwd(pc_after_trap, None);

    assert_eq!(runner.dispatcher.tick_count, 100);
    assert_eq!(count, 0);
}
