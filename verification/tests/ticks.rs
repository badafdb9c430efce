use systemless::cpu::Register;
use systemless::runner::{FixtureRunner, FixtureRunnerConfig};

#[test]
fn custom_instructions_per_tick_controls_tick_cadence() {
    let mut runner = FixtureRunner::new(8 * 1024 * 1024, FixtureRunnerConfig::default());
    let program_start = 0x0001_0000;
    let program_words = 14;

    for offset in (0..program_words).step_by(2) {
        runner.bus.write_word(program_start + offset, 0x4E71);
    }

    runner.cpu.write_reg(Register::PC, program_start);
    runner.cpu.write_reg(Register::A7, 0x007F_FFC0);
    runner.bus.write_long(0x016A, 0);
    runner.set_instructions_per_tick(3);

    let (steps, running) = runner.run_steps(7, None);

    assert!(running);
    assert_eq!(steps, 7);
    assert_eq!(runner.bus.read_long(0x016A), 2);
}

#[test]
fn non_idle_hle_trap_cost_advances_tick_budget() {
    let mut runner = FixtureRunner::new(8 * 1024 * 1024, FixtureRunnerConfig::default());
    let base = 0x0001_0000u32;
    let sp = 0x0010_0000u32;
    let rect = 0x0020_0000u32;

    runner.bus.write_word(base, 0xA8A8); // _OffsetRect
    runner.cpu.write_reg(Register::PC, base);
    runner.cpu.write_reg(Register::A7, sp);
    runner.bus.write_word(sp, 1); // dv
    runner.bus.write_word(sp + 2, 2); // dh
    runner.bus.write_long(sp + 4, rect);
    runner.bus.write_word(rect, 10);
    runner.bus.write_word(rect + 2, 20);
    runner.bus.write_word(rect + 4, 30);
    runner.bus.write_word(rect + 6, 40);
    runner.bus.write_long(0x016A, 0);
    runner.dispatcher.tick_count = 0;
    runner.set_instructions_per_tick(5);

    let (steps, running) = runner.run_steps(1, None);

    assert!(running);
    assert_eq!(steps, 1);
    assert_eq!(
        runner.guest_tick(),
        1,
        "non-idle HLE traps should consume tick budget beyond the base instruction"
    );
    assert_eq!(runner.bus.read_word(rect), 11);
    assert_eq!(runner.bus.read_word(rect + 2), 22);
}

#[test]
fn idle_hle_traps_do_not_apply_extra_tick_cost() {
    let mut runner = FixtureRunner::new(8 * 1024 * 1024, FixtureRunnerConfig::default());
    let base = 0x0001_0000u32;

    runner.bus.write_word(base, 0xA975); // _TickCount
    runner.cpu.write_reg(Register::PC, base);
    runner.cpu.write_reg(Register::A7, 0x0010_0000);
    runner.bus.write_long(0x016A, 42);
    runner.dispatcher.tick_count = 42;
    runner.set_instructions_per_tick(5);

    let (steps, running) = runner.run_steps(1, None);

    assert!(running);
    assert_eq!(steps, 1);
    assert_eq!(
        runner.guest_tick(),
        42,
        "polling traps should not add synthetic HLE manager cost"
    );
    assert_eq!(runner.tick_budget, 4);
}

#[test]
fn hle_trap_cost_stops_gui_slice_at_tick_cap() {
    let mut runner = FixtureRunner::new(8 * 1024 * 1024, FixtureRunnerConfig::default());
    let base = 0x0001_0000u32;
    let sp = 0x0010_0000u32;
    let rect = 0x0020_0000u32;

    runner.bus.write_word(base, 0xA8A8); // _OffsetRect
    runner.bus.write_word(base + 2, 0x4E71); // NOP that must wait for the next GUI slice
    runner.cpu.write_reg(Register::PC, base);
    runner.cpu.write_reg(Register::A7, sp);
    runner.bus.write_word(sp, 1);
    runner.bus.write_word(sp + 2, 2);
    runner.bus.write_long(sp + 4, rect);
    runner.bus.write_word(rect, 10);
    runner.bus.write_word(rect + 2, 20);
    runner.bus.write_word(rect + 4, 30);
    runner.bus.write_word(rect + 6, 40);
    runner.bus.write_long(0x016A, 0);
    runner.dispatcher.tick_count = 0;
    runner.set_instructions_per_tick(5);

    let (steps, running) = runner.run_gui_slice_with_audio(8, 1, 0);

    assert!(running);
    assert_eq!(steps, 1);
    assert_eq!(runner.guest_tick(), 1);
    assert_eq!(
        runner.cpu.read_reg(Register::PC),
        base + 2,
        "the next guest instruction should be deferred once HLE cost reaches the GUI tick cap"
    );
}

#[test]
fn dispatcher_tick_count_stays_in_sync_with_bus() {
    let mut runner = FixtureRunner::new(8 * 1024 * 1024, FixtureRunnerConfig::default());
    let program_start = 0x0001_0000;
    let program_words = 20;

    // NOPs keep the CPU stepping without producing traps that
    // could interfere with tick accounting.
    for offset in (0..program_words).step_by(2) {
        runner.bus.write_word(program_start + offset, 0x4E71);
    }

    runner.cpu.write_reg(Register::PC, program_start);
    runner.cpu.write_reg(Register::A7, 0x007F_FFC0);
    runner.bus.write_long(0x016A, 0);
    // Set both sides of the invariant to the same initial value.
    runner.dispatcher.tick_count = 0;
    runner.set_instructions_per_tick(3);

    // Step a few times; ticks should advance roughly every 3
    // instructions. After each run_steps, bus and dispatcher
    // must agree.
    for _ in 0..3 {
        let (_, running) = runner.run_steps(3, None);
        assert!(running);
        assert_eq!(
            runner.bus.read_long(0x016A),
            runner.dispatcher.tick_count,
            "bus $016A ({}) diverged from dispatcher.tick_count ({})",
            runner.bus.read_long(0x016A),
            runner.dispatcher.tick_count,
        );
    }
}

#[test]
fn tick_progress_persists_across_multiple_run_slices() {
    let mut runner = FixtureRunner::new(8 * 1024 * 1024, FixtureRunnerConfig::default());
    let program_start = 0x0001_0000;
    let program_words = 12;

    for offset in (0..program_words).step_by(2) {
        runner.bus.write_word(program_start + offset, 0x4E71);
    }

    runner.cpu.write_reg(Register::PC, program_start);
    runner.cpu.write_reg(Register::A7, 0x007F_FFC0);
    runner.bus.write_long(0x016A, 0);
    runner.set_instructions_per_tick(5);

    let (steps1, running1) = runner.run_steps(3, None);
    let (steps2, running2) = runner.run_steps(3, None);

    assert!(running1);
    assert!(running2);
    assert_eq!(steps1, 3);
    assert_eq!(steps2, 3);
    assert_eq!(runner.bus.read_long(0x016A), 1);
}

#[test]
fn tick_override_breaks_once_target_tick_is_reached() {
    let mut runner = FixtureRunner::new(8 * 1024 * 1024, FixtureRunnerConfig::default());
    let program_start = 0x0001_0000;
    let program_words = 16;

    for offset in (0..program_words).step_by(2) {
        runner.bus.write_word(program_start + offset, 0x4E71);
    }

    runner.cpu.write_reg(Register::PC, program_start);
    runner.cpu.write_reg(Register::A7, 0x007F_FFC0);
    runner.bus.write_long(0x016A, 0);
    runner.set_instructions_per_tick(4);

    let (steps, running) = runner.run_steps_with_audio(16, Some(0), 0);

    assert!(running);
    assert_eq!(steps, 3);
    assert_eq!(runner.bus.read_long(0x016A), 0);
}
