use systemless::cpu::Register;
use systemless::events::{PendingFileCompletion, TimerTask, VblTask};
use systemless::globals;
use systemless::interrupts::CURSOR_TASK_NOOP_ADDR;
use systemless::runner::{ActiveInterruptCallback, ActiveInterruptCallbackSource, FixtureRunner, FixtureRunnerConfig};

#[test]
fn cursor_task_noop_vector_does_not_fire_on_guest_tick() {
    let mut runner = FixtureRunner::new(8 * 1024 * 1024, FixtureRunnerConfig::default());
    let interrupted_pc = 0x0002_0000;
    let interrupted_sp = 0x007F_FFC0;

    runner.bus.write_long(
        globals::J_CRSR_TASK,
        CURSOR_TASK_NOOP_ADDR,
    );
    runner.cpu.write_reg(Register::PC, interrupted_pc);
    runner.cpu.write_reg(Register::A7, interrupted_sp);

    runner.advance_guest_tick();

    assert!(runner.active_interrupt_callback.is_none());
    assert_eq!(runner.cursor_task_trampoline, 0);
    assert_eq!(runner.cpu.read_reg(Register::PC), interrupted_pc);
    assert_eq!(runner.cpu.read_reg(Register::A7), interrupted_sp);
    assert_eq!(runner.bus.read_long(globals::TICKS), 1);
}

#[test]
fn cursor_task_callback_arms_interrupt_from_low_memory_vector() {
    let mut runner = FixtureRunner::new(8 * 1024 * 1024, FixtureRunnerConfig::default());
    let interrupted_pc = 0x0002_0000;
    let interrupted_sp = 0x007F_FFC0;
    let callback_addr = 0x0004_1234;

    runner
        .bus
        .write_long(globals::J_CRSR_TASK, callback_addr);
    runner.cpu.write_reg(Register::PC, interrupted_pc);
    runner.cpu.write_reg(Register::A7, interrupted_sp);
    runner.cpu.write_reg(Register::D0, 0x1111_1111);
    runner.cpu.write_reg(Register::D7, 0x7777_7777);
    runner.cpu.write_reg(Register::A0, 0xAAAA_0000);
    runner.cpu.write_reg(Register::A6, 0xCCCC_0000);
    runner.cpu.set_ccr(0x04);
    runner.cpu.set_sr_noint_nosp(0x2004);

    runner.advance_guest_tick();

    let active = runner
        .active_interrupt_callback
        .expect("cursor task callback should have been armed");
    assert!(matches!(
        active.source,
        ActiveInterruptCallbackSource::CursorTask
    ));
    assert_eq!(active.resume_pc, interrupted_pc);
    assert_eq!(active.resume_sp, interrupted_sp);
    assert_eq!(active.a_regs[7], interrupted_sp);
    assert_eq!(active.a_regs[6], 0xCCCC_0000);
    assert_eq!(active.d_regs[0], 0x1111_1111);
    assert_eq!(active.d_regs[7], 0x7777_7777);
    assert_eq!(active.sr, 0x2004);
    assert_eq!(active.ccr, 0x04);
    assert_eq!(runner.cpu.get_sr(), 0x2104);

    assert_ne!(runner.cursor_task_trampoline, 0);
    assert_eq!(
        runner.cpu.read_reg(Register::PC),
        runner.cursor_task_trampoline
    );
    assert_eq!(runner.cpu.read_reg(Register::A7), interrupted_sp - 4);
    assert_eq!(runner.bus.read_long(interrupted_sp - 4), interrupted_pc);
    assert_eq!(runner.bus.read_word(runner.cursor_task_trampoline), 0x48E7);
    assert_eq!(
        runner.bus.read_word(runner.cursor_task_trampoline + 4),
        0x4EB9
    );
    assert_eq!(
        runner.bus.read_long(runner.cursor_task_trampoline + 6),
        callback_addr
    );
    assert_eq!(
        runner.bus.read_word(runner.cursor_task_trampoline + 10),
        0x4CDF
    );
    assert_eq!(
        runner.bus.read_word(runner.cursor_task_trampoline + 14),
        0x4E75
    );
}

#[test]
fn cursor_task_defers_while_processor_priority_masks_level_one() {
    let mut runner = FixtureRunner::new(8 * 1024 * 1024, FixtureRunnerConfig::default());
    let interrupted_pc = 0x0002_0000;
    let interrupted_sp = 0x007F_FFC0;

    runner
        .bus
        .write_long(globals::J_CRSR_TASK, 0x0004_1234);
    runner.cpu.write_reg(Register::PC, interrupted_pc);
    runner.cpu.write_reg(Register::A7, interrupted_sp);
    runner.cpu.set_sr_noint_nosp(0x2100);

    runner.advance_guest_tick();

    assert!(runner.active_interrupt_callback.is_none());
    assert_eq!(runner.cursor_task_trampoline, 0);
    assert_eq!(runner.cpu.read_reg(Register::PC), interrupted_pc);
    assert_eq!(runner.cpu.read_reg(Register::A7), interrupted_sp);
}

#[test]
fn timer_callback_snapshot_preserves_interrupted_sp() {
    let mut runner = FixtureRunner::new(8 * 1024 * 1024, FixtureRunnerConfig::default());
    let interrupted_pc = 0x0002_8BAC;
    let interrupted_sp = 0x007F_FFC0;

    runner.cpu.write_reg(Register::PC, interrupted_pc);
    runner.cpu.write_reg(Register::D0, 0x1111_1111);
    runner.cpu.write_reg(Register::D7, 0x7777_7777);
    runner.cpu.write_reg(Register::A0, 0xAAAA_0000);
    runner.cpu.write_reg(Register::A6, 0xCCCC_0000);
    runner.cpu.write_reg(Register::A7, interrupted_sp);
    runner.cpu.set_ccr(0x1F);
    runner.bus.write_word(0x0039_38C8 + 4, 0x8001);

    runner.dispatcher.timer_tasks.push(TimerTask {
        task_ptr: 0x0039_38C8,
        tm_addr: 0x0004_1234,
        active: true,
        fire_at_tick: 10,
        fire_at_subtick: 10_000_000,
        last_fired_tick: None,
    });

    runner.fire_timer_tasks(10);

    let active = runner
        .active_interrupt_callback
        .expect("timer callback should have been armed");

    assert!(matches!(
        active.source,
        ActiveInterruptCallbackSource::Timer
    ));
    assert_eq!(active.resume_pc, interrupted_pc);
    assert_eq!(active.resume_sp, interrupted_sp);
    assert_eq!(active.a_regs[7], interrupted_sp);
    assert_eq!(active.a_regs[6], 0xCCCC_0000);
    assert_eq!(active.d_regs[0], 0x1111_1111);
    assert_eq!(active.d_regs[7], 0x7777_7777);
    assert_eq!(active.sr & 0x001F, 0x001F);
    assert_eq!(active.ccr, 0x1F);
    assert_eq!(
        runner.bus.read_word(0x0039_38C8 + 4),
        1,
        "an expired Time Manager task must be inactive before tmAddr runs"
    );

    assert_ne!(runner.timer_trampoline, 0);
    assert_eq!(runner.cpu.read_reg(Register::PC), runner.timer_trampoline);
    assert_eq!(runner.cpu.read_reg(Register::A7), interrupted_sp - 4);
    assert_eq!(runner.bus.read_long(interrupted_sp - 4), interrupted_pc);
}

#[test]
fn timer_callback_fired_at_tick_cap_runs_before_yielding() {
    let mut runner = FixtureRunner::new(8 * 1024 * 1024, FixtureRunnerConfig::default());
    let interrupted_pc = 0x0001_0000;
    let interrupted_sp = 0x007F_FFC0;
    let callback_addr = 0x0002_0000;

    runner.cpu.write_reg(Register::PC, interrupted_pc);
    runner.cpu.write_reg(Register::A7, interrupted_sp);
    runner.bus.write_long(0x016A, 100);
    runner.dispatcher.tick_count = 100;
    runner.tick_budget = 0;
    runner.bus.write_word(callback_addr, 0x4E75); // RTS
    runner.dispatcher.timer_tasks.push(TimerTask {
        task_ptr: 0x0039_38C8,
        tm_addr: callback_addr,
        active: true,
        fire_at_tick: 101,
        fire_at_subtick: 101_000_000,
        last_fired_tick: None,
    });

    let (steps, running) = runner.run_steps(1, Some(101));

    assert!(running);
    assert_eq!(
        steps, 1,
        "a timer fired while reaching the tick cap must get a CPU slice"
    );
    assert_eq!(runner.bus.read_long(0x016A), 101);
    assert!(runner.active_interrupt_callback.is_some());
    assert_ne!(runner.timer_trampoline, 0);
    assert_eq!(
        runner.cpu.read_reg(Register::PC),
        runner.timer_trampoline + 4
    );
}

#[test]
fn sub_vbl_timer_callback_fires_before_next_guest_tick() {
    let mut runner = FixtureRunner::new(8 * 1024 * 1024, FixtureRunnerConfig::default());
    let interrupted_pc = 0x0001_0000;
    let interrupted_sp = 0x007F_FFC0;
    let callback_addr = 0x0002_0000;

    runner.bus.write_word(interrupted_pc, 0x60FE); // BRA.S to self
    runner.bus.write_word(callback_addr, 0x4E75); // RTS
    runner.cpu.write_reg(Register::PC, interrupted_pc);
    runner.cpu.write_reg(Register::A7, interrupted_sp);
    runner.bus.write_long(0x016A, 100);
    runner.dispatcher.tick_count = 100;
    runner.tick_budget = runner.instructions_per_tick as i32;
    runner.dispatcher.timer_tasks.push(TimerTask {
        task_ptr: 0x0039_38C8,
        tm_addr: callback_addr,
        active: true,
        fire_at_tick: 101,
        fire_at_subtick: 100_200_000,
        last_fired_tick: None,
    });

    let steps = runner.instructions_per_tick as usize / 4;
    let (executed, running) = runner.run_steps(steps, None);
    let (_, still_running) = runner.run_steps(1, None);

    assert!(running);
    assert!(still_running);
    assert_eq!(executed, steps);
    assert_eq!(runner.guest_tick(), 100);
    assert!(!runner.dispatcher.timer_tasks[0].active);
    assert_ne!(runner.timer_trampoline, 0);
}

#[test]
fn timer_callback_return_runs_foreground_before_next_due_timer() {
    let mut runner = FixtureRunner::new(8 * 1024 * 1024, FixtureRunnerConfig::default());
    let interrupted_pc = 0x0001_0000;
    let interrupted_sp = 0x007F_FFC0;
    let callback_addr = 0x0002_0000;

    runner.bus.write_word(interrupted_pc, 0x4E71); // foreground NOP
    runner.cpu.write_reg(Register::PC, interrupted_pc);
    runner.cpu.write_reg(Register::A7, interrupted_sp);
    runner.bus.write_long(0x016A, 101);
    runner.dispatcher.tick_count = 101;
    runner.set_instructions_per_tick(1);
    runner.tick_budget = 0;
    runner.active_interrupt_callback = Some(ActiveInterruptCallback {
        source: ActiveInterruptCallbackSource::Timer,
        resume_pc: interrupted_pc,
        resume_sp: interrupted_sp,
        d_regs: [0; 8],
        a_regs: [0, 0, 0, 0, 0, 0, 0, interrupted_sp],
        sr: 0x2000,
        ccr: 0,
        restore_port: None,
    });
    runner.dispatcher.timer_tasks.push(TimerTask {
        task_ptr: 0x0039_38C8,
        tm_addr: callback_addr,
        active: true,
        fire_at_tick: 102,
        fire_at_subtick: 102_000_000,
        last_fired_tick: None,
    });

    let (steps, running) = runner.run_steps(1, None);

    assert!(running);
    assert_eq!(steps, 1);
    assert_eq!(
        runner.cpu.read_reg(Register::PC),
        interrupted_pc + 2,
        "resumed foreground instruction should run before the next timer interrupt"
    );
    assert_eq!(
        runner.guest_tick(),
        101,
        "returning from an interrupt must not immediately spend an exhausted budget on another tick"
    );
    assert!(runner.active_interrupt_callback.is_none());
    assert!(
        runner.dispatcher.timer_tasks[0].active,
        "the next due timer should remain queued until foreground code gets a slice"
    );
}

#[test]
fn simultaneous_timer_callbacks_keep_undelivered_tasks_active() {
    let mut runner = FixtureRunner::new(8 * 1024 * 1024, FixtureRunnerConfig::default());
    let interrupted_pc = 0x0001_0000;
    let interrupted_sp = 0x007F_FFC0;

    runner.cpu.write_reg(Register::PC, interrupted_pc);
    runner.cpu.write_reg(Register::A7, interrupted_sp);
    runner.dispatcher.timer_tasks.extend([
        TimerTask {
            task_ptr: 0x0039_38C8,
            tm_addr: 0x0002_0000,
            active: true,
            fire_at_tick: 10,
            fire_at_subtick: 10_000_000,
            last_fired_tick: None,
        },
        TimerTask {
            task_ptr: 0x0039_3900,
            tm_addr: 0x0002_1000,
            active: true,
            fire_at_tick: 10,
            fire_at_subtick: 10_000_000,
            last_fired_tick: None,
        },
    ]);

    runner.fire_timer_tasks(10);

    assert!(!runner.dispatcher.timer_tasks[0].active);
    assert!(
        runner.dispatcher.timer_tasks[1].active,
        "a second task due on the same tick must remain queued"
    );

    // The delivered task may re-prime itself from its callback. It must not
    // jump ahead of an older task that is still waiting for delivery.
    runner.dispatcher.timer_tasks[0].active = true;
    runner.dispatcher.timer_tasks[0].fire_at_tick = 11;
    runner.dispatcher.timer_tasks[0].fire_at_subtick = 11_000_000;
    runner.active_interrupt_callback = None;
    runner.cpu.write_reg(Register::PC, interrupted_pc);
    runner.cpu.write_reg(Register::A7, interrupted_sp);

    runner.fire_timer_tasks(11);

    assert!(
        runner.dispatcher.timer_tasks[0].active,
        "the newly re-primed task must wait behind the older due task"
    );
    assert!(!runner.dispatcher.timer_tasks[1].active);
    assert_eq!(
        runner.bus.read_long(runner.timer_trampoline + 6),
        0x0039_3900
    );
}

#[test]
fn self_reprimed_timer_waits_for_the_next_vbl_service() {
    let mut runner = FixtureRunner::new(8 * 1024 * 1024, FixtureRunnerConfig::default());
    let interrupted_pc = 0x0001_0000;
    let interrupted_sp = 0x007F_FFC0;
    let task_ptr = 0x0039_38C8;

    runner.cpu.write_reg(Register::PC, interrupted_pc);
    runner.cpu.write_reg(Register::A7, interrupted_sp);
    runner.dispatcher.timer_tasks.push(TimerTask {
        task_ptr,
        tm_addr: 0x0002_0000,
        active: true,
        fire_at_tick: 10,
        fire_at_subtick: 10_100_000,
        last_fired_tick: None,
    });

    runner.fire_timer_tasks_at(10_100_000);
    assert_eq!(runner.dispatcher.timer_tasks[0].last_fired_tick, Some(10));

    // Model the callback returning and re-priming itself for another
    // revised Time Manager deadline inside the same VBL.
    runner.active_interrupt_callback = None;
    runner.cpu.write_reg(Register::PC, interrupted_pc);
    runner.cpu.write_reg(Register::A7, interrupted_sp);
    runner.dispatcher.timer_tasks[0].active = true;
    runner.dispatcher.timer_tasks[0].fire_at_tick = 11;
    runner.dispatcher.timer_tasks[0].fire_at_subtick = 10_300_000;

    runner.fire_timer_tasks_at(10_300_000);
    assert!(
        runner.active_interrupt_callback.is_none(),
        "one queue element must not monopolize the same VBL"
    );
    assert!(runner.dispatcher.timer_tasks[0].active);

    runner.fire_timer_tasks_at(11_000_000);
    assert!(
        runner.active_interrupt_callback.is_some(),
        "the re-primed element becomes eligible at the next VBL service"
    );
    assert_eq!(runner.dispatcher.timer_tasks[0].last_fired_tick, Some(11));
}

#[test]
fn file_completion_callback_uses_documented_registers_and_restores_foreground() {
    let mut runner = FixtureRunner::new(8 * 1024 * 1024, FixtureRunnerConfig::default());
    let interrupted_pc = 0x0001_0000;
    let interrupted_sp = 0x007F_FFC0;
    let parameter_block = runner.bus.allocate(64);
    let callback_addr = runner.bus.allocate(2);

    runner.bus.write_word(callback_addr, 0x4E75); // RTS
    for offset in (0..20).step_by(2) {
        runner.bus.write_word(interrupted_pc + offset, 0x4E71); // NOP
    }
    runner.cpu.write_reg(Register::PC, interrupted_pc);
    runner.cpu.write_reg(Register::A7, interrupted_sp);
    runner.cpu.write_reg(Register::A0, 0x1111_1111);
    runner.cpu.write_reg(Register::D0, 0x2222_2222);
    runner
        .dispatcher
        .pending_file_completions
        .push_back(PendingFileCompletion {
            parameter_block,
            completion_addr: callback_addr,
            result: -39,
        });

    assert!(runner.fire_file_completion_callback());
    assert_eq!(runner.bus.read_word(parameter_block + 16) as i16, -39);
    assert_eq!(runner.cpu.read_reg(Register::A0), parameter_block);
    assert_eq!(runner.cpu.read_reg(Register::D0) as i32, -39);
    assert!(matches!(
        runner.active_interrupt_callback.map(|active| active.source),
        Some(ActiveInterruptCallbackSource::FileCompletion)
    ));
    assert!(
        runner
            .bus
            .get_alloc_size(runner.file_completion_trampoline)
            .is_none(),
        "Systemless-owned completion trampoline must stay outside the guest heap"
    );

    let (_, running) = runner.run_steps(6, None);

    assert!(running);
    assert!(runner.active_interrupt_callback.is_none());
    assert_eq!(runner.cpu.read_reg(Register::A7), interrupted_sp);
    assert_eq!(runner.cpu.read_reg(Register::A0), 0x1111_1111);
    assert_eq!(runner.cpu.read_reg(Register::D0), 0x2222_2222);
    assert!(!runner.is_halted());
}

#[test]
fn vbl_callback_arms_interrupt_with_task_ptr_in_a0() {
    let mut runner = FixtureRunner::new(8 * 1024 * 1024, FixtureRunnerConfig::default());
    let interrupted_pc = 0x0002_0000;
    let interrupted_sp = 0x007F_FFC0;
    let task_ptr = 0x0020_2000;

    runner.cpu.write_reg(Register::PC, interrupted_pc);
    runner.cpu.write_reg(Register::A7, interrupted_sp);
    runner.cpu.write_reg(Register::A0, 0xAAAA_0000);
    runner.cpu.set_ccr(0x04);
    runner.cpu.set_sr_noint_nosp(0x2004);

    runner.bus.write_word(task_ptr + 4, 1); // qType = vType
    runner.bus.write_long(task_ptr + 6, 0x0004_1234); // vblAddr
    runner.bus.write_word(task_ptr + 10, 1); // vblCount
    runner.bus.write_word(task_ptr + 12, 0); // vblPhase
    runner.dispatcher.vbl_tasks.push(VblTask {
        task_ptr,
        slot: Some(9),
    });

    runner.fire_vbl_tasks();

    let active = runner
        .active_interrupt_callback
        .expect("vbl callback should have been armed");
    assert!(matches!(active.source, ActiveInterruptCallbackSource::Vbl));
    assert_eq!(active.resume_pc, interrupted_pc);
    assert_eq!(active.resume_sp, interrupted_sp);
    assert_eq!(active.sr, 0x2004);
    assert_eq!(active.ccr, 0x04);
    assert_eq!(runner.bus.read_word(task_ptr + 10), 0);

    assert_ne!(runner.vbl_trampoline, 0);
    assert_eq!(runner.cpu.get_sr(), 0x2104);
    assert_eq!(runner.cpu.read_reg(Register::PC), runner.vbl_trampoline);
    assert_eq!(runner.cpu.read_reg(Register::A7), interrupted_sp - 4);
    assert_eq!(runner.bus.read_long(interrupted_sp - 4), interrupted_pc);
    assert_eq!(runner.bus.read_word(runner.vbl_trampoline + 4), 0x207C);
    assert_eq!(runner.bus.read_long(runner.vbl_trampoline + 6), task_ptr);
    assert_eq!(
        runner.bus.read_long(runner.vbl_trampoline + 12),
        0x0004_1234
    );
}

#[test]
fn vbl_callback_defers_while_processor_priority_masks_level_one() {
    let mut runner = FixtureRunner::new(8 * 1024 * 1024, FixtureRunnerConfig::default());
    let interrupted_pc = 0x0002_0000;
    let interrupted_sp = 0x007F_FFC0;
    let task_ptr = 0x0020_2000;

    runner.cpu.write_reg(Register::PC, interrupted_pc);
    runner.cpu.write_reg(Register::A7, interrupted_sp);
    runner.cpu.set_sr_noint_nosp(0x2100);

    runner.bus.write_word(task_ptr + 4, 1);
    runner.bus.write_long(task_ptr + 6, 0x0004_1234);
    runner.bus.write_word(task_ptr + 10, 1);
    runner.bus.write_word(task_ptr + 12, 0);
    runner.dispatcher.vbl_tasks.push(VblTask {
        task_ptr,
        slot: None,
    });

    runner.fire_vbl_tasks();

    assert!(runner.active_interrupt_callback.is_none());
    assert_eq!(runner.bus.read_word(task_ptr + 10), 1);
    assert_eq!(runner.cpu.read_reg(Register::PC), interrupted_pc);
    assert_eq!(runner.cpu.read_reg(Register::A7), interrupted_sp);
}

#[test]
fn vbl_callback_restores_foreground_sr_after_return() {
    let mut runner = FixtureRunner::new(8 * 1024 * 1024, FixtureRunnerConfig::default());
    let interrupted_pc = 0x0002_0000;
    let interrupted_sp = 0x007F_FFC0;
    let task_ptr = 0x0020_2000;
    let callback_addr = 0x0004_1234;

    runner.bus.write_word(interrupted_pc, 0x4E71); // foreground NOP
    runner.bus.write_word(callback_addr, 0x4E75); // VBL callback RTS
    runner.cpu.write_reg(Register::PC, interrupted_pc);
    runner.cpu.write_reg(Register::A7, interrupted_sp);
    runner.cpu.set_sr_noint_nosp(0x2004);

    runner.bus.write_word(task_ptr + 4, 1);
    runner.bus.write_long(task_ptr + 6, callback_addr);
    runner.bus.write_word(task_ptr + 10, 1);
    runner.bus.write_word(task_ptr + 12, 0);
    runner.dispatcher.vbl_tasks.push(VblTask {
        task_ptr,
        slot: None,
    });

    runner.fire_vbl_tasks();
    assert_eq!(runner.cpu.get_sr(), 0x2104);

    let (_steps, running) = runner.run_steps(8, None);

    assert!(running);
    assert!(runner.active_interrupt_callback.is_none());
    assert_eq!(runner.cpu.get_sr(), 0x2004);
    assert_eq!(runner.cpu.read_reg(Register::A7), interrupted_sp);
}

#[test]
fn pending_delay_ticks_fire_vbl_tasks_in_headless_mode() {
    let mut runner = FixtureRunner::new(8 * 1024 * 1024, FixtureRunnerConfig::default());
    let interrupted_pc = 0x0001_0000;
    let interrupted_sp = 0x007F_FFC0;
    let task_ptr = 0x0020_2000;

    runner.bus.write_word(interrupted_pc, 0x4E71);
    runner.cpu.write_reg(Register::PC, interrupted_pc);
    runner.cpu.write_reg(Register::A7, interrupted_sp);
    runner.cpu.set_sr_noint_nosp(0x2000);
    runner.bus.write_long(0x016A, 0);
    runner.dispatcher.pending_delay_ticks = 1;

    runner.bus.write_word(task_ptr + 4, 1);
    runner.bus.write_long(task_ptr + 6, 0x0004_1234);
    runner.bus.write_word(task_ptr + 10, 1);
    runner.bus.write_word(task_ptr + 12, 0);
    runner.dispatcher.vbl_tasks.push(VblTask {
        task_ptr,
        slot: None,
    });

    let (steps, running) = runner.run_steps(1, None);

    assert!(running);
    assert_eq!(steps, 1);
    assert_eq!(runner.bus.read_long(0x016A), 1);
    assert_eq!(runner.dispatcher.pending_delay_ticks, 0);
    assert_eq!(runner.cpu.read_reg(Register::D0), 1);
    assert!(matches!(
        runner.active_interrupt_callback,
        Some(ActiveInterruptCallback {
            source: ActiveInterruptCallbackSource::Vbl,
            ..
        })
    ));
}
