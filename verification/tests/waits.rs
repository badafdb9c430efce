use systemless::cpu::Register;
use systemless::events::{PendingWaitNextEventReturn, QueuedEvent};
use systemless::memory::MacMemoryBus;
use systemless::runner::{ActiveInterruptCallback, ActiveInterruptCallbackSource, FixtureRunner, FixtureRunnerConfig};

fn test_region_handle(
    bus: &mut MacMemoryBus,
    top: i16,
    left: i16,
    bottom: i16,
    right: i16,
) -> u32 {
    let rgn_ptr = 0x0030_0100;
    let rgn_handle = 0x0030_0140;
    bus.write_long(rgn_handle, rgn_ptr);
    bus.write_word(rgn_ptr, 10);
    bus.write_word(rgn_ptr + 2, top as u16);
    bus.write_word(rgn_ptr + 4, left as u16);
    bus.write_word(rgn_ptr + 6, bottom as u16);
    bus.write_word(rgn_ptr + 8, right as u16);
    rgn_handle
}

#[test]
fn pending_wait_sleep_ticks_advance_in_headless_mode() {
    let mut runner = FixtureRunner::new(8 * 1024 * 1024, FixtureRunnerConfig::default());
    let program_start = 0x0001_0000;

    runner.bus.write_word(program_start, 0x4E71);
    runner.cpu.write_reg(Register::PC, program_start);
    runner.cpu.write_reg(Register::A7, 0x007F_FFC0);
    runner.bus.write_long(0x016A, 0);
    runner.dispatcher.pending_wait_sleep_ticks = 3;

    let (steps, running) = runner.run_steps(1, None);

    assert!(running);
    assert_eq!(steps, 1);
    assert_eq!(runner.bus.read_long(0x016A), 3);
    assert_eq!(runner.dispatcher.pending_wait_sleep_ticks, 0);
}

#[test]
fn pending_wait_sleep_ticks_capped_to_zero_in_headless() {
    // `cap=Some(0)` is the scripted default — `WaitNextEvent`
    // sleep is treated as a zero-cost return (matching real Mac OS
    // where WNE doesn't directly tick; only the VBL hardware
    // interrupt does).
    let mut runner = FixtureRunner::new(8 * 1024 * 1024, FixtureRunnerConfig::default());
    let program_start = 0x0001_0000;

    runner.bus.write_word(program_start, 0x4E71);
    runner.cpu.write_reg(Register::PC, program_start);
    runner.cpu.write_reg(Register::A7, 0x007F_FFC0);
    runner.bus.write_long(0x016A, 0);
    runner.set_wait_sleep_cap_in_headless(Some(0));
    runner.dispatcher.pending_wait_sleep_ticks = 60;

    let (_steps, _running) = runner.run_steps(1, None);

    // Zero ticks advanced (cap=0).
    assert_eq!(runner.bus.read_long(0x016A), 0);
    // But pending sleep is cleared so the game resumes immediately.
    assert_eq!(runner.dispatcher.pending_wait_sleep_ticks, 0);
}

#[test]
fn pending_wait_sleep_ticks_capped_in_headless_when_opt_in() {
    // Headless callers (e.g. scripted harnesses) can opt in to a
    // per-WNE-call sleep tick cap matching GUI mode, preventing
    // tick counts from racing ahead of real-Mac VBL pacing during
    // event-loop-heavy gameplay.
    let mut runner = FixtureRunner::new(8 * 1024 * 1024, FixtureRunnerConfig::default());
    let program_start = 0x0001_0000;

    runner.bus.write_word(program_start, 0x4E71);
    runner.cpu.write_reg(Register::PC, program_start);
    runner.cpu.write_reg(Register::A7, 0x007F_FFC0);
    runner.bus.write_long(0x016A, 0);
    runner.set_wait_sleep_cap_in_headless(Some(1));
    runner.dispatcher.pending_wait_sleep_ticks = 60;

    let (steps, running) = runner.run_steps(1, None);

    assert!(running);
    assert_eq!(steps, 1);
    // Only 1 tick advanced (cap), not the full 60.
    assert_eq!(runner.bus.read_long(0x016A), 1);
    assert_eq!(runner.dispatcher.pending_wait_sleep_ticks, 0);
    assert_eq!(runner.wait_sleep_cap_in_headless(), Some(1));
}

#[test]
fn pending_wait_sleep_ticks_suspends_foreground_until_gui_tick_cap() {
    // In GUI mode (tick_override=Some), WNE sleep advances VBL/timer time
    // up to the current frame cap but keeps the foreground app suspended
    // until the requested sleep expires. This prevents sleep=60 loops from
    // receiving 60 null events per second. Inside Macintosh: Processes
    // 1994, p. 2-8.
    let mut runner = FixtureRunner::new(8 * 1024 * 1024, FixtureRunnerConfig::default());
    let program_start = 0x0001_0000;

    runner.bus.write_word(program_start, 0x4E71);
    runner.cpu.write_reg(Register::PC, program_start);
    runner.cpu.write_reg(Register::A7, 0x007F_FFC0);
    runner.bus.write_long(0x016A, 0);
    runner.dispatcher.pending_wait_sleep_ticks = 60;

    let (steps, running) = runner.run_steps(1, Some(10));

    assert!(running);
    assert_eq!(
        steps, 0,
        "foreground code should not resume while WNE sleep remains pending"
    );
    assert_eq!(runner.bus.read_long(0x016A), 10);
    assert_eq!(runner.dispatcher.pending_wait_sleep_ticks, 50);
}

#[test]
fn pending_wait_sleep_ticks_wakes_wait_next_event_with_queued_input() {
    let mut runner = FixtureRunner::new(8 * 1024 * 1024, FixtureRunnerConfig::default());
    let program_start = 0x0001_0000;
    let event_ptr = 0x0020_0000;
    let result_ptr = 0x0020_0020;

    runner.bus.write_word(program_start, 0x4E71);
    runner.cpu.write_reg(Register::PC, program_start);
    runner.cpu.write_reg(Register::A7, 0x007F_FFC0);
    runner.bus.write_long(0x016A, 0);
    runner.bus.write_word(result_ptr, 0);
    runner.dispatcher.sent_open_app_event = true;
    runner.dispatcher.write_event_record(
        &mut runner.bus,
        event_ptr,
        QueuedEvent { what: 0, message: 0, where_v: 0, where_h: 0, modifiers: 0 },
    );
    runner.dispatcher.pending_wait_sleep_ticks = 60;
    runner.dispatcher.pending_wait_next_event_return = Some(PendingWaitNextEventReturn {
        event_ptr,
        result_ptr,
        event_mask: 0xFFFF,
        mouse_rgn: 0,
        resume_pc: None,
        resume_sp: None,
    });
    runner.push_mouse_down(123, 456);

    let (steps, running) = runner.run_steps(1, Some(10));

    assert!(running);
    assert_eq!(steps, 1);
    assert_eq!(
        runner.bus.read_word(event_ptr),
        1,
        "queued mouseDown should replace the pending null EventRecord"
    );
    assert_eq!(runner.bus.read_word(event_ptr + 10), 123u16);
    assert_eq!(runner.bus.read_word(event_ptr + 12), 456u16);
    assert_eq!(
        runner.bus.read_word(result_ptr),
        0xFFFF,
        "WaitNextEvent result slot should be rewritten to TRUE"
    );
    assert_eq!(runner.dispatcher.pending_wait_sleep_ticks, 0);
    assert!(runner.dispatcher.pending_wait_next_event_return.is_none());
}

#[test]
fn push_mouse_down_wakes_pending_wait_next_event_immediately() {
    let mut runner = FixtureRunner::new(8 * 1024 * 1024, FixtureRunnerConfig::default());
    let event_ptr = 0x0020_0000;
    let result_ptr = 0x0020_0020;

    runner.bus.write_word(result_ptr, 0);
    runner.dispatcher.sent_open_app_event = true;
    runner.dispatcher.write_event_record(
        &mut runner.bus,
        event_ptr,
        QueuedEvent { what: 0, message: 0, where_v: 0, where_h: 0, modifiers: 0 },
    );
    runner.dispatcher.pending_wait_sleep_ticks = 60;
    runner.dispatcher.pending_wait_next_event_return = Some(PendingWaitNextEventReturn {
        event_ptr,
        result_ptr,
        event_mask: 0xFFFF,
        mouse_rgn: 0,
        resume_pc: None,
        resume_sp: None,
    });

    runner.push_mouse_down(123, 456);

    assert_eq!(
        runner.bus.read_word(event_ptr),
        1,
        "input injection should wake a sleeping WaitNextEvent before the next CPU slice"
    );
    assert_eq!(runner.bus.read_word(event_ptr + 10), 123u16);
    assert_eq!(runner.bus.read_word(event_ptr + 12), 456u16);
    assert_eq!(runner.bus.read_word(result_ptr), 0xFFFF);
    assert_eq!(runner.dispatcher.pending_wait_sleep_ticks, 0);
    assert!(runner.dispatcher.pending_wait_next_event_return.is_none());
}

#[test]
fn set_mouse_position_wakes_pending_wait_next_event_with_mouse_moved_region() {
    let mut runner = FixtureRunner::new(8 * 1024 * 1024, FixtureRunnerConfig::default());
    let event_ptr = 0x0020_0000;
    let result_ptr = 0x0020_0020;
    let mouse_rgn = test_region_handle(&mut runner.bus, 10, 20, 30, 40);

    runner.set_mouse_position(20, 25);
    runner.bus.write_word(result_ptr, 0);
    runner.dispatcher.sent_open_app_event = true;
    runner.dispatcher.write_event_record(
        &mut runner.bus,
        event_ptr,
        QueuedEvent { what: 0, message: 0, where_v: 0, where_h: 0, modifiers: 0 },
    );
    runner.dispatcher.pending_wait_sleep_ticks = 60;
    runner.dispatcher.pending_wait_next_event_return = Some(PendingWaitNextEventReturn {
        event_ptr,
        result_ptr,
        event_mask: 0x8000,
        mouse_rgn,
        resume_pc: None,
        resume_sp: None,
    });

    runner.set_mouse_position(50, 25);

    assert_eq!(
        runner.bus.read_word(event_ptr),
        15,
        "mouse movement outside the pending mouseRgn should wake WaitNextEvent with osEvt"
    );
    assert_eq!(runner.bus.read_long(event_ptr + 2), 0xFA00_0000);
    assert_eq!(runner.bus.read_word(event_ptr + 10), 50u16);
    assert_eq!(runner.bus.read_word(event_ptr + 12), 25u16);
    assert_eq!(runner.bus.read_word(result_ptr), 0xFFFF);
    assert_eq!(runner.dispatcher.pending_wait_sleep_ticks, 0);
    assert!(runner.dispatcher.pending_wait_next_event_return.is_none());
    assert_eq!(
        runner.dispatcher.debug_mouse_moved_event_count, 1,
        "async wake path should share the normal mouse-moved event accounting"
    );
}

#[test]
fn set_mouse_position_wakes_pending_wait_next_event_with_null_for_polling_loop() {
    let mut runner = FixtureRunner::new(8 * 1024 * 1024, FixtureRunnerConfig::default());
    let program_start = 0x0001_0000;
    let event_ptr = 0x0020_0000;
    let result_ptr = 0x0020_0020;

    runner.bus.write_word(program_start, 0x4E71); // NOP
    runner.cpu.write_reg(Register::PC, program_start);
    runner.cpu.write_reg(Register::A7, 0x007F_FFC0);
    runner.bus.write_long(0x016A, 100);
    runner.dispatcher.tick_count = 100;
    runner.tick_budget = 0;
    runner.bus.write_word(result_ptr, 0xFFFF);
    runner.dispatcher.sent_open_app_event = true;
    runner.dispatcher.write_event_record(
        &mut runner.bus,
        event_ptr,
        QueuedEvent { what: 0xFFFF, message: 0xABCD_EF01, where_v: 1, where_h: 2, modifiers: 3 },
    );
    runner.dispatcher.pending_wait_sleep_ticks = 60;
    runner.dispatcher.pending_wait_next_event_return = Some(PendingWaitNextEventReturn {
        event_ptr,
        result_ptr,
        event_mask: 0xFFFF,
        mouse_rgn: 0,
        resume_pc: None,
        resume_sp: None,
    });

    runner.set_mouse_position(123, 456);

    assert_eq!(
        runner.bus.read_word(event_ptr),
        0,
        "mouse movement with no mouseRgn event should wake WNE as a null event for polling loops"
    );
    assert_eq!(runner.bus.read_long(event_ptr + 2), 0);
    assert_eq!(runner.bus.read_word(event_ptr + 10), 123u16);
    assert_eq!(runner.bus.read_word(event_ptr + 12), 456u16);
    assert_eq!(
        runner.bus.read_word(result_ptr),
        0,
        "WaitNextEvent should return FALSE when the wake is only for polling input"
    );
    assert_eq!(runner.dispatcher.pending_wait_sleep_ticks, 0);
    assert!(runner.dispatcher.pending_wait_next_event_return.is_none());

    let (steps, running) = runner.run_steps(1, Some(110));
    assert!(running);
    assert_eq!(
        steps, 1,
        "polling wake should let foreground code resume before the old sleep expires"
    );
    assert_eq!(
        runner.bus.read_long(0x016A),
        100,
        "polling wake must not spend the next slice only advancing ticks"
    );
}

#[test]
fn push_mouse_down_leaves_pending_wait_next_event_parked_during_interrupt_callback() {
    let mut runner = FixtureRunner::new(8 * 1024 * 1024, FixtureRunnerConfig::default());
    let event_ptr = 0x0020_0000;
    let result_ptr = 0x0020_0020;
    let interrupted_pc = 0x0001_0000;
    let interrupted_sp = 0x007F_FFC0;

    runner.bus.write_word(result_ptr, 0);
    runner.dispatcher.sent_open_app_event = true;
    runner.dispatcher.write_event_record(
        &mut runner.bus,
        event_ptr,
        QueuedEvent { what: 0, message: 0, where_v: 0, where_h: 0, modifiers: 0 },
    );
    runner.dispatcher.pending_wait_sleep_ticks = 60;
    runner.dispatcher.pending_wait_next_event_return = Some(PendingWaitNextEventReturn {
        event_ptr,
        result_ptr,
        event_mask: 0xFFFF,
        mouse_rgn: 0,
        resume_pc: None,
        resume_sp: None,
    });
    runner.active_interrupt_callback = Some(ActiveInterruptCallback {
        source: ActiveInterruptCallbackSource::Timer,
        resume_pc: interrupted_pc,
        resume_sp: interrupted_sp,
        d_regs: [0; 8],
        a_regs: [0, 0, 0, 0, 0, 0, 0, interrupted_sp],
        sr: 0x2000,
        ccr: 0,
        restore_port: None,
    });

    runner.push_mouse_down(123, 456);

    assert_eq!(
        runner.bus.read_word(event_ptr),
        0,
        "input must not rewrite a foreground WaitNextEvent record while an interrupt callback is active"
    );
    assert_eq!(runner.bus.read_word(result_ptr), 0);
    assert_eq!(runner.dispatcher.pending_wait_sleep_ticks, 60);
    assert!(runner.dispatcher.pending_wait_next_event_return.is_some());
    assert!(
        runner
            .dispatcher
            .event_queue
            .iter()
            .any(|event| event.what == 1 && event.where_v == 123 && event.where_h == 456),
        "the mouseDown should remain queued for the foreground event loop"
    );
}

#[test]
fn pending_wait_next_event_drops_stale_return_after_foreground_moves_on() {
    let mut runner = FixtureRunner::new(8 * 1024 * 1024, FixtureRunnerConfig::default());
    let parked_pc = 0x0001_0000;
    let stale_pc = 0x0001_0010;
    let parked_sp = 0x007F_FFC0;
    let event_ptr = 0x0020_0000;
    let result_ptr = 0x0020_0020;

    runner.bus.write_word(stale_pc, 0x4E71); // NOP
    runner.cpu.write_reg(Register::PC, stale_pc);
    runner.cpu.write_reg(Register::A7, parked_sp);
    runner.bus.write_word(result_ptr, 0xA582);
    runner.dispatcher.sent_open_app_event = true;
    runner.dispatcher.write_event_record(
        &mut runner.bus,
        event_ptr,
        QueuedEvent { what: 0, message: 0, where_v: 0, where_h: 0, modifiers: 0 },
    );
    runner.dispatcher.pending_wait_sleep_ticks = 60;
    runner.dispatcher.pending_wait_next_event_return = Some(PendingWaitNextEventReturn {
        event_ptr,
        result_ptr,
        event_mask: 0xFFFF,
        mouse_rgn: 0,
        resume_pc: Some(parked_pc),
        resume_sp: Some(parked_sp),
    });
    runner.dispatcher.push_mouse_down(123, 456);

    let (steps, running) = runner.run_steps(1, Some(10));

    assert!(running);
    assert_eq!(steps, 1);
    assert_eq!(
        runner.bus.read_word(result_ptr),
        0xA582,
        "a stale WaitNextEvent return slot may now belong to a caller frame"
    );
    assert_eq!(runner.dispatcher.pending_wait_sleep_ticks, 0);
    assert!(runner.dispatcher.pending_wait_next_event_return.is_none());
    assert!(
        runner
            .dispatcher
            .event_queue
            .iter()
            .any(|event| event.what == 1 && event.where_v == 123 && event.where_h == 456),
        "stale WNE cleanup should not silently consume a queued event"
    );
}

#[test]
fn push_mouse_down_restores_foreground_budget_before_next_tick_cap_run() {
    let mut runner = FixtureRunner::new(8 * 1024 * 1024, FixtureRunnerConfig::default());
    let program_start = 0x0001_0000;

    runner.bus.write_word(program_start, 0x4E71); // NOP
    runner.cpu.write_reg(Register::PC, program_start);
    runner.cpu.write_reg(Register::A7, 0x007F_FFC0);
    runner.bus.write_long(0x016A, 100);
    runner.dispatcher.tick_count = 100;
    runner.tick_budget = 0;

    runner.push_mouse_down(123, 456);

    let (steps, running) = runner.run_steps(1, Some(110));

    assert!(running);
    assert_eq!(
        steps, 1,
        "input injected at an exhausted tick boundary should let foreground code run"
    );
    assert_eq!(
        runner.bus.read_long(0x016A),
        100,
        "foreground input wake must not spend the next slice only advancing ticks"
    );
}

#[test]
fn set_mouse_position_restores_foreground_budget_before_next_tick_cap_run() {
    let mut runner = FixtureRunner::new(8 * 1024 * 1024, FixtureRunnerConfig::default());
    let program_start = 0x0001_0000;

    runner.bus.write_word(program_start, 0x4E71); // NOP
    runner.cpu.write_reg(Register::PC, program_start);
    runner.cpu.write_reg(Register::A7, 0x007F_FFC0);
    runner.bus.write_long(0x016A, 100);
    runner.dispatcher.tick_count = 100;
    runner.tick_budget = 0;

    runner.set_mouse_position(123, 456);

    let (steps, running) = runner.run_steps(1, Some(110));

    assert!(running);
    assert_eq!(
        steps, 1,
        "mouse movement at an exhausted tick boundary should let polling foreground code run"
    );
    assert_eq!(
        runner.bus.read_long(0x016A),
        100,
        "foreground mouse-move wake must not spend the next slice only advancing ticks"
    );
}

#[test]
fn pending_wait_sleep_ticks_honors_app_owned_visible_dialog_snapshot_in_gui_mode() {
    let mut runner = FixtureRunner::new(8 * 1024 * 1024, FixtureRunnerConfig::default());
    let program_start = 0x0001_0000;
    let dialog_ptr = 0x0020_0000;

    runner.bus.write_word(program_start, 0x4E71);
    runner.cpu.write_reg(Register::PC, program_start);
    runner.cpu.write_reg(Register::A7, 0x007F_FFC0);
    runner.bus.write_long(0x016A, 0);
    runner.dispatcher.dialog_visible_snapshots.push(dialog_ptr);
    runner.dispatcher.pending_wait_sleep_ticks = 60;

    let (steps, running) = runner.run_steps(1, Some(10));

    assert!(running);
    assert_eq!(
        steps, 0,
        "app-owned visible dialogs must not collapse WaitNextEvent sleep before ModalDialog"
    );
    assert_eq!(runner.bus.read_long(0x016A), 10);
    assert_eq!(runner.dispatcher.pending_wait_sleep_ticks, 50);
}

#[test]
fn pending_wait_sleep_ticks_honors_app_owned_visible_dialog_snapshot_in_headless_cap_zero() {
    let mut runner = FixtureRunner::new(8 * 1024 * 1024, FixtureRunnerConfig::default());
    let program_start = 0x0001_0000;
    let dialog_ptr = 0x0020_0000;

    runner.bus.write_word(program_start, 0x4E71);
    runner.cpu.write_reg(Register::PC, program_start);
    runner.cpu.write_reg(Register::A7, 0x007F_FFC0);
    runner.bus.write_long(0x016A, 0);
    runner.set_wait_sleep_cap_in_headless(Some(0));
    runner.dispatcher.dialog_visible_snapshots.push(dialog_ptr);
    runner.dispatcher.pending_wait_sleep_ticks = 60;

    let (steps, running) = runner.run_steps(1, None);

    assert!(running);
    assert_eq!(
        steps, 1,
        "headless cap zero must not collapse app-owned dialog sleep"
    );
    assert_eq!(runner.bus.read_long(0x016A), 60);
    assert_eq!(runner.dispatcher.pending_wait_sleep_ticks, 0);
}

#[test]
fn pending_wait_sleep_ticks_collapses_retained_modaldialog_snapshot_in_gui_mode() {
    let mut runner = FixtureRunner::new(8 * 1024 * 1024, FixtureRunnerConfig::default());
    let program_start = 0x0001_0000;
    let dialog_ptr = 0x0020_0000;

    runner.bus.write_word(program_start, 0x4E71);
    runner.cpu.write_reg(Register::PC, program_start);
    runner.cpu.write_reg(Register::A7, 0x007F_FFC0);
    runner.bus.write_long(0x016A, 0);
    runner.dispatcher.dialog_visible_snapshots.push(dialog_ptr);
    runner.dispatcher.dialog_modal_entered.push(dialog_ptr);
    runner.dispatcher.pending_wait_sleep_ticks = 60;

    let (steps, running) = runner.run_steps(1, Some(10));

    assert!(running);
    assert_eq!(
        steps, 1,
        "retained ModalDialog snapshots keep the existing app-yield path"
    );
    assert_eq!(runner.bus.read_long(0x016A), 0);
    assert_eq!(runner.dispatcher.pending_wait_sleep_ticks, 0);
}

#[test]
fn pending_wait_sleep_ticks_resumes_when_gui_sleep_expires_before_cap() {
    let mut runner = FixtureRunner::new(8 * 1024 * 1024, FixtureRunnerConfig::default());
    let program_start = 0x0001_0000;

    runner.bus.write_word(program_start, 0x4E71);
    runner.cpu.write_reg(Register::PC, program_start);
    runner.cpu.write_reg(Register::A7, 0x007F_FFC0);
    runner.bus.write_long(0x016A, 0);
    runner.dispatcher.pending_wait_sleep_ticks = 3;

    let (steps, running) = runner.run_steps(1, Some(10));

    assert!(running);
    assert_eq!(steps, 1);
    assert_eq!(runner.bus.read_long(0x016A), 3);
    assert_eq!(runner.dispatcher.pending_wait_sleep_ticks, 0);
}

#[test]
fn pending_delay_ticks_advance_in_gui_mode() {
    let mut runner = FixtureRunner::new(8 * 1024 * 1024, FixtureRunnerConfig::default());
    let program_start = 0x0001_0000;

    runner.bus.write_word(program_start, 0x4E71);
    runner.cpu.write_reg(Register::PC, program_start);
    runner.cpu.write_reg(Register::A7, 0x007F_FFC0);
    runner.bus.write_long(0x016A, 0);
    runner.dispatcher.pending_delay_ticks = 3;

    let (steps, _running) = runner.run_steps(1, Some(10));

    assert_eq!(steps, 1);
    assert_eq!(runner.bus.read_long(0x016A), 3);
    assert_eq!(runner.dispatcher.pending_delay_ticks, 0);
    assert_eq!(runner.cpu.read_reg(Register::D0), 3);
}
