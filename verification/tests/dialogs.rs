use std::collections::VecDeque;
use systemless::cpu::Register;
use systemless::dialog::{DialogItem, DialogTrackingState};
use systemless::events::QueuedEvent;
use systemless::policy::{modaldialog_refire_is_noop, tracking_refire_should_freeze_ticks};
use systemless::runner::{FixtureRunner, FixtureRunnerConfig};
use systemless::trap::GuestWindow;

fn dialog_tracking_for_test(filter_proc: u32, item_hit_ptr: u32) -> DialogTrackingState {
    DialogTrackingState {
        dialog_ptr: 0x0020_0000,
        bounds: (0, 0, 32, 32),
        items: Vec::new(),
        item_hit_ptr,
        flash_remaining: 0,
        draw_proc_queue: VecDeque::new(),
        draw_procs_done: true,
        rendered_pixels_final: true,
        filter_proc,
        last_filter_event: None,
    }
}

fn open_window(runner: &mut FixtureRunner, ptr: u32, bounds: (i16, i16, i16, i16)) {
    runner.dispatcher.windows.push(GuestWindow { ptr, bounds, visible: true, invalid: true });
}

#[test]
fn modaldialog_refire_skip_gui_mode_never_fires() {
    // yield_for_ui=true should ALWAYS prevent the skip,
    // regardless of the other conditions.
    for has_tracking in [false, true] {
        for events in [false, true] {
            assert!(
                !modaldialog_refire_is_noop(
                    true, // yield_for_ui = GUI
                    has_tracking,
                    true, // all "noop" conditions
                    true,
                    true,
                    true,
                    events,
                ),
                "GUI mode must never skip refires (has_tracking={}, events={})",
                has_tracking,
                events
            );
        }
    }
}

#[test]
fn tracking_refire_freeze_policy_keeps_modaldialog_ticks_live() {
    // Menu/control tracking may freeze app-visible ticks while the GUI
    // renders intermediate tracking frames.
    assert!(tracking_refire_should_freeze_ticks(0xA93D));
    assert!(tracking_refire_should_freeze_ticks(0xAD3D));
    assert!(tracking_refire_should_freeze_ticks(0xA80B));
    assert!(tracking_refire_should_freeze_ticks(0xAC0B));
    assert!(tracking_refire_should_freeze_ticks(0xA968));
    assert!(tracking_refire_should_freeze_ticks(0xAD68));

    // ModalDialog must keep ticks/VBL/sound callbacks live. EV's pilot
    // dialog flow plays music through this path.
    assert!(!tracking_refire_should_freeze_ticks(0xA991));
    assert!(!tracking_refire_should_freeze_ticks(0xAD91));
}

#[test]
fn gui_modaldialog_idle_refire_advances_one_tick() {
    let mut runner = FixtureRunner::new(8 * 1024 * 1024, FixtureRunnerConfig::default());
    let base = 0x0001_0000u32;
    runner.bus.write_word(base, 0xA991); // _ModalDialog
    runner.cpu.write_reg(Register::PC, base);
    runner.cpu.write_reg(Register::A7, 0x0010_0000);
    runner.bus.write_long(0x016A, 0);
    runner.dispatcher.tick_count = 0;
    runner.set_instructions_per_tick(1_000_000);
    runner.dispatcher.dialog_tracking = Some(dialog_tracking_for_test(0, 0));

    let (steps, running) = runner.run_gui_slice_with_audio(1, 1, 0);

    assert!(running);
    assert_eq!(steps, 1);
    assert_eq!(runner.guest_tick(), 1);
    assert_eq!(runner.tick_budget, runner.instructions_per_tick() as i32);
    assert_eq!(runner.cpu.read_reg(Register::PC), base);
}

#[test]
fn gui_modaldialog_idle_refire_runs_until_tick_cap() {
    let mut runner = FixtureRunner::new(8 * 1024 * 1024, FixtureRunnerConfig::default());
    let base = 0x0001_0000u32;
    runner.bus.write_word(base, 0xA991); // _ModalDialog
    runner.cpu.write_reg(Register::PC, base);
    runner.cpu.write_reg(Register::A7, 0x0010_0000);
    runner.bus.write_long(0x016A, 0);
    runner.dispatcher.tick_count = 0;
    runner.set_instructions_per_tick(1_000_000);
    runner.dispatcher.dialog_tracking = Some(dialog_tracking_for_test(0, 0));

    let (steps, running) = runner.run_gui_slice_with_audio(16, 2, 0);

    assert!(running);
    assert_eq!(steps, 2);
    assert_eq!(runner.guest_tick(), 2);
    assert_eq!(runner.cpu.read_reg(Register::PC), base);
}

#[test]
fn gui_modaldialog_refire_unfreezes_prior_control_tracking() {
    let mut runner = FixtureRunner::new(8 * 1024 * 1024, FixtureRunnerConfig::default());
    let base = 0x0001_0000u32;
    runner.bus.write_word(base, 0xA991); // _ModalDialog
    runner.cpu.write_reg(Register::PC, base);
    runner.cpu.write_reg(Register::A7, 0x0010_0000);
    runner.bus.write_long(0x016A, 182);
    runner.dispatcher.tick_count = 182;
    runner.frozen_ticks = Some(182);
    runner.set_instructions_per_tick(1_000_000);
    runner.dispatcher.dialog_tracking = Some(dialog_tracking_for_test(0, 0));

    let (steps, running) = runner.run_gui_slice_with_audio(16, 184, 0);

    assert!(running);
    assert_eq!(steps, 1);
    assert_eq!(runner.frozen_ticks, None);
    assert_eq!(runner.guest_tick(), 184);
    assert_eq!(runner.dispatcher.tick_count, 184);
}

#[test]
fn gui_modaldialog_null_filter_fires_at_tick_cap() {
    let mut runner = FixtureRunner::new(8 * 1024 * 1024, FixtureRunnerConfig::default());
    let base = 0x0001_0000u32;
    let filter_proc = 0x0001_1000u32;
    runner.bus.write_word(base, 0xA991); // _ModalDialog
    runner.bus.write_word(filter_proc, 0x4E56); // LINK A6, valid filter entry
    runner.cpu.write_reg(Register::PC, base);
    runner.cpu.write_reg(Register::A7, 0x0010_0000);
    runner.bus.write_long(0x016A, 0);
    runner.dispatcher.tick_count = 0;
    runner.dispatcher.dialog_tracking =
        Some(dialog_tracking_for_test(filter_proc, 0x0010_0100));

    let (steps, running) = runner.run_gui_slice_with_audio(1, 0, 0);

    assert!(running);
    assert_eq!(steps, 1);
    assert_eq!(runner.guest_tick(), 0);
    assert_ne!(runner.cpu.read_reg(Register::PC), base);
    assert!(!runner.has_pending_sound_work());
    assert!(
        !runner
            .dispatcher
            .dialog_tracking
            .as_ref()
            .unwrap()
            .rendered_pixels_final
    );
}

#[test]
fn gui_modaldialog_update_filter_fires_at_tick_cap() {
    let mut runner = FixtureRunner::new(8 * 1024 * 1024, FixtureRunnerConfig::default());
    let base = 0x0001_0000u32;
    let filter_proc = 0x0001_1000u32;
    runner.bus.write_word(base, 0xA991); // _ModalDialog
    runner.bus.write_word(filter_proc, 0x4E56); // LINK A6, valid filter entry
    runner.cpu.write_reg(Register::PC, base);
    runner.cpu.write_reg(Register::A7, 0x0010_0000);
    runner.bus.write_long(0x016A, 0);
    runner.dispatcher.tick_count = 0;
    runner.dispatcher.event_queue.push_back(QueuedEvent {
        what: 6,
        message: 0,
        where_v: 0,
        where_h: 0,
        modifiers: 0,
    });
    runner.dispatcher.dialog_tracking =
        Some(dialog_tracking_for_test(filter_proc, 0x0010_0100));

    let (steps, running) = runner.run_gui_slice_with_audio(1, 0, 0);

    assert!(running);
    assert_eq!(steps, 1);
    assert_eq!(runner.guest_tick(), 0);
    assert_ne!(runner.cpu.read_reg(Register::PC), base);
    assert!(
        !runner
            .dispatcher
            .dialog_tracking
            .as_ref()
            .unwrap()
            .rendered_pixels_final
    );
}

#[test]
fn gui_modaldialog_mouse_down_goes_to_filter_before_default_handling() {
    let mut runner = FixtureRunner::new(8 * 1024 * 1024, FixtureRunnerConfig::default());
    let base = 0x0001_0000u32;
    let filter_proc = 0x0001_1000u32;
    runner.bus.write_word(base, 0xA991); // _ModalDialog
    runner.bus.write_word(filter_proc, 0x4E56); // LINK A6, valid filter entry
    runner.cpu.write_reg(Register::PC, base);
    runner.cpu.write_reg(Register::A7, 0x0010_0000);
    runner.bus.write_long(0x016A, 0);
    runner.dispatcher.tick_count = 0;
    runner.dispatcher.event_queue.push_back(QueuedEvent {
        what: 1,
        message: 0,
        where_v: 12,
        where_h: 24,
        modifiers: 0,
    });
    let mut tracking = dialog_tracking_for_test(filter_proc, 0x0010_0100);
    tracking.items.push(DialogItem {
        item_type: 4,
        rect: (8, 16, 20, 30),
        proc_ptr: 0,
    });
    runner.dispatcher.dialog_tracking = Some(tracking);

    let (steps, running) = runner.run_gui_slice_with_audio(1, 0, 0);

    assert!(running);
    assert_eq!(steps, 1);
    assert_ne!(runner.cpu.read_reg(Register::PC), base);
    let event_ptr = runner.dialog_filter_event;
    assert_eq!(runner.bus.read_word(event_ptr), 1);
    assert_eq!(runner.bus.read_word(event_ptr + 10), 12);
    assert_eq!(runner.bus.read_word(event_ptr + 12), 24);
    assert!(
        runner.dispatcher.event_queue.is_empty(),
        "the filter callback should consume a queued button mouseDown event"
    );
}

#[test]
fn modaldialog_filter_null_event_is_paced_per_guest_tick() {
    let mut runner = FixtureRunner::new(8 * 1024 * 1024, FixtureRunnerConfig::default());
    let filter_proc = 0x0001_1000u32;
    let dialog_ptr = 0x0020_0000u32;
    runner.dispatcher.dialog_tracking =
        Some(dialog_tracking_for_test(filter_proc, 0x0010_0100));
    runner.dispatcher.tick_count = 42;
    runner.bus.write_long(0x016A, 42);

    assert!(runner.should_fire_dialog_filter_proc());

    runner.dialog_filter_last_null_event_tick = Some((dialog_ptr, 42));
    assert!(
        !runner.should_fire_dialog_filter_proc(),
        "a synthetic null event should not refire twice in the same guest tick"
    );

    runner.dispatcher.tick_count = 43;
    runner.bus.write_long(0x016A, 43);
    assert!(
        runner.should_fire_dialog_filter_proc(),
        "the next guest tick should allow another ModalDialog null-event filter call"
    );
}

#[test]
fn modaldialog_filter_real_events_bypass_null_event_pacing() {
    let mut runner = FixtureRunner::new(8 * 1024 * 1024, FixtureRunnerConfig::default());
    let filter_proc = 0x0001_1000u32;
    let dialog_ptr = 0x0020_0000u32;
    runner.dispatcher.dialog_tracking =
        Some(dialog_tracking_for_test(filter_proc, 0x0010_0100));
    runner.dispatcher.tick_count = 42;
    runner.bus.write_long(0x016A, 42);
    runner.dialog_filter_last_null_event_tick = Some((dialog_ptr, 42));
    runner.dispatcher.event_queue.push_back(QueuedEvent {
        what: 1,
        message: 0,
        where_v: 12,
        where_h: 34,
        modifiers: 0,
    });

    assert!(
        runner.should_fire_dialog_filter_proc(),
        "mouse/key/update events must still enter the filter immediately"
    );

    runner.dispatcher.event_queue.clear();
    let window_ptr = runner.bus.allocate(170);
    open_window(&mut runner, window_ptr, (100, 120, 220, 360));
    runner
        .dispatcher
        .dialog_tracking
        .as_mut()
        .unwrap()
        .dialog_ptr = window_ptr;
    runner.dialog_filter_last_null_event_tick = Some((window_ptr, 42));

    assert!(
        runner.should_fire_dialog_filter_proc(),
        "a pending updateEvt for the active dialog must bypass null-event pacing"
    );
}

#[test]
fn modaldialog_refire_skip_headless_requires_all_conditions() {
    // In headless mode, ALL noop conditions must be true.
    // Each condition false alone must prevent the skip.
    assert!(modaldialog_refire_is_noop(
        false, true, true, true, true, true, true,
    ));

    // Each one off in turn should prevent the skip.
    assert!(!modaldialog_refire_is_noop(
        false, false, true, true, true, true, true,
    ));
    assert!(!modaldialog_refire_is_noop(
        false, true, false, true, true, true, true,
    ));
    assert!(!modaldialog_refire_is_noop(
        false, true, true, false, true, true, true,
    ));
    assert!(!modaldialog_refire_is_noop(
        false, true, true, true, false, true, true,
    ));
    assert!(!modaldialog_refire_is_noop(
        false, true, true, true, true, false, true,
    ));
    assert!(!modaldialog_refire_is_noop(
        false, true, true, true, true, true, false,
    ));
}

#[test]
fn modaldialog_batched_skip_increments_inline_skipped_by_batch() {
    let mut runner = FixtureRunner::new(8 * 1024 * 1024, FixtureRunnerConfig::default());
    let base = 0x0001_0000u32;
    // Bare ModalDialog at PC. The runner-level fast path rewinds
    // PC after each fire, so re-firing repeatedly into the same
    // trap word is the production behaviour.
    runner.bus.write_word(base, 0xA991); // _ModalDialog
    runner.cpu.write_reg(Register::PC, base);
    runner.cpu.write_reg(Register::A7, 0x0010_0000);
    runner.dispatcher.tick_count = 0;
    runner.bus.write_long(0x016A, 0);
    runner.set_instructions_per_tick(1_000_000);

    // Populate dialog_tracking so the noop_refire pure-decision
    // function returns true. modaldialog_refire_is_noop requires
    // ALL of: tracking present, filter_proc=0, flash_remaining=0,
    // draw_procs_done, rendered_pixels_final, event queue empty
    // (and yield_for_ui = false in headless run_steps).
    runner.dispatcher.dialog_tracking = Some(DialogTrackingState {
        dialog_ptr: 0x0020_0000,
        bounds: (0, 0, 32, 32),
        items: Vec::new(),
        item_hit_ptr: 0,
        flash_remaining: 0,
        draw_proc_queue: VecDeque::new(),
        draw_procs_done: true,
        rendered_pixels_final: true,
        filter_proc: 0,
        last_filter_event: None,
    });

    let idx = (0xA991u16 & 0xFFF) as usize;
    let before_inline = runner.dispatcher.inline_skipped[idx];
    let before_hist = runner.dispatcher.trap_histogram[idx];

    // BATCH=64 in the runner. With max_steps=64 we should observe
    // exactly one entry + 63 batched iterations = 64 increments.
    let (steps, _running) = runner.run_steps(64, None);

    assert_eq!(
        steps, 64,
        "max_steps cap exhausted by 64 batched no-op refires"
    );
    let after_inline = runner.dispatcher.inline_skipped[idx];
    let after_hist = runner.dispatcher.trap_histogram[idx];
    assert_eq!(
        after_inline - before_inline,
        64,
        "batched skip must increment inline_skipped[$0191] by BATCH=64"
    );
    assert_eq!(
        after_hist - before_hist,
        64,
        "trap_histogram and inline_skipped must increment in lockstep on the inline path"
    );
}

#[test]
fn modaldialog_batched_skip_applies_after_paced_filter_null_event() {
    let mut runner = FixtureRunner::new(8 * 1024 * 1024, FixtureRunnerConfig::default());
    let base = 0x0001_0000u32;
    let filter_proc = 0x0001_1000u32;
    let dialog_ptr = 0x0020_0000u32;
    runner.bus.write_word(base, 0xA991); // _ModalDialog
    runner.cpu.write_reg(Register::PC, base);
    runner.cpu.write_reg(Register::A7, 0x0010_0000);
    runner.dispatcher.tick_count = 42;
    runner.bus.write_long(0x016A, 42);
    runner.set_instructions_per_tick(1_000_000);
    runner.dispatcher.dialog_tracking =
        Some(dialog_tracking_for_test(filter_proc, 0x0010_0100));
    runner.dialog_filter_last_null_event_tick = Some((dialog_ptr, 42));

    let idx = (0xA991u16 & 0xFFF) as usize;
    let before_inline = runner.dispatcher.inline_skipped[idx];
    let before_hist = runner.dispatcher.trap_histogram[idx];

    let (steps, running) = runner.run_steps(64, None);

    assert!(running);
    assert_eq!(steps, 64);
    assert_eq!(runner.cpu.read_reg(Register::PC), base);
    assert_eq!(runner.dispatcher.inline_skipped[idx] - before_inline, 64);
    assert_eq!(runner.dispatcher.trap_histogram[idx] - before_hist, 64);
}

#[test]
fn dialog_filter_synthesized_null_event_uses_live_modifiers() {
    let mut runner = FixtureRunner::new(8 * 1024 * 1024, FixtureRunnerConfig::default());
    let filter_proc = 0x0004_2000u32;

    runner.bus.write_word(filter_proc, 0x4E56);
    runner.cpu.write_reg(Register::PC, 0x0001_0000);
    runner.cpu.write_reg(Register::A7, 0x007F_FFC0);
    runner.dispatcher.set_mouse_position(222, 333);
    runner.dispatcher.dialog_tracking = Some(DialogTrackingState {
        dialog_ptr: 0x0020_0000,
        bounds: (100, 200, 200, 360),
        items: Vec::new(),
        item_hit_ptr: 0x0030_0000,
        flash_remaining: 0,
        draw_proc_queue: VecDeque::new(),
        draw_procs_done: true,
        rendered_pixels_final: true,
        filter_proc,
        last_filter_event: None,
    });

    assert!(runner.fire_dialog_filter_proc());
    let event_ptr = runner.dialog_filter_event;
    assert_eq!(runner.bus.read_word(event_ptr), 0);
    assert_eq!(runner.bus.read_word(event_ptr + 10), 222);
    assert_eq!(runner.bus.read_word(event_ptr + 12), 333);
    assert_eq!(
        runner.bus.read_word(event_ptr + 14),
        runner.dispatcher.current_event_modifiers()
    );
    assert_eq!(
        runner.dialog_filter_last_null_event_tick,
        Some((0x0020_0000, 0))
    );
}

#[test]
fn dialog_filter_uses_active_dialog_pending_update_before_null_event() {
    let mut runner = FixtureRunner::new(8 * 1024 * 1024, FixtureRunnerConfig::default());
    let filter_proc = 0x0004_2000u32;
    let dialog_ptr = runner.bus.allocate(170);

    runner.bus.write_word(filter_proc, 0x4E56);
    runner.cpu.write_reg(Register::PC, 0x0001_0000);
    runner.cpu.write_reg(Register::A7, 0x007F_FFC0);
    open_window(&mut runner, dialog_ptr, (100, 120, 220, 360));
    runner.dispatcher.event_queue.clear();
    runner.dispatcher.dialog_tracking =
        Some(dialog_tracking_for_test(filter_proc, 0x0030_0000));
    runner
        .dispatcher
        .dialog_tracking
        .as_mut()
        .unwrap()
        .dialog_ptr = dialog_ptr;

    assert!(runner.fire_dialog_filter_proc());
    let event_ptr = runner.dialog_filter_event;
    assert_eq!(runner.bus.read_word(event_ptr), 6);
    assert_eq!(runner.bus.read_long(event_ptr + 2), dialog_ptr);
    assert_eq!(runner.dialog_filter_last_null_event_tick, None);
}

#[test]
fn dialog_filter_paces_synthetic_update_without_starving_queued_input() {
    let mut runner = FixtureRunner::new(8 * 1024 * 1024, FixtureRunnerConfig::default());
    let filter_proc = 0x0004_2000u32;
    let dialog_ptr = runner.bus.allocate(170);

    runner.bus.write_word(filter_proc, 0x4E56);
    runner.cpu.write_reg(Register::PC, 0x0001_0000);
    runner.cpu.write_reg(Register::A7, 0x007F_FFC0);
    runner.bus.write_long(0x016A, 17);
    runner.dispatcher.tick_count = 17;
    open_window(&mut runner, dialog_ptr, (100, 120, 220, 360));
    runner.dispatcher.event_queue.clear();
    runner.dispatcher.dialog_tracking =
        Some(dialog_tracking_for_test(filter_proc, 0x0030_0000));
    runner
        .dispatcher
        .dialog_tracking
        .as_mut()
        .unwrap()
        .dialog_ptr = dialog_ptr;

    assert!(runner.fire_dialog_filter_proc());
    let event_ptr = runner.dialog_filter_event;
    assert_eq!(runner.bus.read_word(event_ptr), 6);
    assert_eq!(runner.bus.read_long(event_ptr + 2), dialog_ptr);

    runner.active_interrupt_callback = None;
    runner.cpu.write_reg(Register::PC, 0x0001_0000);
    runner.cpu.write_reg(Register::A7, 0x007F_FFC0);
    runner
        .dispatcher
        .dialog_tracking
        .as_mut()
        .unwrap()
        .last_filter_event = None;
    assert!(
        !runner.dialog_filter_has_real_event_pending(dialog_ptr),
        "the same invalid-region update should not refire indefinitely in one guest tick"
    );

    runner.dispatcher.event_queue.push_back(QueuedEvent {
        what: 1,
        message: 0,
        where_v: 123,
        where_h: 234,
        modifiers: 0,
    });
    assert!(
        runner.dialog_filter_has_real_event_pending(dialog_ptr),
        "queued user input must bypass synthetic update pacing"
    );
    assert!(runner.fire_dialog_filter_proc());
    assert_eq!(runner.bus.read_word(event_ptr), 1);
    assert_eq!(runner.bus.read_word(event_ptr + 10), 123);
    assert_eq!(runner.bus.read_word(event_ptr + 12), 234);
    assert!(
        runner.dispatcher.event_queue.is_empty(),
        "the queued mouse event should be consumed by the filter call"
    );

    runner.active_interrupt_callback = None;
    runner
        .dispatcher
        .dialog_tracking
        .as_mut()
        .unwrap()
        .last_filter_event = None;
    runner.bus.write_long(0x016A, 18);
    runner.dispatcher.tick_count = 18;
    assert!(
        runner.dialog_filter_has_real_event_pending(dialog_ptr),
        "a still-invalid dialog can surface another update event on the next guest tick"
    );
}

#[test]
fn dialog_filter_proc_leaves_dialog_port_current() {
    let mut runner = FixtureRunner::new(8 * 1024 * 1024, FixtureRunnerConfig::default());
    let interrupted_pc = 0x0001_0000u32;
    let interrupted_sp = 0x007F_FFC0u32;
    let main_port = runner.bus.allocate(170);
    let dialog_ptr = runner.bus.allocate(170);

    runner.bus.write_word(interrupted_pc, 0x60FE); // BRA.S *-0
    runner.cpu.write_reg(Register::PC, interrupted_pc);
    runner.cpu.write_reg(Register::A7, interrupted_sp);

    open_window(&mut runner, main_port, (0, 0, 600, 800));
    open_window(&mut runner, dialog_ptr, (120, 180, 240, 420));
    runner
        .dispatcher
        .set_current_port_state(&mut runner.bus, main_port, None);
    let filter_proc = runner.bus.allocate(8);
    runner.bus.write_word(filter_proc, 0x4E56); // LINK A6, valid filter entry

    runner.dispatcher.dialog_tracking =
        Some(dialog_tracking_for_test(filter_proc, 0x0030_0000));
    runner
        .dispatcher
        .dialog_tracking
        .as_mut()
        .unwrap()
        .dialog_ptr = dialog_ptr;

    assert!(runner.fire_dialog_filter_proc());
    assert_eq!(runner.dispatcher.current_port, dialog_ptr);
    assert_eq!(
        runner
            .active_interrupt_callback
            .as_ref()
            .and_then(|callback| callback.restore_port),
        None
    );

    runner.cpu.write_reg(Register::PC, interrupted_pc);
    runner.cpu.write_reg(Register::A7, interrupted_sp);
    let (_steps, running) = runner.run_steps(1, None);

    assert!(running);
    assert_eq!(runner.dispatcher.current_port, dialog_ptr);
    assert!(runner.active_interrupt_callback.is_none());
}

#[test]
fn dialog_draw_proc_trampoline_passes_item_first_and_tolerates_plain_rts() {
    let mut runner = FixtureRunner::new(8 * 1024 * 1024, FixtureRunnerConfig::default());
    let interrupted_pc = 0x0001_0000u32;
    let interrupted_sp = 0x007F_FFC0u32;
    let dialog_ptr = 0x0020_0000u32;
    let proc_addr = 0x0004_2000u32;
    let item_no = 5i16;

    // Keep foreground execution stable after the callback returns.
    runner.bus.write_word(interrupted_pc, 0x60FE); // BRA.S *-0
    runner.cpu.write_reg(Register::PC, interrupted_pc);
    runner.cpu.write_reg(Register::A7, interrupted_sp);

    // MPW-style proc prologue shape. It returns with plain RTS, leaving
    // callback parameters on the stack; the trampoline must restore A7.
    runner.bus.write_word(proc_addr, 0x4E56); // LINK A6,#0
    runner.bus.write_word(proc_addr + 2, 0x0000);
    runner.bus.write_word(proc_addr + 4, 0x4E5E); // UNLK A6
    runner.bus.write_word(proc_addr + 6, 0x4E75); // RTS

    runner.dispatcher.dialog_tracking = Some(DialogTrackingState {
        dialog_ptr,
        bounds: (0, 0, 64, 64),
        items: Vec::new(),
        item_hit_ptr: 0,
        flash_remaining: 0,
        draw_proc_queue: VecDeque::from([(proc_addr, item_no)]),
        draw_procs_done: false,
        rendered_pixels_final: false,
        filter_proc: 0,
        last_filter_event: None,
    });

    assert!(runner.fire_dialog_draw_procs());
    let tramp = runner.dialog_draw_trampoline;
    assert_eq!(runner.bus.read_word(tramp), 0x48E7);
    assert_eq!(runner.bus.read_word(tramp + 4), 0x2F3C);
    assert_eq!(runner.bus.read_long(tramp + 6), dialog_ptr);
    assert_eq!(runner.bus.read_word(tramp + 10), 0x3F3C);
    assert_eq!(runner.bus.read_word(tramp + 12), item_no as u16);
    assert_eq!(runner.bus.read_word(tramp + 14), 0x4EB9);
    assert_eq!(runner.bus.read_long(tramp + 16), proc_addr);
    assert_eq!(runner.bus.read_word(tramp + 20), 0x4FF9);
    assert_eq!(runner.bus.read_long(tramp + 22), interrupted_sp - 36);

    let (_steps, running) = runner.run_steps(16, None);

    assert!(running);
    assert!(
        runner.active_interrupt_callback.is_none(),
        "dialog callback should have resumed foreground code"
    );
    assert_eq!(runner.cpu.read_reg(Register::PC), interrupted_pc);
    assert_eq!(runner.cpu.read_reg(Register::A7), interrupted_sp);
}

#[test]
fn modeless_dialog_draw_proc_accepts_a5_relative_proc_ptr() {
    let mut runner = FixtureRunner::new(8 * 1024 * 1024, FixtureRunnerConfig::default());
    let interrupted_pc = 0x0001_0000u32;
    let interrupted_sp = 0x007F_FFC0u32;
    let a5 = 0x0020_0000u32;
    let proc_offset = 0x0000_4200u32;
    let proc_addr = a5 + proc_offset;
    let dialog_ptr = runner.bus.allocate(170);

    runner.bus.write_word(interrupted_pc, 0x60FE);
    runner.cpu.write_reg(Register::PC, interrupted_pc);
    runner.cpu.write_reg(Register::A7, interrupted_sp);
    runner.cpu.write_reg(Register::A5, a5);
    open_window(&mut runner, dialog_ptr, (120, 180, 240, 420));

    runner.bus.write_word(proc_addr, 0x4E56); // LINK A6,#0
    runner.bus.write_word(proc_addr + 2, 0x0000);
    runner.bus.write_word(proc_addr + 4, 0x4E5E); // UNLK A6
    runner.bus.write_word(proc_addr + 6, 0x4E75); // RTS
    runner
        .dispatcher
        .modeless_dialog_draw_proc_queue
        .push_back((dialog_ptr, proc_offset, 5));

    assert!(runner.fire_modeless_dialog_draw_proc());

    let tramp = runner.dialog_draw_trampoline;
    assert_eq!(runner.bus.read_long(tramp + 16), proc_addr);
    assert_eq!(
        runner.dispatcher.active_modeless_dialog_draw_proc,
        Some(dialog_ptr)
    );
}

#[test]
fn modeless_dialog_draw_procs_drain_after_plain_trap() {
    let mut runner = FixtureRunner::new(8 * 1024 * 1024, FixtureRunnerConfig::default());
    let base = 0x0001_0000u32;
    let interrupted_sp = 0x007F_FFC0u32;
    let dialog_ptr = runner.bus.allocate(170);
    let proc_1 = 0x0004_2000u32;
    let proc_2 = 0x0004_2100u32;

    runner.bus.write_word(base, 0xA861); // _Random
    runner.bus.write_word(base + 2, 0x60FE); // BRA.S *-0
    runner.cpu.write_reg(Register::PC, base);
    runner.cpu.write_reg(Register::A7, interrupted_sp);
    open_window(&mut runner, dialog_ptr, (120, 180, 240, 420));

    for proc_addr in [proc_1, proc_2] {
        runner.bus.write_word(proc_addr, 0x4E56); // LINK A6,#0
        runner.bus.write_word(proc_addr + 2, 0x0000);
        runner.bus.write_word(proc_addr + 4, 0x4E5E); // UNLK A6
        runner.bus.write_word(proc_addr + 6, 0x4E75); // RTS
    }
    runner.dispatcher.modeless_dialog_draw_proc_queue =
        VecDeque::from([(dialog_ptr, proc_1, 3), (dialog_ptr, proc_2, 5)]);

    let (_steps, running) = runner.run_steps(128, None);

    assert!(running);
    assert!(runner.dispatcher.modeless_dialog_draw_proc_queue.is_empty());
    assert_eq!(runner.dispatcher.active_modeless_dialog_draw_proc, None);
    assert!(
        runner.active_interrupt_callback.is_none(),
        "modeless draw callbacks should have returned to foreground code"
    );
}

#[test]
fn dialog_draw_proc_does_not_restore_over_guest_selected_dialog_port() {
    let mut runner = FixtureRunner::new(8 * 1024 * 1024, FixtureRunnerConfig::default());
    let interrupted_pc = 0x0001_0000u32;
    let interrupted_sp = 0x007F_FFC0u32;
    let main_port = runner.bus.allocate(170);
    let dialog_ptr = runner.bus.allocate(170);
    let proc_addr = 0x0004_2000u32;
    let item_no = 5i16;

    runner.bus.write_word(interrupted_pc, 0x60FE); // BRA.S *-0
    runner.cpu.write_reg(Register::PC, interrupted_pc);
    runner.cpu.write_reg(Register::A7, interrupted_sp);

    open_window(&mut runner, main_port, (0, 0, 600, 800));
    open_window(&mut runner, dialog_ptr, (120, 180, 240, 420));
    runner
        .dispatcher
        .set_current_port_state(&mut runner.bus, main_port, None);

    runner.bus.write_word(proc_addr, 0x4E56); // LINK A6,#0
    runner.bus.write_word(proc_addr + 2, 0x0000);
    runner.bus.write_word(proc_addr + 4, 0x2F3C); // MOVE.L #dialog,-(SP)
    runner.bus.write_long(proc_addr + 6, dialog_ptr);
    runner.bus.write_word(proc_addr + 10, 0xA873); // _SetPort
    runner.bus.write_word(proc_addr + 12, 0x4E5E); // UNLK A6
    runner.bus.write_word(proc_addr + 14, 0x4E75); // RTS

    runner.dispatcher.dialog_tracking = Some(DialogTrackingState {
        dialog_ptr,
        bounds: (120, 180, 240, 420),
        items: Vec::new(),
        item_hit_ptr: 0,
        flash_remaining: 0,
        draw_proc_queue: VecDeque::from([(proc_addr, item_no)]),
        draw_procs_done: false,
        rendered_pixels_final: false,
        filter_proc: 0,
        last_filter_event: None,
    });

    assert!(runner.fire_dialog_draw_procs());
    assert_eq!(
        runner
            .active_interrupt_callback
            .as_ref()
            .and_then(|callback| callback.restore_port),
        None
    );

    let (_steps, running) = runner.run_steps(32, None);

    assert!(running);
    assert!(runner.active_interrupt_callback.is_none());
    assert_eq!(
        runner.dispatcher.current_port, dialog_ptr,
        "Dialog Manager must leave the dialog port current after the draw proc"
    );
}

#[test]
fn dialog_draw_proc_pascal_stack_places_item_number_before_window_pointer() {
    let mut runner = FixtureRunner::new(8 * 1024 * 1024, FixtureRunnerConfig::default());
    let interrupted_pc = 0x0001_0000u32;
    let interrupted_sp = 0x007F_FFC0u32;
    let dialog_ptr = 0x0029_4240u32;
    let proc_addr = 0x0004_2000u32;
    let item_no = 2i16;
    let seen_item_addr = 0x0004_3000u32;
    let seen_dialog_addr = 0x0004_3004u32;

    runner.bus.write_word(interrupted_pc, 0x60FE); // BRA.S *-0
    runner.cpu.write_reg(Register::PC, interrupted_pc);
    runner.cpu.write_reg(Register::A7, interrupted_sp);

    // PROCEDURE MyItem(theWindow: WindowPtr; itemNo: INTEGER);
    // Inside Macintosh Volume I, I-405. MPW Pascal prologues observe
    // itemNo at 8(A6) and theWindow at 10(A6).
    runner.bus.write_word(proc_addr, 0x4E56); // LINK A6,#0
    runner.bus.write_word(proc_addr + 2, 0x0000);
    runner.bus.write_word(proc_addr + 4, 0x302E); // MOVE.W 8(A6),D0
    runner.bus.write_word(proc_addr + 6, 0x0008);
    runner.bus.write_word(proc_addr + 8, 0x33C0); // MOVE.W D0,(abs).L
    runner.bus.write_long(proc_addr + 10, seen_item_addr);
    runner.bus.write_word(proc_addr + 14, 0x222E); // MOVE.L 10(A6),D1
    runner.bus.write_word(proc_addr + 16, 0x000A);
    runner.bus.write_word(proc_addr + 18, 0x23C1); // MOVE.L D1,(abs).L
    runner.bus.write_long(proc_addr + 20, seen_dialog_addr);
    runner.bus.write_word(proc_addr + 24, 0x4E5E); // UNLK A6
    runner.bus.write_word(proc_addr + 26, 0x4E75); // RTS

    runner.dispatcher.dialog_tracking = Some(DialogTrackingState {
        dialog_ptr,
        bounds: (120, 180, 240, 420),
        items: Vec::new(),
        item_hit_ptr: 0,
        flash_remaining: 0,
        draw_proc_queue: VecDeque::from([(proc_addr, item_no)]),
        draw_procs_done: false,
        rendered_pixels_final: false,
        filter_proc: 0,
        last_filter_event: None,
    });

    assert!(runner.fire_dialog_draw_procs());
    let (_steps, running) = runner.run_steps(48, None);

    assert!(running);
    assert!(runner.active_interrupt_callback.is_none());
    assert_eq!(runner.bus.read_word(seen_item_addr) as i16, item_no);
    assert_eq!(runner.bus.read_long(seen_dialog_addr), dialog_ptr);
}
