use systemless::globals;
use systemless::runner::{FixtureRunner, FixtureRunnerConfig};
use systemless::theme::{ThemeMetricsMode, UiThemeId};

#[test]
fn fixture_runner_defaults_to_classic_system7_theme() {
    let runner = FixtureRunner::new(8 * 1024 * 1024, FixtureRunnerConfig::default());

    assert_eq!(runner.ui_theme_id(), UiThemeId::ClassicSystem7);
    assert_eq!(runner.dispatcher().ui_theme_id(), UiThemeId::ClassicSystem7);
    assert_eq!(runner.ui_theme().id(), UiThemeId::ClassicSystem7);
    assert_eq!(
        runner.theme_metrics_mode(),
        ThemeMetricsMode::ClassicGuestMetrics
    );
    assert!(runner.uses_classic_guest_metrics());
}

#[test]
fn fixture_runner_accepts_explicit_systemless_theme_without_themed_metrics() {
    let runner = FixtureRunner::new(
        8 * 1024 * 1024,
        FixtureRunnerConfig {
            ui_theme: UiThemeId::SystemlessDefault,
            theme_metrics_mode: ThemeMetricsMode::ClassicGuestMetrics,
            ..FixtureRunnerConfig::default()
        },
    );
    let classic = UiThemeId::ClassicSystem7.provider();

    assert_eq!(runner.ui_theme_id(), UiThemeId::SystemlessDefault);
    assert_eq!(
        runner.dispatcher().ui_theme_id(),
        UiThemeId::SystemlessDefault
    );
    assert_eq!(runner.ui_theme().id(), UiThemeId::SystemlessDefault);
    assert!(runner.uses_classic_guest_metrics());
    assert_eq!(runner.ui_theme().menu_metrics(), classic.menu_metrics());
    assert_eq!(
        runner.ui_theme().control_metrics(),
        classic.control_metrics()
    );
    assert_ne!(runner.ui_theme().palette(), classic.palette());
}

#[test]
fn arrows_as_numpad_remaps_key_and_char_together() {
    let mut runner = FixtureRunner::new(8 * 1024 * 1024, FixtureRunnerConfig::default());
    runner.set_arrows_as_numpad(true);

    assert_eq!(runner.remap_key(0x7B, 28), (0x56, b'4'));
    assert_eq!(runner.remap_key(0x7C, 29), (0x58, b'6'));
    assert_eq!(runner.remap_key(0x7D, 31), (0x57, b'5'));
    assert_eq!(runner.remap_key(0x7E, 30), (0x5B, b'8'));
    assert_eq!(runner.remap_key(0x2E, b'm'), (0x2E, b'm'));
}

#[test]
fn arrows_not_remapped_by_default() {
    let runner = FixtureRunner::new(8 * 1024 * 1024, FixtureRunnerConfig::default());

    assert!(!runner.arrows_as_numpad());
    assert_eq!(runner.remap_key(0x7B, 28), (0x7B, 28));
    assert_eq!(runner.remap_key(0x7C, 29), (0x7C, 29));
    assert_eq!(runner.remap_key(0x2E, b'm'), (0x2E, b'm'));
}

#[test]
fn key_events_sync_low_memory_keymap() {
    let mut runner = FixtureRunner::new(8 * 1024 * 1024, FixtureRunnerConfig::default());

    assert_eq!(runner.bus.read_byte(globals::KEY_MAP_LM + 4), 0);
    assert_eq!(runner.bus.read_byte(globals::KEY_MAP_LM + 15), 0);

    runner.push_key_down(0x26, b'j');
    runner.push_key_down(0x7E, 30);

    assert_eq!(
        runner.bus.read_byte(globals::KEY_MAP_LM + 4),
        0x40,
        "J key should be visible to byte/bit KeyMap readers"
    );
    assert_eq!(
        runner.bus.read_byte(globals::KEY_MAP_LM + 5),
        0,
        "J key should not alias M at KeyMapLM byte 5 bit 6"
    );
    assert_eq!(
        runner.bus.read_byte(globals::KEY_MAP_LM + 15),
        0x40,
        "up arrow should be visible to byte/bit KeyMap readers"
    );
    assert_eq!(
        runner.bus.read_byte(globals::KEY_MAP_LM + 14),
        0,
        "up arrow should not be mirrored into the unused raw byte"
    );

    runner.push_key_up(0x26, b'j');

    assert_eq!(
        runner.bus.read_byte(globals::KEY_MAP_LM + 4),
        0,
        "J key release should clear the low-memory mirror"
    );
    assert_eq!(
        runner.bus.read_byte(globals::KEY_MAP_LM + 5),
        0,
        "J key release should leave the M-key byte clear"
    );
    assert_eq!(
        runner.bus.read_byte(globals::KEY_MAP_LM + 15),
        0x40,
        "unrelated byte/bit down keys should remain mirrored"
    );
    assert_eq!(
        runner.bus.read_byte(globals::KEY_MAP_LM + 14),
        0,
        "unused raw byte should stay clear"
    );
}

#[test]
fn set_mouse_position_updates_dispatcher_and_low_mem_globals() {
    let mut runner = FixtureRunner::new(8 * 1024 * 1024, FixtureRunnerConfig::default());

    runner.set_mouse_position(123, 456);

    assert_eq!(runner.dispatcher.mouse_pos, (123, 456));
    for off in [0x0828u32, 0x082C, 0x0830] {
        assert_eq!(runner.bus.read_word(off), 123u16, "v at ${:04X}", off);
        assert_eq!(runner.bus.read_word(off + 2), 456u16, "h at ${:04X}", off);
    }
}

#[test]
fn set_mouse_position_leaves_mb_state_untouched() {
    let mut runner = FixtureRunner::new(8 * 1024 * 1024, FixtureRunnerConfig::default());

    runner.bus.write_byte(0x0172, 0x80);
    runner.set_mouse_position(50, 60);
    assert_eq!(runner.bus.read_byte(0x0172), 0x80);

    runner.bus.write_byte(0x0172, 0x00);
    runner.set_mouse_position(70, 80);
    assert_eq!(runner.bus.read_byte(0x0172), 0x00);
}

#[test]
fn push_mouse_down_writes_mb_state_pressed_and_position() {
    let mut runner = FixtureRunner::new(8 * 1024 * 1024, FixtureRunnerConfig::default());
    runner.bus.write_byte(0x0172, 0x80); // start "button up"

    runner.push_mouse_down(123, 456);

    assert_eq!(
        runner.bus.read_byte(0x0172),
        0x00,
        "MBState must be 0x00 (pressed) immediately after push_mouse_down"
    );
    // All three position globals must mirror the click site so
    // games that poll them directly (Mouse $0830 etc.) see the
    // correct location, not the prior cursor-park position.
    assert_eq!(runner.bus.read_word(0x0828), 123u16);
    assert_eq!(runner.bus.read_word(0x082A), 456u16);
    assert_eq!(runner.bus.read_word(0x082C), 123u16);
    assert_eq!(runner.bus.read_word(0x082E), 456u16);
    assert_eq!(runner.bus.read_word(0x0830), 123u16);
    assert_eq!(runner.bus.read_word(0x0832), 456u16);
}

#[test]
fn push_mouse_up_writes_mb_state_released_immediately() {
    let mut runner = FixtureRunner::new(8 * 1024 * 1024, FixtureRunnerConfig::default());

    runner.push_mouse_down(10, 20);
    assert_eq!(runner.bus.read_byte(0x0172), 0x00);

    runner.push_mouse_up(10, 20);
    assert_eq!(
        runner.bus.read_byte(0x0172),
        0x80,
        "MBState must flip back to 0x80 (released) immediately on push_mouse_up — \
         not deferred to the next tick"
    );
}

#[test]
fn mb_state_releases_when_paired_mouseup_queued_but_unconsumed() {
    let mut runner = FixtureRunner::new(8 * 1024 * 1024, FixtureRunnerConfig::default());

    runner.push_mouse_down(10, 20);
    runner.push_mouse_up(10, 20);
    // Both events still queued (no GetNextEvent has run). Drive the
    // tick boundary that owns the MBState resync.
    runner.advance_guest_tick();

    assert_eq!(
        runner.bus.read_byte(0x0172),
        0x80,
        "advance_guest_tick must release MBState to 0x80 once a \
         paired mouseUp is queued behind the mouseDown — even when \
         nothing has drained the event queue"
    );
    assert!(
        runner.dispatcher.event_queue.iter().any(|e| e.what == 1),
        "mouseDown event must remain in the queue (would be drained by GetNextEvent)"
    );
    assert!(
        runner.dispatcher.event_queue.iter().any(|e| e.what == 2),
        "mouseUp event must remain in the queue"
    );
}

#[test]
fn mb_state_stays_pressed_with_solo_pending_mousedown() {
    let mut runner = FixtureRunner::new(8 * 1024 * 1024, FixtureRunnerConfig::default());

    runner.push_mouse_down(10, 20);
    runner.advance_guest_tick();
    assert_eq!(
        runner.bus.read_byte(0x0172),
        0x00,
        "MBState must stay pressed across a tick advance while only \
         a mouseDown is queued (no paired mouseUp yet)"
    );
}

#[test]
fn set_menu_bar_visible_round_trips_through_public_api() {
    let mut runner = FixtureRunner::new(8 * 1024 * 1024, FixtureRunnerConfig::default());
    assert!(
        !runner.menu_bar_visible(),
        "kiosk default: menu_bar_visible() must report false"
    );
    runner.set_menu_bar_visible(true);
    assert!(
        runner.menu_bar_visible(),
        "after set_menu_bar_visible(true), menu_bar_visible() must report true"
    );
    runner.set_menu_bar_visible(false);
    assert!(
        !runner.menu_bar_visible(),
        "after set_menu_bar_visible(false), menu_bar_visible() must report false"
    );
    assert!(
        runner.dispatcher().screen.menu_bar_hidden,
        "set_menu_bar_visible(false) must clear the kiosk-bypass bit"
    );
}
