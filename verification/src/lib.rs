use vstd::prelude::*;

pub mod audio;
pub mod callback_laws;
pub mod clock_laws;
pub mod completions;
pub mod cpu;
pub mod diagnostics;
pub mod dialog;
pub mod dialogs;
pub mod disassembly;
pub mod drive;
pub mod events;
pub mod file_laws;
pub mod file_manager;
pub mod files;
pub mod flow_laws;
pub mod globals;
pub mod host;
pub mod idle;
pub mod input_laws;
pub mod interrupt_laws;
pub mod interrupts;
pub mod keeps;
pub mod launch;
pub mod laws;
pub mod listing;
pub mod loader;
pub mod loading_laws;
pub mod memory;
pub mod memory_laws;
pub mod menus;
pub mod pacing;
pub mod path_map;
pub mod placement;
pub mod policy;
pub mod repeat;
pub mod resource;
pub mod resource_manager;
pub mod run_loop;
pub mod runner;
pub mod screen;
pub mod search;
pub mod setting_laws;
pub mod shell;
pub mod slice;
pub mod slice_laws;
pub mod sound;
pub mod sound_laws;
pub mod sound_queue;
pub mod spin;
pub mod standard_file;
pub mod start_laws;
pub mod startup;
pub mod stubs;
pub mod text;
pub mod theme;
pub mod ticks;
pub mod timers;
pub mod toolbox_laws;
pub mod trace_range;
pub mod trap;
pub mod trap_turn;
pub mod traps;
pub mod vfs;
pub mod wait;
pub mod watch;

verus! {

} // verus!
