# systemless

A library that runs applications of the classic Macintosh: it loads their code
and resources into guest memory, interprets their 68000 instructions with the
`m68k` crate, serves the traps that they call, and drives the clock, timers,
sound and input of the machine that they believe to run on.

`src/` is verified with Verus. `FixtureRunner` is the machine; its view is
`RunnerView`, and the contract of each method says which view it leaves. What a
single instruction does is not stated: it is left to the `m68k` crate, behind a
few trusted wrappers in `cpu.rs`. What it may come to is
a name over the registers and memory, which but for the floating-point unit leaves one
outcome. Words that the crate does not return from end in an illegal instruction here.
A slice of execution is stated as a path of
turns (`run_loop.rs`), each of which says what happens before and after the
instructions that the processor runs in it.

- `memory`, `cpu`, `runner`: the machine and its state
- `loader`, `resource`, `resource_manager`, `startup`, `launch`: applications
- `slice`, `run_loop`, `trap_turn`, `drive`, `watch`: execution
- `trap`, `traps`, `events`, `wait`, `dialog`, `dialogs`, `stubs`: the Toolbox as far as
  execution depends on it
- `ticks`, `timers`, `interrupts`, `completions`, `idle`, `spin`: time
- `sound`, `sound_queue`, `audio`, `screen`, `host`, `menus`, `shell`, `theme`: output and input
- `vfs`, `path_map`, `file_manager`, `files`, `listing`, `search`, `standard_file`,
  `text`: files
- `policy`, `globals`: the rules and addresses that the others share
- `diagnostics`, `trace_range`, `disassembly`: what a person looks at
- `laws`, `pacing`, `placement`, `repeat`, `keeps`: what holds of several operations together

What the menu bar, the window frames and a modal dialog look like, the host tells the
library (`set_chrome`); when a frame ends, the library draws them again over what the
application drew there. It mixes sound, from buffers and from the commands that the guest
puts into its channels' own queues, and hands the samples over (`take_host_audio`). A
trap that the library does not serve gets the answer that the host has left for it
(`answer_trap`), or is passed over.

`app/` is the host side in ordinary Rust: the wall clock, settings from the
environment, audio output, drawing, the folder for the guest's files, and messages.
