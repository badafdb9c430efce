use vstd::prelude::*;

verus! {

/// Address one past the last byte of RAM.
pub const MEM_TOP: u32 = 0x0108;
/// End of the memory that belongs to the application.
pub const BUF_PTR: u32 = 0x010C;
/// Current end of the application zone.
pub const HEAP_END: u32 = 0x0114;
/// The current heap zone.
pub const THE_ZONE: u32 = 0x0118;
/// The limit up to which the application zone may grow.
pub const APPL_LIMIT: u32 = 0x0130;
/// Seed of the random number generator.
pub const RND_SEED: u32 = 0x0156;
/// Ticks since system startup.
pub const TICKS: u32 = 0x016A;
/// State of the mouse button.
pub const MB_STATE: u32 = 0x0172;
/// The sixteen bytes that mirror the keyboard state.
pub const KEY_MAP_LM: u32 = 0x0174;
/// Seconds since midnight, January 1, 1904.
pub const TIME: u32 = 0x020C;
/// Negative of the volume reference number used by Standard File.
pub const SF_SAVE_DISK: u32 = 0x0214;
/// Global volume of the Sound Driver.
pub const SD_VOLUME: u32 = 0x0260;
/// The free-form synthesizer's buffer.
pub const SOUND_BASE: u32 = 0x0266;
/// Amplitude of the square-wave synthesizer.
pub const SOUND_LEVEL: u32 = 0x027F;
/// The ROM version word.
pub const ROM85: u32 = 0x028E;
/// The system heap zone.
pub const SYS_ZONE: u32 = 0x02A6;
/// The application heap zone.
pub const APP_L_ZONE: u32 = 0x02AA;
/// Double-click interval in ticks.
pub const DOUBLE_TIME: u32 = 0x02F0;
/// The file control block buffer.
pub const FCB_S_PTR: u32 = 0x034E;
/// The default volume's control block.
pub const DEF_VCB_PTR: u32 = 0x0352;
/// Header of the queue of mounted volumes.
pub const VCB_Q_HDR: u32 = 0x0356;
/// The directory that Standard File last showed.
pub const CUR_DIR_STORE: u32 = 0x0398;
/// Length of one file control block.
pub const FS_FCB_LEN: u32 = 0x03F6;
/// Operating System trap table entry of `SwapMMUMode`.
pub const SWAP_MMU_MODE_TRAP: u32 = 0x0574;
/// Vertical and horizontal mouse coordinates at interrupt level.
pub const M_TEMP: u32 = 0x0828;
/// Raw mouse coordinates.
pub const RAW_MOUSE: u32 = 0x082C;
/// Processed mouse coordinates.
pub const MOUSE: u32 = 0x0830;
/// The procedure that `MenuSelect` calls while the mouse button is down.
pub const MENU_HOOK: u32 = 0x0A30;
/// Jump vector of `HideCursor`.
pub const J_HIDE_CURSOR: u32 = 0x0800;
/// Jump vector of `ShowCursor`.
pub const J_SHOW_CURSOR: u32 = 0x0804;
/// Jump vector of `ShieldCursor`.
pub const J_SHIELD_CURSOR: u32 = 0x0808;
/// Jump vector of `FMSwapFont`.
pub const J_SWAP_FONT: u32 = 0x08E0;
/// Jump vector of the cursor task.
pub const J_CRSR_TASK: u32 = 0x08EE;
/// Reference number of the application's resource file.
pub const CUR_APREF_NUM: u32 = 0x0900;
/// Handle to the main graphics device.
pub const MAIN_DEVICE: u32 = 0x08A4;
/// Handle to the first graphics device.
pub const DEVICE_LIST: u32 = 0x08A8;
/// Handle to the current graphics device.
pub const THE_GDEVICE: u32 = 0x0CC8;
/// The application's A5 register.
pub const CURRENT_A5: u32 = 0x0904;
/// Where the jump table stands, from A5.
pub const CUR_JT_OFFSET: u32 = 0x0934;
/// Base of the application's stack.
pub const CUR_STACK_BASE: u32 = 0x0908;
/// Name of the running application.
pub const CUR_APNAME: u32 = 0x0910;
/// Handle to the information that the Finder passed at launch.
pub const APP_PARM_HANDLE: u32 = 0x0AEC;
/// Height of the menu bar.
pub const MBAR_HEIGHT: u32 = 0x0BAA;
/// Addressing mode of the machine.
pub const MMU32_BIT: u32 = 0x0CB2;

} // verus!
