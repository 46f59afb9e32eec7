//! Fixed parameters of the PDU hardware and of its flash layout.

use vstd::prelude::*;

verus! {

/// Size of the RP2040's external flash: 2 MiB.
pub const FLASH_SIZE: usize = 2097152;

/// Start of the partition that holds the running application.
pub const ACTIVE_START: u32 = 0x10007000;
/// Size of the active partition: 256 KiB.
pub const ACTIVE_SIZE: u32 = 262144;
/// Start of the partition that receives a firmware update.
pub const DFU_START: u32 = 0x10047000;
/// Size of the update partition: 256 KiB.
pub const DFU_SIZE: u32 = 262144;
/// Start of the key-value store region.
pub const CONFIG_START: u32 = 0x10087000;
/// Size of the key-value store region: 256 KiB.
pub const CONFIG_SIZE: u32 = 262144;

/// Page size of the key-value store.
pub const EKV_PAGE_SIZE: usize = 4096;
/// Number of pages of the key-value store (256 KiB / 4 KiB).
pub const EKV_PAGE_COUNT: usize = 64;

/// Number of relay-switched outlets.
pub const PORT_COUNT: usize = 8;
/// Largest number of user accounts.
pub const MAX_USERS: usize = 8;

/// GPIO pin of relay 0.
pub const PIN_RELAY_0: u8 = 0;
/// GPIO pin of relay 1.
pub const PIN_RELAY_1: u8 = 1;
/// GPIO pin of relay 2.
pub const PIN_RELAY_2: u8 = 2;
/// GPIO pin of relay 3.
pub const PIN_RELAY_3: u8 = 3;
/// GPIO pin of relay 4.
pub const PIN_RELAY_4: u8 = 4;
/// GPIO pin of relay 5.
pub const PIN_RELAY_5: u8 = 5;
/// GPIO pin of relay 6.
pub const PIN_RELAY_6: u8 = 6;
/// GPIO pin of relay 7.
pub const PIN_RELAY_7: u8 = 7;
/// GPIO pin of the status LED.
pub const PIN_LED: u8 = 25;
/// GPIO pin of the factory-reset button (active low).
pub const PIN_FACTORY_RESET: u8 = 26;

/// GPIO pin of the HLW8012 CF output (active power pulses).
pub const PIN_HLW_CF: u8 = 8;
/// GPIO pin of the HLW8012 CF1 output (current or voltage pulses).
pub const PIN_HLW_CF1: u8 = 9;
/// GPIO pin driving the HLW8012 SEL input.
pub const PIN_HLW_SEL: u8 = 10;
/// Milliseconds to wait after toggling SEL before reading CF1.
pub const HLW8012_SEL_SETTLE_MS: u64 = 2000;
/// Milliseconds after which a missing pulse reads as zero.
pub const HLW8012_PULSE_TIMEOUT_MS: u64 = 10000;

/// W5500 SPI MISO pin.
pub const PIN_MISO: u8 = 16;
/// W5500 chip-select pin.
pub const PIN_CS: u8 = 17;
/// W5500 SPI clock pin.
pub const PIN_CLK: u8 = 18;
/// W5500 SPI MOSI pin.
pub const PIN_MOSI: u8 = 19;
/// W5500 reset pin.
pub const PIN_RST: u8 = 20;
/// W5500 interrupt pin.
pub const PIN_INT: u8 = 21;
/// W5500 SPI clock frequency.
pub const SPI_FREQ_HZ: u32 = 50000000;

} // verus!
