//! The decisions of an STM32 USART/LPUART driver: its configuration, the
//! register values that initialisation writes, which register each access
//! uses, how the status flags are read, and the blocking transfers as state
//! machines that the caller drives with the register reads it performs.
pub mod config;
pub mod sealed;
pub mod instance;
pub mod setup;
pub mod registers;
pub mod status;
pub mod blocking;
