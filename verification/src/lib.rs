//! Telemetry formats, XBee API frame parsing and the decision logic of an
//! STM32 USART driver, with their contracts proved by Verus.
pub mod telemetry;
pub mod xbee;
pub mod usart;
