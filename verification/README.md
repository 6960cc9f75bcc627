# xbee_uart

Verified pieces of a telemetry link: the telemetry interchange structs, the
XBee API frame parser, and the decision logic of an STM32 USART driver.

- `src/xbee`: taking one API frame from a byte stream (`frame::frame_data`),
  its checksum, and parsing a 64-bit transmit request
  (`api::parse_transmit_request_64`), with round-trip and streaming laws, and
  skipping to the next start delimiter after a rejected frame
  (`frame::skip_to_next_frame`).
- `src/usart`: configuration, the values that initialisation writes, register
  selection per peripheral generation, status decoding, and the blocking
  read and write as state machines with laws over whole runs of events,
  including agreement of the blocking read with repeated non-blocking reads.
- `src/telemetry.rs`: the telemetry structs.
- `app/`: the driver that performs the register accesses and drives the
  state machines, the embedded-hal 0.2 serial traits, and serde copies of
  the telemetry structs.
