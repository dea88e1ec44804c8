//! Control core of a physical kill-switch gadget.
//!
//! The library is the event-orchestration layer of the device: debounced
//! button input, a single-slot event-broadcast mailbox, an abortable LED
//! choreography sequencer, a HID report emitter, a mouse wiggler, and the
//! trigger state machine that ties them together. Every component is a
//! state machine over plain values; the hardware collaborators (GPIO edge
//! waits, timers, the LED ring's DMA transfer, the USB HID transport) are
//! driven by a host loop outside the library, which feeds sampled levels,
//! elapsed ticks and transport outcomes into these state machines.

pub mod button_handler;
pub mod event_bus;
pub mod hid;
pub mod keyboard_handler;
pub mod led_handler;
pub mod mouse_handler;
pub mod rgb_led;
pub mod trigger;
