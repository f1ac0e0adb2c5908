//! Core of a small hardware simulator: an address-space dispatcher ("bus")
//! that maps address ranges to RAM regions and peripheral devices, an
//! ordered output relay for device-transmitted bytes, a command protocol
//! with a sequential execution-loop state machine and its controller handle,
//! and the window state of the surrounding front-end.

pub mod bus;
pub mod console;
pub mod decode_instr;
pub mod engine;
pub mod gui_app;
pub mod instr_decoder;
pub mod load_demo;
pub mod machine;
pub mod relay;
pub mod sim;
