//! Client side of the LAN protocol that Tuya smart-home devices speak, in its
//! versions 3.1 and 3.3: the frame codec, the payload cipher and the
//! decisions of a device session.
pub mod cipher;
pub mod crc;
pub mod error;
pub mod frame;
pub mod laws;
pub mod mesparse;
pub mod payload;
pub mod transports;
pub mod tuyadevice;

pub use payload::Payload;
pub use payload::PayloadStruct;
pub use payload::Scramble;
