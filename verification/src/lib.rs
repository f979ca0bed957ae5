pub mod device;
pub mod devices;
pub mod config;
pub mod daemon;
pub mod display;
pub mod error;
pub mod ipc;
pub mod mjpeg;
pub mod protocol;
pub mod report;
pub mod status;
pub mod text;
pub mod transport;

pub use error::Error;

pub use device::{DeviceInfo, DeviceKind};
