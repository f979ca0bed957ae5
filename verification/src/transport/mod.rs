pub mod lcd;
pub mod usb;
