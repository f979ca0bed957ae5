pub mod packet;
pub mod tinyuz;
pub mod slv3h;
pub mod fan;
pub mod led;
pub mod lcd;
