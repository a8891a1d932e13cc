pub mod codec;
pub mod message;
pub mod native;
