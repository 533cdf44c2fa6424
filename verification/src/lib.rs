pub mod codec;
pub mod instruction;
pub mod request;
