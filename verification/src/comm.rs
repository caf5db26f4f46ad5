pub mod interop;
pub mod response;
