pub mod chunk_id;
pub mod chunked;
pub mod digest;
pub mod dispatch;
pub mod execution;
pub mod hybrid;
pub mod policy;
pub mod wire;
