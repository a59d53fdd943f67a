pub mod access;
pub mod collections;
pub mod distribution;
pub mod protocol;
pub mod storage;
pub mod text;
pub mod util;
