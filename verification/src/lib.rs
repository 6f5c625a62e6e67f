pub mod storage;
pub mod utils;
pub mod world;
