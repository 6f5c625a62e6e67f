pub mod column;
pub mod component;
pub mod query;
pub mod signature;
pub mod table;
