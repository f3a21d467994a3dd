pub mod btree;
pub mod catalog;
pub mod error;
pub mod parser;
pub mod table;
pub mod value;
