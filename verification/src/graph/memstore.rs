pub mod quadstore;
pub mod iterator;
pub mod all_iterator;
pub mod store;
