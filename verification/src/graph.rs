pub mod value;
pub mod refs;
pub mod quad;
pub mod iterator;
pub mod hasa;
pub mod linksto;
pub mod memstore;
pub mod graphmock;
