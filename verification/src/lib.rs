pub mod cache;
pub mod errors;
pub mod extract;
pub mod handlers;
pub mod load;
pub mod retry_queue;
pub mod structures;
pub mod text;
pub mod transform;
pub mod tree;
pub mod worker;
