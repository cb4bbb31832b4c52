//! The virtual `pgtest` database: the SQL commands it understands and the
//! answers it gives.
pub mod laws;
pub mod protocol;
pub mod response;
pub mod statement;
