pub mod connections;
pub mod store;
pub mod session;
pub mod traffic;
