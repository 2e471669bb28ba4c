pub mod date;
pub mod dispatch;
pub mod store;
