pub mod store;
pub mod ledger;
pub mod theorems;
pub mod gateway;
pub mod receipt;
pub mod reply;
pub mod messages;
