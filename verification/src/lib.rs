//! A two-tier payment-ingestion front-end: HTTP classification, frame
//! codec, connection state machine, reactor bookkeeping and worker dispatch.
pub mod connection;
pub mod load_balance;
pub mod message;
pub mod worker;
