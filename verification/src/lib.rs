pub mod app;
pub mod classify;
pub mod monitor;
pub mod order;
pub mod process_data;
pub mod text;
