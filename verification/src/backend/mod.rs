pub mod app_manager;
pub mod schema;
pub mod stats_access;
pub mod text;
pub mod types;
pub mod user_unlock_times;
