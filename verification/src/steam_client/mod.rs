pub mod client_user_stats_map_wrapper;
