//! A small verified exchange: matching, settlement, feeds and their text protocols.
pub mod answer_laws;
pub mod book;
pub mod book_laws;
pub mod chart;
pub mod checksum;
pub mod clock;
pub mod command_laws;
pub mod events;
pub mod feed_laws;
pub mod feed_log;
pub mod fees;
pub mod instrument;
pub mod ledger;
pub mod level_laws;
pub mod line_laws;
pub mod market_data;
pub mod model;
pub mod money_laws;
pub mod order_entry;
pub mod order_laws;
pub mod protocol;
pub mod rate_limit;
pub mod rebuild;
pub mod request_laws;
pub mod research;
pub mod risk;
pub mod runtime;
pub mod seeding;
pub mod session_laws;
pub mod sessions;
pub mod settlement;
pub mod shock_laws;
pub mod side;
pub mod sim_config;
pub mod sim_feed;
pub mod sim_global;
pub mod sim_laws;
pub mod sim_run;
pub mod sim_shock;
pub mod sim_single;
pub mod sim_world;
pub mod text;
pub mod types;
pub mod validity;
pub mod venue;
pub mod venue_laws;
pub mod venue_model;
pub mod world_laws;
