//! Howl: a live data-sharing hub. Providers push JSON data, the hub folds it
//! into a state of charts and forwards the differences to subscribers.
pub mod text;
pub mod json;
pub mod json_diff;
pub mod slug;
pub mod chart;
pub mod command;
pub mod data_store;
pub mod base_client;
pub mod assoc;
pub mod server;
pub mod number;
pub mod data_utils;
pub mod network;
pub mod categorical;
