//! Verified core of a Polymarket up/down trading bot.

pub mod activity;
pub mod attribution;
pub mod boot;
pub mod calendar;
pub mod cli;
pub mod compare;
pub mod control;
pub mod control_client;
pub mod dashboard;
pub mod datekey;
pub mod decimal;
pub mod depth;
pub mod digest;
pub mod discover;
pub mod driver_matrix;
pub mod engine;
pub mod fair;
pub mod fair_state;
pub mod feed;
pub mod feed_source;
pub mod floatkey;
pub mod health;
pub mod json;
pub mod labels;
pub mod ladder;
pub mod latency;
pub mod live;
pub mod markout;
pub mod model_runtime;
pub mod model_taker;
pub mod paper_sim;
pub mod params;
pub mod quoting;
pub mod replay;
pub mod rollup;
pub mod screen;
pub mod session;
pub mod sorting;
pub mod startup;
pub mod table;
pub mod text;
pub mod types;
