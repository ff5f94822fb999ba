pub mod account_store;
pub mod answering;
pub mod app_server;
pub mod asking;
pub mod auth;
pub mod barrier;
pub mod boost;
pub mod boost_policy;
pub mod boost_state;
pub mod boost_tasks;
pub mod boosting;
pub mod choosing;
pub mod cli;
pub mod commands;
pub mod committing;
pub mod config;
pub mod control;
pub mod conversing;
pub mod course;
pub mod effects;
pub mod elements;
pub mod ending;
pub mod error;
pub mod finishing;
pub mod fs;
pub mod giving;
pub mod handshake;
pub mod holding;
pub mod job;
pub mod json;
pub mod linking;
pub mod locating;
pub mod paths;
pub mod percent;
pub mod process;
pub mod proxy;
pub mod reading;
pub mod recovery;
pub mod refreshing;
pub mod relinking;
pub mod resets;
pub mod safety;
pub mod serving;
pub mod session;
pub mod settled;
pub mod settling;
pub mod sha1;
pub mod showing;
pub mod socket_helper;
pub mod staging;
pub mod status;
pub mod steady;
pub mod switching;
pub mod taking;
pub mod telling;
pub mod terminal;
pub mod text;
pub mod transaction;
pub mod undoing;
pub mod usage;
pub mod wire;
pub mod writers;
