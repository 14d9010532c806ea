//! The verified core of a cloud controller: it schedules game servers onto
//! nodes, keeps groups at their configured size, tracks connected users and
//! their transfers, authenticates servers and users, and routes events and
//! channel messages.

mod facts;
pub mod health;
pub mod ids;
pub mod server;
pub mod group;
pub mod text;
pub mod user;
pub mod transfer;
pub mod uuids;
pub mod auth;
pub mod event;
pub mod channel;
pub mod storage;
pub mod controller;
pub mod status;
pub mod resource;
pub mod notify;
pub mod unit;
pub mod driver;
pub mod node;
pub mod args;
pub mod service;
pub mod task;
pub mod request;
pub mod unit_service;
pub mod admin;
pub mod watcher;
