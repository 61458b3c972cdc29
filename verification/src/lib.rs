//! AgentLedger: a local-first benchmark ledger for coding agents and LLM providers.
//!
//! This crate holds what the ledger decides and computes, with its contracts: the chain of events
//! and the runs in it ([`ledger`], [`record`]), the capture of a run ([`capture`], [`git`]),
//! benchmark matrices ([`bench`]), the metrics of LLM calls ([`metrics`], [`compare`]), exports
//! ([`export`]), the SQLite index ([`scan`], [`index`]), the proxy ([`forward`], [`proxy`],
//! [`stream`], [`web`]), the dashboard ([`dashboard`]) and the commands ([`commands`], [`config`],
//! [`doctor`], [`layout`], [`error`]). Files, processes and sockets are left to the caller, who
//! hands in what they gave.
pub mod bench;
pub mod bytes;
pub mod capture;
pub mod clock;
pub mod commands;
pub mod compare;
pub mod config;
pub mod dashboard;
pub mod doctor;
pub mod error;
pub mod export;
pub mod forward;
pub mod git;
pub mod ident;
pub mod index;
pub mod json;
pub mod layout;
pub mod ledger;
pub mod metrics;
pub mod proxy;
pub mod record;
pub mod scan;
pub mod stream;
pub mod text;
pub mod web;
