//! Verified core of a coding-agent usage tracker: the settings.json merge
//! engine, transcript and OTLP event parsing, local calendar windows, and
//! the small decision procedures around them.
use vstd::prelude::*;

pub mod text;
pub mod numparse;
pub mod civil;
pub mod timestamp;
pub mod json;
pub mod codec;
pub mod settings;
pub mod merge_laws;
pub mod transcript;
pub mod collapse_laws;
pub mod parse_laws;
pub mod receiver;
pub mod ingest;
pub mod backfill;
pub mod health;
pub mod notify;
pub mod budgets;
pub mod tray;
pub mod session;
pub mod export;
pub mod onboarding;
pub mod pricing;
pub mod queries;
pub mod alerts;
pub mod capture;
pub mod autostart;
pub mod db;
pub mod tray_render;
pub mod metrics;

verus! {
} // verus!
