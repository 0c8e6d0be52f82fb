//! Turns a recorded server build session into a runbook and a playbook.

pub mod text;
pub mod order;
pub mod packages;
pub mod state;
pub mod i18n;
pub mod sys;
pub mod snapshot;
pub mod diff;
pub mod event;
pub mod step;
pub mod watcher;
pub mod session;
pub mod ansible;
pub mod markdown;
