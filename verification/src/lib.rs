//! Verified control plane of a distributed workbench.

pub mod text;
pub mod json;
pub mod codec;
pub mod rpc;
pub mod schema;
pub mod table;
pub mod lease;
pub mod task;
pub mod redact;
pub mod resource;
pub mod datapack;
pub mod paths;
pub mod generation;
pub mod state;
pub mod approval;
pub mod transaction;
pub mod handoff;
pub mod driver;
pub mod session;
pub mod evidence;
pub mod controller;
pub mod task_requests;
pub mod port;
pub mod observe;
pub mod operator;
pub mod read_grant;
pub mod runs;
pub mod schema_check;
pub mod lock;
pub mod invoke;
pub mod execution;
pub mod relay;
pub mod lines;
pub mod query;
pub mod snapshot;
pub mod dashboard;
pub mod fabric;
pub mod process;
pub mod probe;
pub mod application;
pub mod launch;
pub mod cdp;
pub mod windows;
pub mod logs;
pub mod computer_use;
pub mod cli;
pub mod hook;
pub mod actions;
pub mod status;
