//! Pressure Valve: process lifecycle decisions, verified.
//!
//! Every function here is a function of plain values. Whatever is read from
//! the kernel, the disk or the network arrives as text or integers; whatever
//! is to be printed, written or signalled leaves the same way.

pub mod bench;
pub mod cgroup;
pub mod commands;
pub mod daemon;
pub mod display;
pub mod doctor;
pub mod enforce;
pub mod fixed;
pub mod groq;
pub mod intent;
pub mod label;
pub mod live;
pub mod log;
pub mod migrate;
pub mod net;
pub mod notify;
pub mod order;
pub mod path;
pub mod policy;
pub mod pressure;
pub mod procfs;
pub mod recommend;
pub mod relocate;
pub mod scan;
pub mod session;
pub mod storage;
pub mod suspend;
pub mod text;
pub mod update;
