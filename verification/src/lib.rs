//! Verified protocol, policy and inventory core of a SAS disk and MD RAID monitor.
//!
//! Everything in this crate is pure computation over bytes, strings and plain
//! values: ATA/SAT and SCSI response parsing, the privilege-broker wire format
//! and authorization policy, storage topology bookkeeping and the text
//! formats read from sysfs and procfs.
pub mod text;
pub mod matching;
pub mod char_text;
pub mod order;
pub mod ata;
pub mod storage;
pub mod timing;
pub mod broker;
pub mod scsi;
pub mod collectors;
pub mod monitor;
pub mod storage_events;
pub mod storage_discovery;
pub mod widgets;
pub mod security;
pub mod notifier;
pub mod navigation;
pub mod history;
pub mod config;
