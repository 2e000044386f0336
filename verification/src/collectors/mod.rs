//! Collectors of disk and array health from kernel and tool text.
pub mod diskstats;
pub mod iostat;
pub mod raid;
pub mod smart;
pub mod md_sysfs;
pub mod broker_health;
