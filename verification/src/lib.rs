//! CPU and memory accounting from operating-system counters.
//!
//! The library turns successive readings of cumulative counters (the
//! system-wide CPU time buckets, the CPU ticks of single processes, the
//! memory counters) into utilisation figures. It never touches a file or
//! a clock itself: callers hand it what they read, as bytes, and the
//! instant at which they read it.
//!
//! - [`monitor`] is the sampling engine. It keeps the last reading of the
//!   system-wide counters and of every process it was asked to follow.
//! - [`system_cpu`], [`process_cpu`] and [`memory`] read one counter source
//!   each and compute the usage that its readings give.
//! - [`source`] holds the outcome of a read and the failures of a sample.
//! - [`text`], [`number`] and [`ratio`] split lines, read integers and
//!   compute percentages.
//! - [`model`] holds what is told of a machine and its parts.

pub mod memory;
pub mod model;
pub mod monitor;
pub mod number;
pub mod process_cpu;
pub mod ratio;
pub mod source;
pub mod system_cpu;
pub mod text;

pub use model::{
    Camera, Disk, DiskUsage, GraphicCard, GraphicsProcessUtilization, GraphicsUsage, NvidiaInfo,
    Processor, SystemInfo, SystemStatus,
};
pub use monitor::Monitor;
