//! A concurrent memory-throughput benchmark engine and the system-information
//! parsers that accompany it.
//!
//! The library holds the verified decision logic: the phase barrier of the
//! progress tracker, the width strategies that read, write and copy benchmark
//! buffers, and the worker pipeline that drives a run; and the parsers of what
//! the kernel reports about processors, memory, swap, PCI and USB devices, disks
//! and the user. Threads, locks, clocks and files belong to the program around
//! it.
pub mod progress;
pub mod cpu;
pub mod strategies;
pub mod memory;
pub mod bench_progress;
pub mod numbers;
pub mod hex;
pub mod meminfo;
pub mod swap;
pub mod pci;
pub mod system;
pub mod usbdb;
