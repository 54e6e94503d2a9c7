//! Verified core of an xv6-style kernel: on-disk layout, page-table
//! entry encoding, ELF loading plans, the write-ahead log state machine,
//! allocators, console line discipline, signal and syscall decisions.

pub mod bytes;
pub mod hal;
pub mod riscv;
pub mod sv39;
pub mod kalloc;
pub mod layout;

pub mod heap;
pub mod elf;
pub mod user_vm;
pub mod fs;
pub mod driver;
pub mod syscall;
pub mod uapi;
pub mod file;
pub mod proc;
pub mod wait;
pub mod console_in;
pub mod time;
pub mod cpu;
pub mod executor;
pub mod aarch64;
pub mod net;
pub mod signal;
pub mod fork;
pub mod vm;
