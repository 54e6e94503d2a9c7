# xv6_kernel

The decision-making core of an async, xv6-style teaching kernel for
RISC-V 64 (with an AArch64 skeleton), written in Verus: every function
in `src/` carries a contract that Verus proves, except the one call
into smoltcp (`net::instant_from_millis`, which builds an `Instant`),
whose contract is trusted.

The kernel's state lives in plain structures (page tables, free lists,
caches, queues, process records) that the functions take by reference;
hardware access, interrupts, the async executor loop and the network
stack's interfaces stay outside the library.

## Layout

- `src/bytes.rs`, `src/layout.rs` — little/big-endian codecs and the
  on-disk format (superblock, inodes, directory entries, image layout).
- `src/riscv.rs`, `src/sv39.rs`, `src/aarch64.rs`, `src/hal.rs` — page
  table entries, an Sv39 page table with `map`/`translate`/`unmap`/`reap`,
  trap classification, and the architecture-neutral types.
- `src/kalloc.rs`, `src/heap.rs` — the frame allocator and the
  first-fit kernel heap with coalescing.
- `src/elf.rs`, `src/user_vm.rs`, `src/fork.rs`, `src/vm.rs` — ELF
  loading, the user address space and argument block, `fork`'s copy,
  and the kernel page table.
- `src/fs/` — the superblock cache, the write-ahead log, block bitmap,
  inode cache and block map, path resolution and directory edits.
- `src/driver/` — buffer cache, virtio block/input/net bookkeeping and
  the ramfb framebuffer.
- `src/syscall.rs`, `src/signal.rs`, `src/proc.rs`, `src/file.rs`,
  `src/uapi.rs` — system-call decoding and the decisions of the system
  calls, signals, file descriptors, pipes and sockets.
- `src/executor.rs`, `src/cpu.rs`, `src/time.rs`, `src/wait.rs`,
  `src/console_in.rs` — task placement, per-hart state, timers, wakers
  and the console line discipline.
- `src/net.rs` — endpoint parsing, routing, ports and the network
  clock (with smoltcp's `Instant`).
- `app/` — a hosted bring-up and the smoltcp device and stack glue.
- `tests/` — tests on concrete values for each module.
