# omu_os

The logic of a small 32-bit x86 teaching kernel, proved with Verus.

`src/` is the verified library:

- `allocator` — the first-fit kernel heap allocator over an address-ordered,
  coalescing free list, and the mapping of the heap.
- `mm` — the physical frame bitmap and the check of user buffers.
- `arch` — descriptor tables, interrupt gates, the 8259 set-up sequence and
  two-level paging (`AddressSpace`, whose meaning is `translate`).
- `multiboot` — the boot loader's memory map and modules.
- `drivers` — the serial port's register sequence, a character device seen as
  a file, and the tar ramdisk.
- `fs` — the virtual file system: root, mounts, lookup, file operations.
- `kernel` — threads and the round-robin scheduler, the system calls, and the
  user address space.
- `shell` — the user-mode shell program, assembled with checked jumps.

`app/` is the kernel binary around it: the boot stub, port I/O, interrupt
entry code, the locks and statics, the global allocator, the system-call
entry and the switch to user mode.  The library decides; `app/` moves bytes
into hardware and memory.

`tests/` runs the library on concrete values.
