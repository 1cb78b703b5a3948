# wishy

The logic of a small x86 kernel, verified with Verus: block devices and a
write-back sector cache, an ext2 file system, ELF loading and page tables,
memory mapping, a bump heap, the system-call and Linux-compatibility
decisions (descriptors, processes, threads and futexes, signals, sockets),
a Wayland protocol server, DRM/EGL/virtio GPU bookkeeping, and a tiling
desktop (input decoding, windows, drawing into a framebuffer).

- `src/` is the verified library. Every public function states what it
  returns or changes; the laws that relate several functions are public
  proof functions (round trips of the wire and disk formats, reading back
  what was written to a disk or the cache, and so on).
- `tests/` exercises the library on concrete values.
- `app/` is the unverified kernel shell around it: port and memory-mapped
  I/O, the system-call entry that reads and writes user memory, the
  global allocator, the animations' floating point, and the desktop loop.
