# mmreg

Access to 32-bit memory-mapped I/O registers through `/dev/mem`, with named
registers and bitfields (subregisters).

- `src/` is the verified library (Verus). It holds the register and bitfield
  arithmetic, the lookups by name, and the decisions of every interface
  operation as a state machine (`access::Access`): it asks for an action
  (check the address, lock, map, read, write, unmap) and takes the answer as an
  event. It also reads `/proc/iomem` text, device tree `reg` entries and
  command lines. The laws it proves are the public `law_*` proof functions.
- `app/` is the command-line tool and everything that touches the system: the
  lock file (`fs2`), `mmap`/`munmap` and volatile accesses (`libc`), sysfs
  reads, and the loop that performs the actions the library asks for.
- `tests/` runs the library on concrete values.
