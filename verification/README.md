# ylong

Containers with fallible allocation, a borrow flag for shared cells, located errors and
readers of system information, with their behaviour stated in contracts and proved by
Verus.

## Layout

- `src/` is the verified library.
  - `common` — layouts, the allocator trait, `ContainerError` and `SafeClone`. An
    `Allocator` here is a permission check: asked for a block of a layout, it grants or
    refuses it; the memory itself comes from the global allocator.
  - `boxed` — `AllocatorBox`, a box placed once its allocator granted the block.
  - `rc` — `RcWithAlloc` and `WeakWithAlloc`, shared values placed once their allocator
    granted the block.
  - `map` — `FixedCapMap`, a hash map that never grows past its capacity.
  - `borrow` — the flag protocol of a cell that threads borrow.
  - `one_error` — errors that carry the file and line where they were raised.
  - `text` — the character-level parsing that the readers share.
  - `sysinfo` — processes, CPUs, memory, disks, users and network interfaces, computed
    from the contents of the files of `/proc`, `/sys` and `/etc`, and, under
    `sysinfo::windows`, from the answers of the Windows calls.
- `tests/` runs the library on concrete values.
- `app/` holds what the library cannot: the cell that hands out references into its
  value, the macros that raise located errors, and the file reads and system calls whose
  results it hands to the library.
