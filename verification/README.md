# rtos_kernel

A small preemptive kernel for Cortex-M7 boards (ART-Pi, STM32H750), with the
behaviour of its kernel logic stated in contracts and proved with Verus.

Layout:

- `src/` — the verified library:
  - `list` — intrusive doubly linked lists whose links live in a `NodePool`,
    several lists sharing one pool;
  - `sched` — the preemptive priority scheduler (32 levels and a bit mask of
    non-empty levels) and a round robin scheduler;
  - `timer` — software timers kept sorted by expiry tick;
  - `thread` — threads, their start frame, sleeping and timers;
  - `semaphore`, `mailbox`, `message_queue` — synchronisation and IPC;
  - `heap` — the first-fit kernel heap;
  - `syscall` — system call numbers, their decoding and replies;
  - `mpu`, `drivers`, `shell`, `collections`, `nulllock`, `static_ref` —
    MPU region values, processor modes and the tick counter, the shell's
    command parsing, a singly linked list and small helpers.
- `tests/` — tests of the library on concrete values.
- `app/` — the firmware around the library: board bring-up, console,
  SysTick, PendSV stack switching, the SVCall handler, the global allocator
  and the user threads.

Notes on the model:

- The message queue keeps its message lengths in a `VecDeque<u16>` holding
  at most `N` of them. A fixed-capacity `heapless::Deque<u16, N>` would need a
  name for its contents that depends on the capacity `N`, and such a name
  cannot be generic here; the bound it gave is kept as part of the queue's
  invariant instead.
- The heap keeps each block's header (address, state, size and back link)
  in a chain in the order of the forward links. Back links are kept as the
  list operations write them; a merge follows the back link, which may name
  the block itself or a block further back. A back link that names a header
  merged away (memory the heap no longer keeps) is outside what the heap
  takes back.
