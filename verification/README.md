# syscall

The system call layer of a small kernel, with its decisions proved in Verus.

- `src/` is the verified library. `fs`, `process` and `sync` hold the calls; `mm`,
  `slots`, `matrix` and `banker` hold what they work on; the `*_laws` modules state
  what holds of several calls together.
- `tests/` runs the library on concrete values.
- `app/` runs the calls on a kernel: it performs what the library asks for and hands
  the outcome back.

A call that needs a device, the disk or the scheduler returns a `Step`. The caller
performs what the step asks for and, where the call goes on, hands the outcome to the
continuation named after it: `sys_mutex_lock` and then `mutex_lock_taken`, for example.

With deadlock detection on, a request is checked before it is made. Where a unit of
the resource is free, the check hands it to the thread; where none is, the thread is
taken to wait. The request is granted exactly if all threads can then finish in some
order, as the banker's algorithm finds out; otherwise it is refused and nothing changes.
`sync_laws` says what follows: a granted request leaves no deadlock, and a thread that
waits for nothing gets a free unit wherever all threads could finish before.
