# easycon

A supervision runtime for controller automation and the serial leaf beneath it, written in Rust and
proved with Verus.

- `src/` is the library. Every value in it is stepped by its owner: operations, tasks, resources,
  deadlines, events and the cancellation hierarchy in `runtime` and the modules beside it; port
  discovery, byte I/O, the overlapped transfer and the Controller transport in `serial`. Contracts
  are stated over plain models, and the laws that span several calls are public proof functions
  named `law_*`.
- `app/` is ordinary Rust around it: threads, locks, clocks, callbacks, and the Win32 calls.
- `tests/` runs the library.
