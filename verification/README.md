# den-core

Shared, pure Den client policy, verified with [Verus](https://github.com/verus-lang/verus). The functions of
`src/` carry contracts that say what they return and when they refuse, and Verus proves them.

`store` reads published title stores: it checks the content hash before anything else and hands out borrowed
columns, lists and strings. `wire`, `capture`, `events` and `delivery` are the library sync rules: merges of log
rows, explicit action capture, event-to-command translation and supersession, and provider preflight decisions;
`stamp` issues logical clocks and `api` is the one versioned boundary, with capped retry scheduling. `episodes`,
`series` and `tilt` are what clients share about watch state and order. Invalid input is an error, never an empty
state or an acknowledgement.

What holds across functions is stated as public proof functions next to them: `integrity` for stores,
`convergence` and `naming` for rows, and a last part of the other modules.

What is trusted rather than proved is small: `zerocopy`'s casts in `element` and the UTF-8 decoder of the
standard library in `text`.

`app/` is the ordinary Rust around the library: JSON text in and out, the bindings, and the floating-point
arithmetic that scores titles. Clients retain encryption, storage, credentials and account binding, provider
HTTP, receipts, UI and scheduling. They must recheck account and current intent immediately before HTTP and
persist successful receipts.
