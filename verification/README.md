# deno_minus_v8

The part of Deno's runtime that stands between native code and a JavaScript engine other than V8,
verified with Verus.

`src/` is the library. An `Isolate` holds a backend and what native code keeps for it, for each realm
apart; everything that JavaScript can bring about goes through the trait `JsBackend`. Contracts speak
of the history of what a backend was asked, in which each thing that ran JavaScript stands once, and of
what native code that JavaScript calls leaves of an isolate.

- `double`, `text`, `names`: numbers, strings and maps that the rest is built on.
- `handle`, `data`, `scope`, `isolate`, `realm`, `state`: values and contexts of JavaScript.
- `serde`, `wrappers`: how values are sent to the backend and read back.
- `backend`, `function`, `bindings`: what is asked of the backend, and what is exposed to it.
- `ops`, `ops_builtin_v8`, `pending`: native operations, the builtin ones, and those in flight.
- `extension`, `polyfills`, `snapshot`: what a runtime is made of.
- `extension_js`, `realm_setup`: the set-up of a realm, which a program runs step by step.
- `event_loop`, `turn`, `runtime`, `modules`, `worker`: what happens when a program runs.

`app/` holds what surrounds the library in a program: engines that run asynchronously, serde
implementations, and the futures that drive the event loop. `tests/` run the library on concrete
values.
