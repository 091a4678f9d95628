# Edge Agent Core

A minimal, deterministic agent runtime kernel for edge devices, verified with
Verus. It lets an unreliable small model on a small device control hardware
reliably: the kernel provides the loop and the mechanisms, plugins provide the
abilities.

Every event takes the same chain:

    event -> queue -> strategy
      rule    -> answered at once, without the model
      model   -> inference -> strict check (a repair plugin may help)
                   valid   -> device locks -> tool -> locks released
                   invalid -> a limited number of retries
                                -> breaker -> strategy's fallback -> safe refusal

Three things hold throughout: memory has a budget, execution has a breaker, and
devices have locks.

## Layout

- `src/breaker.rs`, `context.rs`, `lock.rs`, `event.rs`: the budgets and the
  queue.
- `src/json.rs`, `record.rs`, `text.rs`, `names.rs`: documents, strict records,
  texts and ordered maps.
- `src/inference.rs`: what is sent to a model and what is made of its answer.
- `src/plugin/`: the envelope that native and wasm plugins share, manifests and
  signatures, the registries, and the sandbox. `host.rs` holds all that is asked of
  guests, with the record of it; `bridge.rs` is the only way to a provider of
  capabilities, and `warden.rs` decides what goes there.
- `src/kernel/model.rs` spells out every step of the kernel as a function on
  states. `machine.rs` takes exactly these steps, and `driver.rs` runs plugins
  and the model for them until something is needed from outside: a file, the
  versions of a plugin, or the answer of a model that is reached over the network.
- `src/kernel/progress.rs`, `soundness.rs`, `moves.rs`, `laws.rs` and `trust.rs`
  prove what holds of every run: it ends, it stays within its budgets, hooks only
  observe, no device stays locked, every task is answered, and only trusted code
  runs. `bare.rs` proves what comes of every task, and of a whole queue, where there
  are no plugins and the model is local.
- `app/` is the runner: standard input and output, files, HTTP and processes.
- `tests/` runs the library, with real guests in the real sandbox.

## What is trusted

The library calls `serde_json`, `base64`, `hex`, `sha2`, `ed25519-dalek`,
`semver` and `wasmtime` through small wrappers whose contracts are believed.
Each wrapper says in its comment what it claims. Of a guest, a native plugin, a
provider of capabilities or a model nothing is claimed but that it answers what
it was asked: whatever it answers, the laws hold. What each of them was asked, and
what came back, is on record, and the contracts of the kernel speak of that record.
