# aleo-process

The process of a virtual machine whose calls are proved: it keeps programs, their stacks and
their circuit keys, and it stands guard before a call is authorized, evaluated or executed and
after it was proved. The library is verified with [Verus](https://github.com/verus-lang/verus).

Signing, running circuits and checking proofs are handed in as functions. Nothing is supposed of
them: each contract says what they are asked, and what is made of every answer. For a call that is
refused they are not called at all. The circuit keys that are made while a call is executed stay in
the process, so that the same process can verify what it executed.

- `src/process.rs`: the process, its invariant, and what is added to it.
- `src/calls.rs`: how many calls one function call amounts to.
- `src/run.rs`: authorization, evaluation, execution and the synthesis of keys.
- `src/verify.rs`: the verification of an execution.
- `src/laws.rs`, `src/admission.rs`, `src/soundness.rs`, `src/outcomes.rs`, `src/proved.rs`: what
  holds of the whole, up to the law that a call which is proved as it is made is verified.
- `src/registry.rs`: what is believed of `IndexMap` and `Arc`. Nothing else is.
- `app/`: the process behind a lock, shared between threads.
- `tests/`: whole calls with a small machine, and every error.
