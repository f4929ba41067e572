# session

The session manager of a blockchain runtime, verified with Verus.

Blocks are counted in sessions. At the end of a block the session rotates if it has reached its
length, if someone forced it to, or if the validators are bound to end it too late. A rotation puts
a new session length into effect, tells whoever listens, and makes the keys that validators have
asked for their authority keys.

- `src/session.rs`: the session manager, with what each of its functions does to its state
- `src/state.rs`: that state and the rules by which it changes, as mathematics
- `src/laws.rs`: what holds of the session manager as a whole
- `src/genesis.rs`: how it is set up, and what storage begins with
- `src/calls.rs`: the calls it answers
- `src/codec/`: the byte format of stored values, with proofs that reading undoes writing
- `src/traits.rs`, `src/runtime.rs`: what is asked of the types it is used with
- `src/storage_map.rs`: a map of stored values
- `app/`: configuration and calls in the form in which they are read and written
