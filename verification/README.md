# win_compositor

The decisions of a per-surface compositor for Windows (D3D11 and
DirectComposition), verified with Verus.

`src/` is a state machine. It owns no graphics objects: they are named by
handles, and the host makes the calls. Every operation answers with a *turn*,
which lists calls whose outcome does not matter, and then either one call whose
reply is needed to go on, or the answer of the operation. The host hands replies
to `resume` until there is an answer.

- `protocol.rs`: what the two sides say to each other.
- `state.rs`, `surface.rs`, `registry.rs`, `devices.rs`, `gate.rs`: the state,
  its mathematical model and its invariant.
- `lifecycle.rs`, `paint.rs`, `swap_chain.rs`, `popup.rs`, `transition.rs`,
  `recovery.rs`, `rebuild.rs`, `resume.rs`: the operations.
- `handles.rs`: which objects the host must keep.
- `diagnostics.rs`, `output.rs`: numbers for the log.
- `status.rs`: status values, read by `windows_core`.
- `operation.rs`, `ownership.rs`, `outcome.rs`, `frame.rs`, `properties.rs`:
  what holds of all operations, from their first call to their last.

`app/` is the host: the lock, the COM calls and the log.
