# gemma-metal

Decode-time logic of a Gemma 4 runtime, written and proved in Verus.

The library decides; a device computes. A step, a verify call or a draft pass is a
list of commands that the library makes and the caller has carried out; loops that
wait for a device are state machines that name the next action and are handed the
answer. Floats are held as their bit patterns: arithmetic on them is the device's, or
that of the programs under `app/`.

## Layout

- `src/config.rs`, `src/load.rs`, `src/weights.rs`, `src/model.rs`: configurations,
  checkpoints and the model they make.
- `src/kv.rs`, `src/kv_slot.rs`, `src/kv_bank.rs`, `src/capture.rs`,
  `src/conditioner.rs`: caches and captured rows.
- `src/session.rs`, `src/step_plan.rs`, `src/decode.rs`, `src/verify_plan.rs`,
  `src/verify.rs`, `src/steps.rs`, `src/icb.rs`: one step, and one block.
- `src/generate.rs`, `src/dflash_run.rs`, `src/mtp.rs`, `src/step_verify.rs`: greedy
  and drafted generation.
- `src/dflash.rs`, `src/draft.rs`, `src/draft_plan.rs`, `src/host_draft.rs`: the draft.
- `src/tensor.rs`, `src/dispatch.rs`, `src/floats.rs`, `src/text.rs`: buffers,
  bindings and small helpers.
- `src/cli.rs`, `src/serve.rs`, `src/report.rs`, `src/gates.rs`, `src/golden.rs`,
  `src/block_dump.rs`, `src/diag.rs`: what the programs read and say.
- `src/step_laws.rs`, `src/rollback_laws.rs`: what steps, blocks and roll-backs do to
  the caches, and what is read back from them.
- `src/run_laws.rs`: what whole generations come to, drafted or not.
- `src/device_laws.rs`, `src/network_laws.rs`: what holds of every device and of every
  network of layers, whatever they compute. Other laws stand beside the functions that
  they speak of.
- `app/`: the programs `bench`, `serve`, `golden` and `health`.

JSON and safetensors are read by `serde_json` and `safetensors`, through the wrappers
at the top of `src/load.rs` and one in `src/serve.rs`. Nothing else is believed
without proof.
