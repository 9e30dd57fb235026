# runx

The decision logic of the runx skill runtime, written in Verus: each public
function states what it returns in its `requires`/`ensures`, and Verus proves
the body against it.

## Layout

- `src/` is the verified library. Data is modelled by views (`JsonValue` by
  `JsonModel`, `JsonObject` by its sorted entry sequence, `StringSet` by a
  strictly increasing sequence), and contracts are stated over those models.
  - Skill packages: `package_source` (files, digests, validation),
    `javascript` (static import scanning), `export`, `export_shim`,
    `registry`, `inline_harness`, `replay`, `skill_authoring`.
  - Runs: `skill_command` (the `runx skill` command as a step machine),
    `agent_run`, `agent_tools`, `runner_selection`, `graph`, `graph_state`,
    `step_outputs`, `input_contract`, `answers`, `execution_closure`,
    `inspection`, `provenance`, `sandbox_env`, `scheduler`, `output_contract`.
  - Payments and receipts: `charge` (price, challenge, verification request,
    plan), `refund_proof`, `external_receipt`.
  - The JavaScript worker: `worker_protocol`, `worker_pool`,
    `worker_supervisor`, `js_engine`.
  - Providers: `provider`, `provider_permission`.
  - Shared: `json`, `json_text` (compact JSON text), `text`, `string_set`.
- `tests/` runs the library on concrete inputs.
- `app/` holds what is not verified: reading files and the environment,
  spawning the verifier and the worker loop, and the serde conversions.

Outside code is reached through a few trusted items, each with a doc comment
that says what its contract claims: SHA-256 (`sha2`), JSON string quoting
(`serde_json`), UTF-8 decoding, `String::push` and `{:?}` of a string.
