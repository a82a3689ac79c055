# carpool

Verified rules and decisions for configuring a whole "car" (a shared account
group split into seats, each seat holding member API keys) in one request.

- `src/text.rs` — name rules (`valid_name`) and small text helpers.
- `src/outside.rs` — trusted wrappers around `uuid`, `base64`, `sha2`,
  `rand_core` and the std case mappings, with the contracts they rely on.
- `src/model.rs` — the draft, its preparation, the answers of the domain core,
  and the errors.
- `src/prepare.rs` — every input rule of a draft (`check_draft`, `amount`) and
  its preparation (`prepare`): fingerprint and fresh member credentials, with
  the laws that an accepted draft is unambiguous and credentials are well formed.
- `src/order.rs` — byte order of texts and the sorted, duplicate-free lock order.
- `src/save.rs` — `SaveRun`, the decisions of the transactional save as a
  state machine, and its laws (nothing commits after a refusal or a failure,
  retries replay the stored answer, stale or reused requests conflict, ...).
- `app/` — JSON copies of the values, the gathering of the domain core's
  answers, and the PostgreSQL transaction that performs a save's actions.
