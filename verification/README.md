# autoresearch

A market for automated research, written in Verus: competitions with a promotion gate,
rewards, stakes, disputes, privacy tiers, a marketplace for certified artifacts, and the
operator compute that runs researchers' methods.

`src/` is the library: functions with contracts that Verus proves. Money is
integer wei, lift is integer micro-units where a payout is decided, and scores are
IEEE-754 doubles held by their bit patterns and only compared. What an outside crate
computes stands behind a few trusted functions, each with a comment that says what is
believed of it.

The modules, from the ground up:

- `amounts`, `binary64`, `encoding`, `fnv`, `json`, `keyed`, `order`, `text`: numbers,
  bytes, text, tables and rankings.
- `types`, `traits`, `reward`, `privacy`, `attestation`, `marketplace`: the market's
  terms.
- `orchestrator`, `private`, `collaborative`, `continuous`, `dispute`, `slash`, `stake`,
  `store`: running a competition and settling it.
- `sandbox`, `sandbox_local`, `sandbox_engine`, `sandbox_runtime`, `supervisor`,
  `training`, `operator`: how candidates are produced.
- `config`, `jobs`, `registration`: the operator's service.

Public proof functions state what holds of the market as a whole: a dispute conserves the
stakes, the frontier is bought once, a leaderboard can be recomputed from its log, and so
on.

`tests/` runs the library. `app/` is the program around it: it waits for scorers,
engines and services, does the arithmetic on doubles, and hands the results to the
library, which decides.
