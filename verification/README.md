# dspy_rs

Programs of language-model calls, and optimizers that improve them, as verified Rust.

`src/` is the library. Every function states what it returns, and Verus proves it.

- `text`, `names`, `json`, `random`, `trace`, `chat`: texts, sorted name tables, JSON with a hash
  that ignores the order of members, draws, recorded calls and conversations.
- `predictors`: the state of a predictor, how a call of it ends, and types read from JSON schemas.
- `modules`: reasoning before answering, steps with tools, and (`rlm`) turns of code in an
  interpreter.
- `optimizer`: candidates, budgets, the rollout cache, the score matrix with its Pareto frontier,
  and the optimizers as runs between events.
- `programs`, `providers`: signatures of meta-programs, and a provider that needs no network.

A module or optimizer that works with the outside is a run: it names the next action, the caller
performs it, and hands the outcome back. Scores are ordered by integers; `app/` turns them from and
to floating point.

`app/` performs the actions: models over the network, a Python interpreter, and tasks that run
side by side. `tests/` runs the library on values.
