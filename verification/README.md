# doodle_core

The core of a small, dynamically typed teaching language: a resumable machine that runs
resolved programs one transition at a time, with a garbage-collected heap, host handles,
modules, breakpoints and limits. Every function of `src/` is verified with Verus.

## Layout

- `src/` is the library.
  - Values and their operations: `value`, `heap`, `number`, `bignum`, `float`, `arith`,
    `compare`, `hash`, `siphash`, `dict`, `dict_laws`, `record`, `render`, `unicode`, `text`.
  - The machine: `machine`, `frame`, `cont`, `local`, `control`, `names`, `eval`, `assign`,
    `call`, `binding`, `block`, `object`, `index`, `dynamic`, `protect`, `unwind`, `step`,
    `turn`, `replay`.
  - Modules: `ast`, `resolve`, `modload`, `importing`, `sourcing`, `load`, `named`.
  - The host's side: `handle`, `values`, `boundary`, `context`, `intrinsic`, `native`,
    `natives`, `activation`, `drive`, `tokens`, `limits`, `breakpoint`, `observe`, `scope`,
    `globals`, `inspect`, `postmortem`, `aux_eval`.
  - Memory: `collect`, `gc`.
  - What holds over a whole run: `root_laws`, `life_laws`, `order_laws`; of records
    `shape_laws`, `upkeep`, `fit_laws`; of the keys of dicts `sealing`, `holding`,
    `holding_steps`, `key_laws`, `key_life`.
- `tests/` runs the library. `programs.rs` holds a small reader, so that programs can be
  written as text.
- `app/` is a host in ordinary Rust: host functions as closures, finalizers, floats.

## How the contracts are written

Each executable type has a mathematical view, and each transition of the machine is a spec
function from views to views that the executable function is proved to compute. What holds
across functions stands as public proof functions whose names begin with `law_`.

Arithmetic on large integers and on floats, the composition of text and its clusters come
from outside crates and the standard library, behind small functions whose contracts say what
is taken on trust.
