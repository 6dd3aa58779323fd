# cardbench_magic_policies

Verified planning, policy and measurement logic for the Magic code-policy
benchmark.

- `src/` is the library, written in Verus. Every function carries a contract
  and is proved against it:
  - the reference policies (`src/policies/`, `golgari_attrition`, and the
    conservative pending-decision answer in `catalog_gauntlet`): each
    `propose_move` returns exactly the move its specification describes, for
    any view of the game, written over a plain-value model of that view;
  - mana payment planning, proved to pay what it returns and, while no
    pool slot can pass the `u8` ceiling the pools saturate at, never to miss
    a payment that exists; combat exchanges and the worst-case defence;
    damage clocks;
  - the roster that defines the evaluation surface (cells, pair keys,
    fail-closed resolution of the train and sealed held-out splits), sweep
    coverage, match records and their tallies, and the command-line and
    settings parsing of the tools.
  Laws that span functions are public proof functions beside the code they
  speak of.
- `tests/` runs the library on concrete values.
- `app/` holds what Verus cannot take: reading roster files, resolving
  their paths and hashing the sealed manifest's canonical text, and every decision priced in floating point (board evaluation,
  attack and block weighing, target scoring, Wilson intervals and the
  bootstrap).

The policies that read engine state beyond a seat's view (the catalog policy,
which consults card definitions, and the weighted archetype policies, whose
choices are floating-point scores over the planner's board) are not part of
this crate: the engine they are written against is a separate crate that is
not built here.
