# peer_score

Scores for the peers of a gossip mesh, verified with Verus.

A host tells `PeerScore` what peers do: they connect and leave, join and leave the meshes of topics,
deliver messages first or again, deliver invalid ones, misbehave. `PeerScore` keeps counters of this,
lets them decay, and computes a score from them.

* `src/model.rs` states the rules: what the state is, what a peer's score is, and what each event
  makes of the state.
* `src/peer_score.rs` is the executable state; each method is proved to be one of those events or to
  compute one of those values. Methods that depend on the time come in two forms: one reads the
  clock, and one, with `_at` behind its name, is told the time.
* `src/upkeep.rs` proves that every event keeps the state consistent: counters exist for scored
  topics only, a deficit counts only against a peer in the mesh, the two sides of the address
  tracking agree, and rejected messages have no senders.
* `src/laws.rs` proves what follows across events: that leaving and coming back resets no score, that
  a duplicate counts once, that the outcome of a message is settled once, and more.
* `src/bounds.rs` proves what needs an order of numbers, and says what it asks of them: that no score
  is above the cap on topics, that delivery counters stay under their caps, that penalties add up,
  and that mesh failures outlast an absence. `src/fixed_laws.rs` shows that the fixed-point number
  keeps that order.
* `src/number.rs` says what the rules ask of a number. `src/fixed.rs` has a fixed-point number;
  `app/float.rs` puts the host's floating-point type in its place. Nothing is proved of the
  floating-point implementation: the rules that run on it are verified, its arithmetic is not.
* `src/table.rs` and `src/delivery.rs` hold the maps: one that keeps the order of its keys, and one
  whose entries expire.
* `app/` adds what a host needs: the timer, the callback, and conversions.

What is taken on trust: that comparing two `PeerId`s tells peers apart, and that the host's clock
reports spans that a `std::time::Duration` can hold.
