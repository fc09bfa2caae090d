# utilities

Small utilities, verified with Verus:

- `bft_models`: quorum and fault weights of the `n = 3f + 1` and `n = 5f + 1` BFT
  models, with the quorum-intersection laws proved.
- `cache::linear_collections`: a queue with a fixed capacity that evicts its oldest
  item.
- `cache::priority_set`: a map from data to priority with ordered access, kept as a
  hash index and an ordered set that agree.
- `cache::object_pool`: an object pool shared behind a lock, whose steps are verified
  on the state the lock protects.
- `cache::tls`: the state of a thread-local cache slot.
- `weighted_sampling`: the generator, seed mixing and ranking of a stake-weighted
  committee election.

`src/` is the verified library. `app/` holds what stands around it: macros,
thread-local storage, a pool whose guards give their object back when dropped,
conversions through `num_traits`, error types with `thiserror`, and the
floating-point step of the election.
