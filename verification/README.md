# brush_ir

Verified core of an infrared + RGB Gaussian-splatting scene loader.

- `src/batch_cache.rs`: the byte-budgeted, write-once cache of packed scene
  batches shared by the loader tasks, with its accounting laws.
- `src/loader.rs`: the shuffled per-epoch view order of a loader task, its
  step against the cache, the per-epoch permutation law, the
  seeding of the tasks and the number of loader actors.
- `src/config.rs`: model options and their accepted range.
- `src/rng.rs`: the random generator from `rand`, with the seed it was made
  from and the lists it shuffled.
- `app/`: the async loader actors, argument parsing, and the GPU kernels and
  autodiff glue, which work on floating-point tensors.
