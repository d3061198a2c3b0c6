# klgp

Linear genetic programming for binary classification, verified with Verus.

- `src/evosys/gp_maps.rs`: decoding genomes into register-machine
  instructions, the program order (fitness, then complexity), agreement
  counts and phenotypes.
- `src/evosys/prog.rs`: random genomes and the shapes they can take.
- `src/evosys/mutators.rs`: point mutation, insertion and deletion of
  instructions.
- `src/evosys/pop.rs`: the niche population (one program per combination of
  ten predictions).
- `src/evosys/ea.rs`: the runner that hands out every combination of the
  experiment settings once.
- `src/dataset/`: the data set (rows, shifting, shuffling) and its labels.
- `app/`: the command-line driver: TOML configuration, CSV loading, the
  floating point execution of decoded programs and the scores, timing and
  reports.

Fitness values are carried as IEEE-754 bit patterns (`u32`) and ordered as
the numbers they encode.
