//! Linear genetic programming for binary classification: genomes are
//! variable-length sequences of integer genes that decode into register
//! machine programs, a MAP-Elites style population keeps the best program
//! per behavioural niche, and a runner enumerates every combination of the
//! experiment settings.
pub mod dataset;
pub mod evosys;
