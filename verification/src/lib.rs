//! Verified integer factorization for `u64`.

pub mod arith;
pub mod certificate;
pub mod display;
pub mod emf;
pub mod factor;
pub mod fermat;
pub mod known_primes;
pub mod miller_rabin;
pub mod modular;
pub mod primality;
pub mod product;
pub mod reading;
pub mod report;
pub mod rho;
pub mod suite;
pub mod suite_labels;
pub mod suite_numbers;
