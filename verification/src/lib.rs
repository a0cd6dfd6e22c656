//! Decision logic of an adaptive SELinux policy daemon.
//!
//! Observations of kernel programs and denials in the audit log become access patterns
//! (`observer`, `audit`, `resolver`, `normalizer`); access patterns become rules (`llm`,
//! `simple_gen`); rules that pass the validator (`validator`) become policy modules that are
//! installed and can be taken back (`selinux`, `store`, `state_machine`). What all of this is for is
//! stated in `laws`.

pub mod approval;
pub mod audit;
pub mod bytes;
pub mod common;
pub mod double;
pub mod grouping;
pub mod laws;
pub mod llm;
pub mod lru_model;
pub mod normalizer;
pub mod number;
pub mod observer;
pub mod order;
pub mod outside;
pub mod resolver;
pub mod selinux;
pub mod simple_gen;
pub mod state_machine;
pub mod store;
pub mod text;
pub mod type_set;
pub mod validator;
pub mod window;
