//! A verified driver library for the Goodix 27c6:550a fingerprint reader.
pub mod app_error;
pub mod arith;
pub mod bootstrap;
pub mod bridge;
pub mod bytes;
pub mod chicago_h;
pub mod cli;
pub mod crypto;
pub mod device;
pub mod driver;
pub mod enrollment;
pub mod enrollment_add;
pub mod enrollment_graph;
pub mod feature;
pub mod feature_enrollment;
pub mod firmware;
pub mod graph_laws;
pub mod protocol;
pub mod registration;
pub mod standalone_enroll;
pub mod standalone_verify;
pub mod text;
pub mod transfer_link;
