//! Decode-time logic of a Gemma 4 runtime: configuration, key/value caches,
//! hidden-state capture, step planning and block-speculative decoding.

pub mod text;
pub mod error;
pub mod kv_slot;
pub mod config;
pub mod kv;
pub mod capture;
pub mod ops;
pub mod kv_bank;
pub mod model;
pub mod step_plan;
pub mod conditioner;
pub mod session;
pub mod decode;
pub mod verify_plan;
pub mod verify;
pub mod step_laws;
pub mod step_verify;
pub mod generate;
pub mod dflash;
pub mod draft_plan;
pub mod draft;
pub mod dflash_run;
pub mod rollback_laws;
pub mod run_laws;
pub mod diag;
pub mod tensor;
pub mod dispatch;
pub mod forward;
pub mod gates;
pub mod weights;
pub mod icb;
pub mod floats;
pub mod mtp;
pub mod steps;
pub mod device_laws;
pub mod network_laws;
pub mod machine;
pub mod compute_laws;
pub mod layer_laws;
pub mod geometry_laws;
pub mod pass_laws;
pub mod draft_laws;
pub mod load;
pub mod host_draft;
pub mod cli;
pub mod report;
pub mod golden;
pub mod block_dump;
pub mod serve;
