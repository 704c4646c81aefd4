//! Verified integer kernel of the Klotho engine: space, rotation, hashes,
//! collision queries, artifact headers and authored contracts.
pub mod units;
pub mod arith;
pub mod space;
pub mod yaw;
pub mod hash;
pub mod physics;
pub mod contact;
pub mod clip;
pub mod bytes;
pub mod failure;
pub mod header;
pub mod shape;
pub mod query;
pub mod narrow;
pub mod kernels;
pub mod convex;
pub mod collide;
pub mod cast;
pub mod witness;
pub mod semantic;
pub mod character;
pub mod patch;
pub mod ir_error;
pub mod names;
pub mod present;
pub mod feel;
pub mod latency;
pub mod a11y;
pub mod material;
pub mod stress;
pub mod lock;
pub mod budget;
pub mod anchor;
pub mod plan;
pub mod plan_read;
pub mod warp;
pub mod diag;
pub mod envelope;
pub mod feel_mapper;
pub mod remap;
pub mod catalog;
pub mod target;
pub mod interest;
pub mod mind;
pub mod package;
pub mod placement;
