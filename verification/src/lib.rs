//! Nearest-task assignment for a small fleet of agents, with every agent's
//! task history committed to a hash tree and checked before it is accepted.
//!
//! A coordinator hands a batch of tasks to the agents of a fleet, each
//! agent the free task that suits it best ([`assignment`]). It commits to
//! the fleet that results with the root of a hash tree ([`merkle`],
//! [`hashes`]) and sends every agent the new root, a succinct proof, the
//! agent's new task and the path that shows the agent's new record to be a
//! leaf under the root ([`coordinator`], [`wire`]). An agent commits to an
//! update only if the proof holds and the path verifies ([`agent`],
//! [`groth`]).
//!
//! Numbers are elements of the scalar field of BN254 ([`field`]); the
//! coordinates of the proof's points are elements of its base field
//! ([`base`], [`points`], [`keys`]). On the wire and in configurations
//! both are decimal strings ([`codec`], [`config`]). The compression
//! functions that the trees are hashed with are the caller's
//! ([`compression`]).

pub mod agent;
pub mod assignment;
pub mod base;
pub mod codec;
pub mod compression;
pub mod config;
pub mod coordinator;
pub mod field;
pub mod fleet;
pub mod groth;
pub mod hashes;
pub mod keys;
pub mod matching_proofs;
pub mod merkle;
pub mod points;
pub mod wire;
