//! A verified core for a key-addressed object-storage adapter.
//!
//! Values published under hierarchical, wildcard-capable key expressions are
//! persisted as flat storage objects.  This crate holds the pure logic of the
//! adapter: the codec between key expressions and flat storage keys (with an
//! optional key-space prefix), the wildcard intersection algorithm used to
//! resolve queries against the stored object population, the value envelope
//! that round-trips through object body and metadata, and the decision logic
//! of the bucket lifecycle (provisioning and ordered teardown).  The network
//! calls themselves live outside the library and only feed plain values in.

pub mod codec;
pub mod envelope;
pub mod intersect;
pub mod keys;
pub mod lifecycle;
pub mod resolver;
