//! A continuation-passing task graph: promises driven by an external
//! scheduler over a shared execution context.
//!
//! A [`Promise`](promise::Promise) is an identity plus up to three one-shot
//! continuations (register, discard, resolve), represented as data that the
//! lifecycle engine in [`context`] interprets. Chaining operators splice new
//! continuations onto a promise without the caller ever touching the
//! registry; the `any` / `all` combinators coordinate cancellation and
//! aggregation across a dynamic set of sibling promises.

pub mod id;
pub mod value;
pub mod promise;
pub mod context;
