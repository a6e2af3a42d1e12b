//! Chaum-Pedersen zero-knowledge-proof authentication library.
//!
//! A prover holding a secret scalar `x` publishes `y1 = g^x mod p` and
//! `y2 = h^x mod p` over a Sophie-Germain prime group `(p, q, g, h)` with
//! `q = (p - 1) / 2`, and later proves knowledge of `x` by committing to
//! `(r1, r2) = (g^k, h^k) mod p`, receiving a challenge `c`, and answering
//! with `s = (k - c * x) mod q`. The verifier accepts when
//! `g^s * y1^c = r1 (mod p)` and `h^s * y2^c = r2 (mod p)`.

pub mod arith;
pub mod auth_db;
pub mod codec;
pub mod cp_params;
pub mod db;
pub mod param_init;
pub mod scalar;
pub mod server;
