//! Pure decisions of file transfers: the global cap on simultaneous
//! transfers, the burst of the rate limiter, the resumption plan of an
//! interrupted download, and the coalescing of tunnel traffic events.
pub mod rate;
pub mod resume;
pub mod slots;
pub mod traffic;
