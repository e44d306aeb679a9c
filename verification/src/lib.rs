//! Core logic of the GOBBY assistant runtime and of the Milton self-play
//! pipeline: protocol types, skill parsing, the idempotency cache, surface
//! addressing, arena bookkeeping, network metadata and self-play labels.
pub mod codex;
pub mod text;
pub mod skills;
pub mod surfaces;
pub mod gateway;
pub mod arena;
pub mod net;
pub mod selfplay;
pub mod cli;
