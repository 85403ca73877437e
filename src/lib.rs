// A reverse proxy's routing rules: the wildcard host grammar, protocol
// upgrade negotiation, and the per-request decisions.
pub mod host;
pub mod proxy;
pub mod upgrade;
