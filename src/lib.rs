//! Translation of an INI-like proxy configuration into a strict internal
//! model: a lenient line decoder builds the external configuration, and a
//! translator expands it into inbounds, outbound chains, routing rules, log
//! and DNS settings.
pub mod conf;
pub mod general;
pub mod internal;
pub mod text;
pub mod translate;

pub use conf::{from_lines, Config, General, Proxy, ProxyGroup, Rule, TUN};
pub use internal::{
    Dns, Domain, DomainType, Inbound, InboundSettings, InternalConfig, Log, LogLevel, LogOutput,
    Mmdb, Outbound, OutboundSettings, RoutingRule, TunInboundSettings,
};
pub use translate::{to_internal, TranslateError};
