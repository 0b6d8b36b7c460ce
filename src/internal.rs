//! The internal configuration: what the proxy runtime consumes.
use vstd::prelude::*;
use crate::text::seq_views;

verus! {

#[derive(Debug, Clone, Copy, PartialEq, Eq, Structural)]
pub enum LogLevel {
    Trace,
    Debug,
    Info,
    Warn,
    Error,
}

#[derive(Debug, Clone, Copy, PartialEq, Eq, Structural)]
pub enum LogOutput {
    Console,
}

#[derive(Debug)]
pub struct Log {
    pub level: LogLevel,
    pub output: LogOutput,
}

/// Settings of a TUN inbound; `fd` is -1 where the device is described by
/// its parts rather than handed over open.
#[derive(Debug)]
pub struct TunInboundSettings {
    pub fd: i32,
    pub name: String,
    pub address: String,
    pub gateway: String,
    pub netmask: String,
    pub mtu: i32,
    pub fake_dns_exclude: Vec<String>,
}

#[derive(Debug)]
pub enum InboundSettings {
    Empty,
    Socks { bind: String },
    Tun(TunInboundSettings),
}

#[derive(Debug)]
pub struct Inbound {
    pub protocol: String,
    pub listen: String,
    pub port: u32,
    pub settings: InboundSettings,
}

/// The settings payload of an outbound, one variant per protocol or strategy.
#[derive(Debug)]
pub enum OutboundSettings {
    Empty,
    Shadowsocks { address: String, port: u32, method: String, password: String },
    Tls { server_name: String },
    WebSocket { path: String },
    Trojan { address: String, port: u32, password: String },
    VMess { address: String, port: u32, uuid: String, security: String },
    VLess { address: String, port: u32, uuid: String },
    Chain { actors: Vec<String> },
    TryAll { actors: Vec<String>, delay_base: u32 },
    Random { actors: Vec<String> },
    FailOver {
        actors: Vec<String>,
        fail_timeout: u32,
        health_check: bool,
        check_interval: u32,
        failover: bool,
    },
}

#[derive(Debug)]
pub struct Outbound {
    pub protocol: String,
    pub tag: String,
    pub bind: String,
    pub settings: OutboundSettings,
}

/// How a domain matcher compares: substring, suffix or full match.
#[derive(Debug, Clone, Copy, PartialEq, Eq, Structural)]
pub enum DomainType {
    Plain,
    Domain,
    Full,
}

#[derive(Debug)]
pub struct Domain {
    pub field_type: DomainType,
    pub value: String,
}

/// A country lookup in an IP database file.
#[derive(Debug)]
pub struct Mmdb {
    pub file: String,
    pub country_code: String,
}

/// A routing rule: traffic that one of its matchers accepts goes to
/// `target_tag`. `external` holds the names of external rule sets as they
/// were written; nothing in this library expands them.
#[derive(Debug)]
pub struct RoutingRule {
    pub target_tag: String,
    pub ip_cidrs: Vec<String>,
    pub domains: Vec<Domain>,
    pub mmdbs: Vec<Mmdb>,
    pub external: Vec<String>,
}

#[derive(Debug)]
pub struct Dns {
    pub bind: String,
    pub servers: Vec<String>,
}

/// The internal configuration. The first outbound is the default one.
#[derive(Debug)]
pub struct InternalConfig {
    pub log: Log,
    pub inbounds: Vec<Inbound>,
    pub outbounds: Vec<Outbound>,
    pub routing_rules: Vec<RoutingRule>,
    pub dns: Dns,
}

pub ghost struct TunSettingsModel {
    pub fd: i32,
    pub name: Seq<char>,
    pub address: Seq<char>,
    pub gateway: Seq<char>,
    pub netmask: Seq<char>,
    pub mtu: i32,
    pub fake_dns_exclude: Seq<Seq<char>>,
}

pub ghost enum InboundSettingsModel {
    Empty,
    Socks { bind: Seq<char> },
    Tun(TunSettingsModel),
}

pub ghost struct InboundModel {
    pub protocol: Seq<char>,
    pub listen: Seq<char>,
    pub port: u32,
    pub settings: InboundSettingsModel,
}

pub ghost enum SettingsModel {
    Empty,
    Shadowsocks { address: Seq<char>, port: u32, method: Seq<char>, password: Seq<char> },
    Tls { server_name: Seq<char> },
    WebSocket { path: Seq<char> },
    Trojan { address: Seq<char>, port: u32, password: Seq<char> },
    VMess { address: Seq<char>, port: u32, uuid: Seq<char>, security: Seq<char> },
    VLess { address: Seq<char>, port: u32, uuid: Seq<char> },
    Chain { actors: Seq<Seq<char>> },
    TryAll { actors: Seq<Seq<char>>, delay_base: u32 },
    Random { actors: Seq<Seq<char>> },
    FailOver {
        actors: Seq<Seq<char>>,
        fail_timeout: u32,
        health_check: bool,
        check_interval: u32,
        failover: bool,
    },
}

pub ghost struct OutboundModel {
    pub protocol: Seq<char>,
    pub tag: Seq<char>,
    pub bind: Seq<char>,
    pub settings: SettingsModel,
}

pub ghost struct DomainModel {
    pub field_type: DomainType,
    pub value: Seq<char>,
}

pub ghost struct MmdbModel {
    pub file: Seq<char>,
    pub country_code: Seq<char>,
}

pub ghost struct RoutingRuleModel {
    pub target_tag: Seq<char>,
    pub ip_cidrs: Seq<Seq<char>>,
    pub domains: Seq<DomainModel>,
    pub mmdbs: Seq<MmdbModel>,
    pub external: Seq<Seq<char>>,
}

pub ghost struct DnsModel {
    pub bind: Seq<char>,
    pub servers: Seq<Seq<char>>,
}

pub ghost struct InternalModel {
    pub level: LogLevel,
    pub output: LogOutput,
    pub inbounds: Seq<InboundModel>,
    pub outbounds: Seq<OutboundModel>,
    pub routing_rules: Seq<RoutingRuleModel>,
    pub dns: DnsModel,
}

impl View for TunInboundSettings {
    type V = TunSettingsModel;

    open spec fn view(&self) -> TunSettingsModel {
        TunSettingsModel {
            fd: self.fd,
            name: self.name@,
            address: self.address@,
            gateway: self.gateway@,
            netmask: self.netmask@,
            mtu: self.mtu,
            fake_dns_exclude: seq_views(self.fake_dns_exclude@),
        }
    }
}

impl View for InboundSettings {
    type V = InboundSettingsModel;

    open spec fn view(&self) -> InboundSettingsModel {
        match self {
            InboundSettings::Empty => InboundSettingsModel::Empty,
            InboundSettings::Socks { bind } => InboundSettingsModel::Socks { bind: bind@ },
            InboundSettings::Tun(t) => InboundSettingsModel::Tun(t@),
        }
    }
}

impl View for Inbound {
    type V = InboundModel;

    open spec fn view(&self) -> InboundModel {
        InboundModel {
            protocol: self.protocol@,
            listen: self.listen@,
            port: self.port,
            settings: self.settings@,
        }
    }
}

impl View for OutboundSettings {
    type V = SettingsModel;

    open spec fn view(&self) -> SettingsModel {
        match self {
            OutboundSettings::Empty => SettingsModel::Empty,
            OutboundSettings::Shadowsocks { address, port, method, password } => {
                SettingsModel::Shadowsocks {
                    address: address@,
                    port: *port,
                    method: method@,
                    password: password@,
                }
            },
            OutboundSettings::Tls { server_name } => SettingsModel::Tls { server_name: server_name@ },
            OutboundSettings::WebSocket { path } => SettingsModel::WebSocket { path: path@ },
            OutboundSettings::Trojan { address, port, password } => SettingsModel::Trojan {
                address: address@,
                port: *port,
                password: password@,
            },
            OutboundSettings::VMess { address, port, uuid, security } => SettingsModel::VMess {
                address: address@,
                port: *port,
                uuid: uuid@,
                security: security@,
            },
            OutboundSettings::VLess { address, port, uuid } => SettingsModel::VLess {
                address: address@,
                port: *port,
                uuid: uuid@,
            },
            OutboundSettings::Chain { actors } => SettingsModel::Chain { actors: seq_views(actors@) },
            OutboundSettings::TryAll { actors, delay_base } => SettingsModel::TryAll {
                actors: seq_views(actors@),
                delay_base: *delay_base,
            },
            OutboundSettings::Random { actors } => SettingsModel::Random {
                actors: seq_views(actors@),
            },
            OutboundSettings::FailOver {
                actors,
                fail_timeout,
                health_check,
                check_interval,
                failover,
            } => SettingsModel::FailOver {
                actors: seq_views(actors@),
                fail_timeout: *fail_timeout,
                health_check: *health_check,
                check_interval: *check_interval,
                failover: *failover,
            },
        }
    }
}

impl View for Outbound {
    type V = OutboundModel;

    open spec fn view(&self) -> OutboundModel {
        OutboundModel {
            protocol: self.protocol@,
            tag: self.tag@,
            bind: self.bind@,
            settings: self.settings@,
        }
    }
}

impl View for Domain {
    type V = DomainModel;

    open spec fn view(&self) -> DomainModel {
        DomainModel { field_type: self.field_type, value: self.value@ }
    }
}

impl View for Mmdb {
    type V = MmdbModel;

    open spec fn view(&self) -> MmdbModel {
        MmdbModel { file: self.file@, country_code: self.country_code@ }
    }
}

impl View for RoutingRule {
    type V = RoutingRuleModel;

    open spec fn view(&self) -> RoutingRuleModel {
        RoutingRuleModel {
            target_tag: self.target_tag@,
            ip_cidrs: seq_views(self.ip_cidrs@),
            domains: self.domains@.map_values(|d: Domain| d@),
            mmdbs: self.mmdbs@.map_values(|m: Mmdb| m@),
            external: seq_views(self.external@),
        }
    }
}

pub open spec fn inbounds_view(v: Seq<Inbound>) -> Seq<InboundModel> {
    v.map_values(|x: Inbound| x@)
}

pub open spec fn outbounds_view(v: Seq<Outbound>) -> Seq<OutboundModel> {
    v.map_values(|x: Outbound| x@)
}

pub open spec fn routing_rules_view(v: Seq<RoutingRule>) -> Seq<RoutingRuleModel> {
    v.map_values(|x: RoutingRule| x@)
}

impl View for InternalConfig {
    type V = InternalModel;

    open spec fn view(&self) -> InternalModel {
        InternalModel {
            level: self.log.level,
            output: self.log.output,
            inbounds: inbounds_view(self.inbounds@),
            outbounds: outbounds_view(self.outbounds@),
            routing_rules: routing_rules_view(self.routing_rules@),
            dns: DnsModel { bind: self.dns.bind@, servers: seq_views(self.dns.servers@) },
        }
    }
}

} // verus!
