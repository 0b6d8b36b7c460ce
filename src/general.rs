//! What the `General` section becomes: the log level, the inbounds and the
//! DNS settings.
use vstd::prelude::*;
use crate::conf::{General, GeneralModel};
use crate::internal::{
    Dns, DnsModel, Inbound, InboundModel, InboundSettings, InboundSettingsModel, LogLevel,
    TunInboundSettings, TunSettingsModel, inbounds_view,
};
use crate::text::{lemma_views_push, opt_seq_views, opt_view, seq_views, str_eq};

verus! {

/// The log level: INFO when none is set, WARN for an unknown name.
pub open spec fn level_of(g: Option<GeneralModel>) -> LogLevel {
    match g {
        Some(g) => match g.loglevel {
            Some(l) => if l == "trace"@ {
                LogLevel::Trace
            } else if l == "debug"@ {
                LogLevel::Debug
            } else if l == "info"@ {
                LogLevel::Info
            } else if l == "warn"@ {
                LogLevel::Warn
            } else if l == "error"@ {
                LogLevel::Error
            } else {
                LogLevel::Warn
            },
            None => LogLevel::Info,
        },
        None => LogLevel::Info,
    }
}

pub open spec fn seq_or_empty(o: Option<Seq<Seq<char>>>) -> Seq<Seq<char>> {
    match o {
        Some(v) => v,
        None => Seq::<Seq<char>>::empty(),
    }
}

pub open spec fn str_or_empty(o: Option<Seq<char>>) -> Seq<char> {
    match o {
        Some(s) => s,
        None => Seq::<char>::empty(),
    }
}

/// The TUN inbound's settings: an open descriptor wins over a described device.
pub open spec fn tun_settings(g: GeneralModel) -> TunSettingsModel {
    let exclude = seq_or_empty(g.always_real_ip);
    match g.tun_fd {
        Some(fd) => TunSettingsModel {
            fd,
            name: Seq::<char>::empty(),
            address: Seq::<char>::empty(),
            gateway: Seq::<char>::empty(),
            netmask: Seq::<char>::empty(),
            mtu: 0,
            fake_dns_exclude: exclude,
        },
        None => {
            let t = g.tun->0;
            TunSettingsModel {
                fd: -1i32,
                name: str_or_empty(t.name),
                address: str_or_empty(t.address),
                gateway: str_or_empty(t.gateway),
                netmask: str_or_empty(t.netmask),
                mtu: match t.mtu {
                    Some(m) => m,
                    None => 1500,
                },
                fake_dns_exclude: exclude,
            }
        },
    }
}

/// The inbounds: HTTP, SOCKS and TUN, each where its settings are present.
pub open spec fn inbounds_of(g: Option<GeneralModel>) -> Seq<InboundModel> {
    match g {
        Some(g) => {
            let http = if g.interface is Some && g.port is Some {
                seq![
                    InboundModel {
                        protocol: "http"@,
                        listen: g.interface->0,
                        port: g.port->0 as u32,
                        settings: InboundSettingsModel::Empty,
                    },
                ]
            } else {
                Seq::<InboundModel>::empty()
            };
            let socks = if g.socks_interface is Some && g.socks_port is Some {
                seq![
                    InboundModel {
                        protocol: "socks"@,
                        listen: g.socks_interface->0,
                        port: g.socks_port->0 as u32,
                        settings: InboundSettingsModel::Socks { bind: g.socks_interface->0 },
                    },
                ]
            } else {
                Seq::<InboundModel>::empty()
            };
            let tun = if g.tun_fd is Some || g.tun is Some {
                seq![
                    InboundModel {
                        protocol: "tun"@,
                        listen: Seq::<char>::empty(),
                        port: 0,
                        settings: InboundSettingsModel::Tun(tun_settings(g)),
                    },
                ]
            } else {
                Seq::<InboundModel>::empty()
            };
            http + socks + tun
        },
        None => Seq::<InboundModel>::empty(),
    }
}

/// The DNS settings. Default servers are filled in only where a server list
/// is present and empty.
pub open spec fn dns_of(g: Option<GeneralModel>) -> DnsModel {
    match g {
        Some(g) => DnsModel {
            bind: match g.dns_interface {
                Some(b) => b,
                None => "0.0.0.0"@,
            },
            servers: match g.dns_server {
                Some(v) => if v.len() == 0 {
                    seq!["114.114.114.114"@, "8.8.8.8"@]
                } else {
                    v
                },
                None => Seq::<Seq<char>>::empty(),
            },
        },
        None => DnsModel { bind: Seq::<char>::empty(), servers: Seq::<Seq<char>>::empty() },
    }
}

pub fn log_level(g: &Option<General>) -> (r: LogLevel)
    ensures
        r == level_of(
            match g {
                Some(x) => Some(x@),
                None => None,
            },
        ),
{
    match g {
        Some(g) => match &g.loglevel {
            Some(l) => {
                let l = l.as_str();
                if str_eq(l, "trace") {
                    LogLevel::Trace
                } else if str_eq(l, "debug") {
                    LogLevel::Debug
                } else if str_eq(l, "info") {
                    LogLevel::Info
                } else if str_eq(l, "warn") {
                    LogLevel::Warn
                } else if str_eq(l, "error") {
                    LogLevel::Error
                } else {
                    LogLevel::Warn
                }
            },
            None => LogLevel::Info,
        },
        None => LogLevel::Info,
    }
}

fn copy_strings(v: &Vec<String>) -> (r: Vec<String>)
    ensures
        seq_views(r@) == seq_views(v@),
{
    let mut r: Vec<String> = Vec::new();
    let mut i: usize = 0;
    while i < v.len()
        invariant
            i <= v.len(),
            seq_views(r@) == seq_views(v@).take(i as int),
        decreases v.len() - i,
    {
        let x = v[i].clone();
        proof {
            lemma_views_push(r@, x);
        }
        r.push(x);
        assert(seq_views(r@) =~= seq_views(v@).take(i + 1));
        i = i + 1;
    }
    assert(seq_views(v@).take(v.len() as int) =~= seq_views(v@));
    r
}

fn copy_or_empty(o: &Option<String>) -> (r: String)
    ensures
        r@ == str_or_empty(opt_view(*o)),
{
    match o {
        Some(s) => s.clone(),
        None => String::new(),
    }
}

fn tun_inbound_settings(g: &General) -> (r: TunInboundSettings)
    requires
        g.tun_fd is Some || g.tun is Some,
    ensures
        r@ == tun_settings(g@),
{
    let exclude = match &g.always_real_ip {
        Some(v) => copy_strings(v),
        None => Vec::new(),
    };
    assert(seq_views(exclude@) =~= seq_or_empty(opt_seq_views(g.always_real_ip)));
    match g.tun_fd {
        Some(fd) => TunInboundSettings {
            fd,
            name: String::new(),
            address: String::new(),
            gateway: String::new(),
            netmask: String::new(),
            mtu: 0,
            fake_dns_exclude: exclude,
        },
        None => {
            let t = match &g.tun {
                Some(t) => t,
                None => {
                    assert(false);
                    return TunInboundSettings {
                        fd: -1,
                        name: String::new(),
                        address: String::new(),
                        gateway: String::new(),
                        netmask: String::new(),
                        mtu: 0,
                        fake_dns_exclude: exclude,
                    };
                },
            };
            TunInboundSettings {
                fd: -1,
                name: copy_or_empty(&t.name),
                address: copy_or_empty(&t.address),
                gateway: copy_or_empty(&t.gateway),
                netmask: copy_or_empty(&t.netmask),
                mtu: match t.mtu {
                    Some(m) => m,
                    None => 1500,
                },
                fake_dns_exclude: exclude,
            }
        },
    }
}

fn push_inbound(v: &mut Vec<Inbound>, x: Inbound)
    ensures
        inbounds_view(final(v)@) == inbounds_view(old(v)@).push(x@),
{
    v.push(x);
    assert(inbounds_view(v@) =~= inbounds_view(old(v)@).push(x@));
}

/// The inbounds that the `General` settings ask for.
pub fn build_inbounds(g: &Option<General>) -> (r: Vec<Inbound>)
    ensures
        inbounds_view(r@) == inbounds_of(
            match g {
                Some(x) => Some(x@),
                None => None,
            },
        ),
{
    let mut r: Vec<Inbound> = Vec::new();
    let g = match g {
        Some(g) => g,
        None => {
            assert(inbounds_view(r@) =~= Seq::<InboundModel>::empty());
            return r;
        },
    };
    let ghost gm = g@;
    assert(inbounds_view(r@) =~= Seq::<InboundModel>::empty());
    if let (Some(i), Some(p)) = (&g.interface, g.port) {
        let x = Inbound {
            protocol: String::from_str("http"),
            listen: i.clone(),
            port: p as u32,
            settings: InboundSettings::Empty,
        };
        push_inbound(&mut r, x);
    }
    let ghost after_http = inbounds_view(r@);
    if let (Some(i), Some(p)) = (&g.socks_interface, g.socks_port) {
        let x = Inbound {
            protocol: String::from_str("socks"),
            listen: i.clone(),
            port: p as u32,
            settings: InboundSettings::Socks { bind: i.clone() },
        };
        push_inbound(&mut r, x);
    }
    let ghost after_socks = inbounds_view(r@);
    if g.tun_fd.is_some() || g.tun.is_some() {
        let x = Inbound {
            protocol: String::from_str("tun"),
            listen: String::new(),
            port: 0,
            settings: InboundSettings::Tun(tun_inbound_settings(g)),
        };
        push_inbound(&mut r, x);
    }
    assert(inbounds_view(r@) =~= inbounds_of(Some(gm)));
    r
}

/// The DNS settings of the `General` section.
pub fn build_dns(g: &Option<General>) -> (r: Dns)
    ensures
        (DnsModel { bind: r.bind@, servers: seq_views(r.servers@) }) == dns_of(
            match g {
                Some(x) => Some(x@),
                None => None,
            },
        ),
{
    match g {
        Some(g) => {
            let bind = match &g.dns_interface {
                Some(b) => b.clone(),
                None => String::from_str("0.0.0.0"),
            };
            let mut servers: Vec<String> = Vec::new();
            if let Some(v) = &g.dns_server {
                servers = copy_strings(v);
                if servers.len() == 0 {
                    servers.push(String::from_str("114.114.114.114"));
                    servers.push(String::from_str("8.8.8.8"));
                    assert(seq_views(servers@) =~= seq!["114.114.114.114"@, "8.8.8.8"@]);
                }
            } else {
                assert(seq_views(servers@) =~= Seq::<Seq<char>>::empty());
            }
            Dns { bind, servers }
        },
        None => {
            let r = Dns { bind: String::new(), servers: Vec::new() };
            assert(seq_views(r.servers@) =~= Seq::<Seq<char>>::empty());
            r
        },
    }
}

} // verus!
