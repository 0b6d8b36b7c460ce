//! Translation of the external configuration into the internal one: the
//! outbound chains, the proxy groups, the routing rules with FINAL handling,
//! the inbounds, the log and DNS settings.
use vstd::prelude::*;
use crate::conf::{
    Config, ConfigModel, GroupModel, Proxy, ProxyGroup, ProxyModel, Rule, RuleModel, groups_view,
    proxies_view, rules_view,
};
use crate::general::{build_dns, build_inbounds, dns_of, inbounds_of, level_of, log_level};
use crate::internal::{
    Domain, DomainModel, DomainType, InternalConfig, InternalModel, Log, LogOutput, Mmdb, MmdbModel,
    Outbound, OutboundModel, OutboundSettings, RoutingRule, RoutingRuleModel, SettingsModel,
    outbounds_view, routing_rules_view,
};
use crate::text::{lemma_views_push, opt_seq_views, seq_views, str_eq};

verus! {

/// Why a configuration cannot be translated: a vmess or vless proxy lacks
/// its address, port or username.
#[derive(Debug, Clone, Copy, PartialEq, Eq, Structural)]
pub enum TranslateError {
    InvalidVMessSettings,
    InvalidVLessSettings,
}

impl TranslateError {
    /// A description of the error for people.
    pub fn message(&self) -> (r: String)
        ensures
            r@ == match self {
                TranslateError::InvalidVMessSettings => "invalid vmess outbound settings"@,
                TranslateError::InvalidVLessSettings => "invalid vless outbound settings"@,
            },
    {
        match self {
            TranslateError::InvalidVMessSettings => String::from_str("invalid vmess outbound settings"),
            TranslateError::InvalidVLessSettings => String::from_str("invalid vless outbound settings"),
        }
    }
}

pub open spec fn or_empty(o: Option<Seq<char>>) -> Seq<char> {
    match o {
        Some(s) => s,
        None => Seq::<char>::empty(),
    }
}

pub open spec fn or_else(o: Option<Seq<char>>, d: Seq<char>) -> Seq<char> {
    match o {
        Some(s) => s,
        None => d,
    }
}

pub open spec fn port_of(o: Option<u16>) -> u32 {
    match o {
        Some(p) => p as u32,
        None => 0,
    }
}

pub open spec fn flag(o: Option<bool>) -> bool {
    match o {
        Some(b) => b,
        None => false,
    }
}

pub open spec fn norm_protocol(p: Seq<char>) -> Seq<char> {
    if p == "ss"@ {
        "shadowsocks"@
    } else {
        p
    }
}

pub open spec fn default_method() -> Seq<char> {
    "chacha20-ietf-poly1305"@
}

pub open spec fn tls_outbound(p: ProxyModel) -> OutboundModel {
    OutboundModel {
        protocol: "tls"@,
        tag: p.tag + "_tls_xxx"@,
        bind: p.interface,
        settings: SettingsModel::Tls { server_name: or_empty(p.sni) },
    }
}

pub open spec fn ws_outbound(p: ProxyModel) -> OutboundModel {
    OutboundModel {
        protocol: "ws"@,
        tag: p.tag + "_ws_xxx"@,
        bind: p.interface,
        settings: SettingsModel::WebSocket { path: or_else(p.ws_path, "/"@) },
    }
}

/// The base outbound of a chain-producing proxy, which the chain ends with.
pub open spec fn base_outbound(p: ProxyModel) -> OutboundModel {
    let proto = norm_protocol(p.protocol);
    OutboundModel {
        protocol: proto,
        tag: p.tag + "_"@ + proto + "_xxx"@,
        bind: p.interface,
        settings: if proto == "trojan"@ {
            SettingsModel::Trojan {
                address: or_empty(p.address),
                port: port_of(p.port),
                password: or_empty(p.password),
            }
        } else if proto == "vmess"@ {
            SettingsModel::VMess {
                address: or_empty(p.address),
                port: port_of(p.port),
                uuid: or_empty(p.username),
                security: or_else(p.encrypt_method, default_method()),
            }
        } else {
            SettingsModel::VLess {
                address: or_empty(p.address),
                port: port_of(p.port),
                uuid: or_empty(p.username),
            }
        },
    }
}

pub open spec fn opt_item<A>(b: bool, x: A) -> Seq<A> {
    if b {
        seq![x]
    } else {
        Seq::<A>::empty()
    }
}

/// The actors of a chain: TLS outermost, then WebSocket, then the base protocol.
pub open spec fn chain_actors(p: ProxyModel, tls: bool, ws: bool) -> Seq<Seq<char>> {
    opt_item(tls, tls_outbound(p).tag) + opt_item(ws, ws_outbound(p).tag) + seq![
        base_outbound(p).tag,
    ]
}

/// The chain outbound under the proxy's own tag, then the layers it names.
pub open spec fn chain_outbounds(p: ProxyModel, tls: bool, ws: bool) -> Seq<OutboundModel> {
    seq![
        OutboundModel {
            protocol: "chain"@,
            tag: p.tag,
            bind: Seq::<char>::empty(),
            settings: SettingsModel::Chain { actors: chain_actors(p, tls, ws) },
        },
    ] + opt_item(tls, tls_outbound(p)) + opt_item(ws, ws_outbound(p)) + seq![base_outbound(p)]
}

/// The error of a vmess or vless proxy without address, port or username.
pub open spec fn proxy_error(p: ProxyModel) -> Option<TranslateError> {
    let proto = norm_protocol(p.protocol);
    let missing = p.address is None || p.port is None || p.username is None;
    if proto == "direct"@ || proto == "drop"@ || proto == "shadowsocks"@ || proto == "trojan"@
        || !missing {
        None
    } else if proto == "vmess"@ {
        Some(TranslateError::InvalidVMessSettings)
    } else if proto == "vless"@ {
        Some(TranslateError::InvalidVLessSettings)
    } else {
        None
    }
}

/// The outbounds that one proxy expands to.
pub open spec fn proxy_outbounds(p: ProxyModel) -> Seq<OutboundModel> {
    let proto = norm_protocol(p.protocol);
    if proto == "direct"@ || proto == "drop"@ {
        seq![OutboundModel { protocol: proto, tag: p.tag, bind: p.interface, settings: SettingsModel::Empty }]
    } else if proto == "shadowsocks"@ {
        seq![
            OutboundModel {
                protocol: proto,
                tag: p.tag,
                bind: p.interface,
                settings: SettingsModel::Shadowsocks {
                    address: or_empty(p.address),
                    port: port_of(p.port),
                    method: or_else(p.encrypt_method, default_method()),
                    password: or_empty(p.password),
                },
            },
        ]
    } else if proto == "trojan"@ {
        chain_outbounds(p, true, false)
    } else if proto == "vmess"@ || proto == "vless"@ {
        chain_outbounds(p, flag(p.tls), flag(p.ws))
    } else {
        Seq::<OutboundModel>::empty()
    }
}

fn suffixed(tag: &String, suffix: &str) -> (r: String)
    ensures
        r@ == tag@ + suffix@,
{
    let mut s = tag.clone();
    s.append(suffix);
    s
}

fn string_or(o: &Option<String>, d: &str) -> (r: String)
    ensures
        r@ == match o {
            Some(s) => s@,
            None => d@,
        },
{
    match o {
        Some(s) => s.clone(),
        None => String::from_str(d),
    }
}

fn string_or_empty(o: &Option<String>) -> (r: String)
    ensures
        r@ == or_empty(match o {
            Some(s) => Some(s@),
            None => None,
        }),
{
    match o {
        Some(s) => s.clone(),
        None => String::new(),
    }
}

fn port_value(o: Option<u16>) -> (r: u32)
    ensures
        r == port_of(o),
{
    match o {
        Some(p) => p as u32,
        None => 0,
    }
}

fn push_outbound(out: &mut Vec<Outbound>, o: Outbound)
    ensures
        outbounds_view(final(out)@) == outbounds_view(old(out)@).push(o@),
{
    out.push(o);
    assert(outbounds_view(out@) =~= outbounds_view(old(out)@).push(o@));
}

/// Appends the chain of `p`, with the TLS and WebSocket layers that `tls`
/// and `ws` ask for.
fn push_chain(p: &Proxy, tls: bool, ws: bool, out: &mut Vec<Outbound>)
    requires
        norm_protocol(p@.protocol) == "trojan"@ || norm_protocol(p@.protocol) == "vmess"@
            || norm_protocol(p@.protocol) == "vless"@,
    ensures
        outbounds_view(final(out)@) == outbounds_view(old(out)@) + chain_outbounds(p@, tls, ws),
{
    let ghost start = outbounds_view(out@);
    let proto = if str_eq(p.protocol.as_str(), "ss") {
        String::from_str("shadowsocks")
    } else {
        p.protocol.clone()
    };
    let tls_tag = suffixed(&p.tag, "_tls_xxx");
    let ws_tag = suffixed(&p.tag, "_ws_xxx");
    let base_tag = suffixed(&suffixed(&suffixed(&p.tag, "_"), proto.as_str()), "_xxx");
    let address = string_or_empty(&p.address);
    let port = port_value(p.port);
    let settings = if str_eq(proto.as_str(), "trojan") {
        OutboundSettings::Trojan { address, port, password: string_or_empty(&p.password) }
    } else if str_eq(proto.as_str(), "vmess") {
        OutboundSettings::VMess {
            address,
            port,
            uuid: string_or_empty(&p.username),
            security: string_or(&p.encrypt_method, "chacha20-ietf-poly1305"),
        }
    } else {
        OutboundSettings::VLess { address, port, uuid: string_or_empty(&p.username) }
    };
    let base = Outbound { protocol: proto, tag: base_tag, bind: p.interface.clone(), settings };
    assert(base@ == base_outbound(p@));
    let mut actors: Vec<String> = Vec::new();
    if tls {
        actors.push(tls_tag.clone());
    }
    if ws {
        actors.push(ws_tag.clone());
    }
    actors.push(base.tag.clone());
    assert(seq_views(actors@) =~= chain_actors(p@, tls, ws));
    let chain = Outbound {
        protocol: String::from_str("chain"),
        tag: p.tag.clone(),
        bind: String::new(),
        settings: OutboundSettings::Chain { actors },
    };
    push_outbound(out, chain);
    if tls {
        let t = Outbound {
            protocol: String::from_str("tls"),
            tag: tls_tag,
            bind: p.interface.clone(),
            settings: OutboundSettings::Tls { server_name: string_or_empty(&p.sni) },
        };
        push_outbound(out, t);
    }
    if ws {
        let w = Outbound {
            protocol: String::from_str("ws"),
            tag: ws_tag,
            bind: p.interface.clone(),
            settings: OutboundSettings::WebSocket { path: string_or(&p.ws_path, "/") },
        };
        push_outbound(out, w);
    }
    push_outbound(out, base);
    assert(outbounds_view(out@) =~= start + chain_outbounds(p@, tls, ws));
}

/// Appends the outbounds of one proxy; fails on a vmess or vless proxy
/// without address, port or username.
fn push_proxy(p: &Proxy, out: &mut Vec<Outbound>) -> (r: Result<(), TranslateError>)
    ensures
        match r {
            Ok(_) => proxy_error(p@) is None && outbounds_view(final(out)@) == outbounds_view(
                old(out)@,
            ) + proxy_outbounds(p@),
            Err(e) => proxy_error(p@) == Some(e),
        },
{
    let ghost start = outbounds_view(out@);
    let proto = if str_eq(p.protocol.as_str(), "ss") {
        String::from_str("shadowsocks")
    } else {
        p.protocol.clone()
    };
    let pr = proto.as_str();
    if str_eq(pr, "direct") || str_eq(pr, "drop") {
        let o = Outbound {
            protocol: proto,
            tag: p.tag.clone(),
            bind: p.interface.clone(),
            settings: OutboundSettings::Empty,
        };
        push_outbound(out, o);
        assert(outbounds_view(out@) =~= start + proxy_outbounds(p@));
    } else if str_eq(pr, "shadowsocks") {
        let settings = OutboundSettings::Shadowsocks {
            address: string_or_empty(&p.address),
            port: port_value(p.port),
            method: string_or(&p.encrypt_method, "chacha20-ietf-poly1305"),
            password: string_or_empty(&p.password),
        };
        let o = Outbound { protocol: proto, tag: p.tag.clone(), bind: p.interface.clone(), settings };
        push_outbound(out, o);
        assert(outbounds_view(out@) =~= start + proxy_outbounds(p@));
    } else if str_eq(pr, "trojan") {
        push_chain(p, true, false, out);
    } else if str_eq(pr, "vmess") || str_eq(pr, "vless") {
        if p.address.is_none() || p.port.is_none() || p.username.is_none() {
            if str_eq(pr, "vmess") {
                return Err(TranslateError::InvalidVMessSettings);
            } else {
                return Err(TranslateError::InvalidVLessSettings);
            }
        }
        let tls = match p.tls {
            Some(b) => b,
            None => false,
        };
        let ws = match p.ws {
            Some(b) => b,
            None => false,
        };
        push_chain(p, tls, ws, out);
        assert(proxy_error(p@) is None);
        assert(outbounds_view(out@) =~= start + proxy_outbounds(p@));
    } else {
        assert(outbounds_view(out@) =~= start + proxy_outbounds(p@));
    }
    Ok(())
}

/// The first error among the proxies, in order.
pub open spec fn proxies_error(ps: Seq<ProxyModel>) -> Option<TranslateError>
    decreases ps.len(),
{
    if ps.len() == 0 {
        None
    } else {
        match proxies_error(ps.drop_last()) {
            Some(e) => Some(e),
            None => proxy_error(ps.last()),
        }
    }
}

/// The outbounds of all the proxies, in order.
pub open spec fn proxies_outbounds(ps: Seq<ProxyModel>) -> Seq<OutboundModel>
    decreases ps.len(),
{
    if ps.len() == 0 {
        Seq::<OutboundModel>::empty()
    } else {
        proxies_outbounds(ps.drop_last()) + proxy_outbounds(ps.last())
    }
}

pub open spec fn actors_or_empty(o: Option<Seq<Seq<char>>>) -> Seq<Seq<char>> {
    match o {
        Some(a) => a,
        None => Seq::<Seq<char>>::empty(),
    }
}

pub open spec fn u32_or(o: Option<i32>, d: u32) -> u32 {
    match o {
        Some(x) => x as u32,
        None => d,
    }
}

pub open spec fn bool_or(o: Option<bool>, d: bool) -> bool {
    match o {
        Some(x) => x,
        None => d,
    }
}

/// The outbound of a proxy group, none for an unknown strategy.
pub open spec fn group_outbounds(g: GroupModel) -> Seq<OutboundModel> {
    let actors = actors_or_empty(g.actors);
    let ob = |settings: SettingsModel|
        OutboundModel { protocol: g.protocol, tag: g.tag, bind: "0.0.0.0"@, settings };
    if g.protocol == "tryall"@ {
        seq![ob(SettingsModel::TryAll { actors, delay_base: u32_or(g.delay_base, 0) })]
    } else if g.protocol == "random"@ {
        seq![ob(SettingsModel::Random { actors })]
    } else if g.protocol == "failover"@ {
        seq![
            ob(
                SettingsModel::FailOver {
                    actors,
                    fail_timeout: u32_or(g.fail_timeout, 4),
                    health_check: bool_or(g.health_check, true),
                    check_interval: u32_or(g.check_interval, 300),
                    failover: bool_or(g.failover, true),
                },
            ),
        ]
    } else {
        Seq::<OutboundModel>::empty()
    }
}

pub open spec fn groups_outbounds(gs: Seq<GroupModel>) -> Seq<OutboundModel>
    decreases gs.len(),
{
    if gs.len() == 0 {
        Seq::<OutboundModel>::empty()
    } else {
        groups_outbounds(gs.drop_last()) + group_outbounds(gs.last())
    }
}

fn clone_strings(v: &Option<Vec<String>>) -> (r: Vec<String>)
    ensures
        seq_views(r@) == actors_or_empty(opt_seq_views(*v)),
{
    let mut r: Vec<String> = Vec::new();
    if let Some(a) = v {
        let mut i: usize = 0;
        while i < a.len()
            invariant
                i <= a.len(),
                seq_views(r@) == seq_views(a@).take(i as int),
            decreases a.len() - i,
        {
            let x = a[i].clone();
            proof {
                lemma_views_push(r@, x);
            }
            r.push(x);
            assert(seq_views(r@) =~= seq_views(a@).take(i + 1));
            i = i + 1;
        }
        assert(seq_views(a@).take(a.len() as int) =~= seq_views(a@));
    } else {
        assert(seq_views(r@) =~= Seq::<Seq<char>>::empty());
    }
    r
}

fn u32_value(o: Option<i32>, d: u32) -> (r: u32)
    ensures
        r == u32_or(o, d),
{
    match o {
        Some(x) => x as u32,
        None => d,
    }
}

fn bool_value(o: Option<bool>, d: bool) -> (r: bool)
    ensures
        r == bool_or(o, d),
{
    match o {
        Some(x) => x,
        None => d,
    }
}

fn push_group(g: &ProxyGroup, out: &mut Vec<Outbound>)
    ensures
        outbounds_view(final(out)@) == outbounds_view(old(out)@) + group_outbounds(g@),
{
    let ghost start = outbounds_view(out@);
    let pr = g.protocol.as_str();
    let settings = if str_eq(pr, "tryall") {
        OutboundSettings::TryAll {
            actors: clone_strings(&g.actors),
            delay_base: u32_value(g.delay_base, 0),
        }
    } else if str_eq(pr, "random") {
        OutboundSettings::Random { actors: clone_strings(&g.actors) }
    } else if str_eq(pr, "failover") {
        OutboundSettings::FailOver {
            actors: clone_strings(&g.actors),
            fail_timeout: u32_value(g.fail_timeout, 4),
            health_check: bool_value(g.health_check, true),
            check_interval: u32_value(g.check_interval, 300),
            failover: bool_value(g.failover, true),
        }
    } else {
        assert(outbounds_view(out@) =~= start + group_outbounds(g@));
        return;
    };
    let o = Outbound {
        protocol: g.protocol.clone(),
        tag: g.tag.clone(),
        bind: String::from_str("0.0.0.0"),
        settings,
    };
    push_outbound(out, o);
    assert(outbounds_view(out@) =~= start + group_outbounds(g@));
}

/// Index of the last outbound tagged `t`, or -1 where there is none.
pub open spec fn last_tag_index(obs: Seq<OutboundModel>, t: Seq<char>) -> int
    decreases obs.len(),
{
    if obs.len() == 0 {
        -1
    } else if obs.last().tag == t {
        obs.len() - 1
    } else {
        last_tag_index(obs.drop_last(), t)
    }
}

/// The outbounds with the one tagged `t` moved to the front; unchanged where
/// no outbound has that tag.
pub open spec fn move_to_front(obs: Seq<OutboundModel>, t: Seq<char>) -> Seq<OutboundModel> {
    let i = last_tag_index(obs, t);
    if i < 0 {
        obs
    } else {
        seq![obs[i]] + obs.remove(i)
    }
}

pub proof fn lemma_last_tag_index(obs: Seq<OutboundModel>, t: Seq<char>)
    ensures
        -1 <= last_tag_index(obs, t) < obs.len(),
        last_tag_index(obs, t) >= 0 ==> obs[last_tag_index(obs, t)].tag == t,
        last_tag_index(obs, t) < 0 <==> forall|k: int| 0 <= k < obs.len() ==> obs[k].tag != t,
    decreases obs.len(),
{
    if obs.len() > 0 {
        lemma_last_tag_index(obs.drop_last(), t);
        if obs.last().tag != t {
            assert forall|k: int| 0 <= k < obs.len() - 1 implies obs[k] == obs.drop_last()[k] by {}
        }
    }
}

/// Moves the outbound tagged `target` to the front, the FINAL rule's effect.
pub fn apply_final(outbounds: &mut Vec<Outbound>, target: &str)
    ensures
        outbounds_view(final(outbounds)@) == move_to_front(outbounds_view(old(outbounds)@), target@),
{
    let ghost obs = outbounds_view(outbounds@);
    let mut idx: Option<usize> = None;
    let mut i: usize = 0;
    while i < outbounds.len()
        invariant
            i <= outbounds.len(),
            obs == outbounds_view(outbounds@),
            match idx {
                Some(k) => k < i && last_tag_index(obs.take(i as int), target@) == k,
                None => last_tag_index(obs.take(i as int), target@) == -1,
            },
        decreases outbounds.len() - i,
    {
        assert(obs.take(i + 1).drop_last() =~= obs.take(i as int));
        if str_eq(outbounds[i].tag.as_str(), target) {
            idx = Some(i);
        }
        i = i + 1;
    }
    assert(obs.take(outbounds.len() as int) =~= obs);
    if let Some(k) = idx {
        let ob = outbounds.remove(k);
        outbounds.insert(0, ob);
        assert(outbounds_view(outbounds@) =~= seq![obs[k as int]] + obs.remove(k as int));
    }
}

pub open spec fn empty_rule(target: Seq<char>) -> RoutingRuleModel {
    RoutingRuleModel {
        target_tag: target,
        ip_cidrs: Seq::<Seq<char>>::empty(),
        domains: Seq::<DomainModel>::empty(),
        mmdbs: Seq::<MmdbModel>::empty(),
        external: Seq::<Seq<char>>::empty(),
    }
}

/// The routing rule compiled from a non-FINAL rule, `None` where it has no
/// filter. `mmdb_file` is the country database that GEOIP rules look up.
pub open spec fn rule_model(r: RuleModel, mmdb_file: Seq<char>) -> Option<RoutingRuleModel> {
    match r.filter {
        Some(f) => {
            let base = empty_rule(r.target);
            let t = r.type_field;
            Some(
                if t == "IP-CIDR"@ {
                    RoutingRuleModel { ip_cidrs: seq![f], ..base }
                } else if t == "DOMAIN"@ {
                    RoutingRuleModel {
                        domains: seq![DomainModel { field_type: DomainType::Full, value: f }],
                        ..base
                    }
                } else if t == "DOMAIN-KEYWORD"@ {
                    RoutingRuleModel {
                        domains: seq![DomainModel { field_type: DomainType::Plain, value: f }],
                        ..base
                    }
                } else if t == "DOMAIN-SUFFIX"@ {
                    RoutingRuleModel {
                        domains: seq![DomainModel { field_type: DomainType::Domain, value: f }],
                        ..base
                    }
                } else if t == "GEOIP"@ {
                    RoutingRuleModel {
                        mmdbs: seq![MmdbModel { file: mmdb_file, country_code: f }],
                        ..base
                    }
                } else if t == "EXTERNAL"@ {
                    RoutingRuleModel { external: seq![f], ..base }
                } else {
                    base
                },
            )
        },
        None => None,
    }
}

/// The rules applied in order to the outbounds: a FINAL rule moves its
/// target to the front, every other rule with a filter adds a routing rule.
pub open spec fn compile_rules(
    obs: Seq<OutboundModel>,
    rules: Seq<RuleModel>,
    mmdb_file: Seq<char>,
) -> (Seq<OutboundModel>, Seq<RoutingRuleModel>)
    decreases rules.len(),
{
    if rules.len() == 0 {
        (obs, Seq::<RoutingRuleModel>::empty())
    } else {
        let (o, rs) = compile_rules(obs, rules.drop_last(), mmdb_file);
        let r = rules.last();
        if r.type_field == "FINAL"@ {
            (move_to_front(o, r.target), rs)
        } else {
            match rule_model(r, mmdb_file) {
                Some(x) => (o, rs.push(x)),
                None => (o, rs),
            }
        }
    }
}

/// Compiles one non-FINAL rule.
pub fn compile_rule(r: &Rule, mmdb_file: &str) -> (res: Option<RoutingRule>)
    ensures
        match res {
            Some(x) => rule_model(r@, mmdb_file@) == Some(x@),
            None => rule_model(r@, mmdb_file@) is None,
        },
{
    let f = match &r.filter {
        Some(f) => f.clone(),
        None => return None,
    };
    let mut rule = RoutingRule {
        target_tag: r.target.clone(),
        ip_cidrs: Vec::new(),
        domains: Vec::new(),
        mmdbs: Vec::new(),
        external: Vec::new(),
    };
    let t = r.type_field.as_str();
    if str_eq(t, "IP-CIDR") {
        rule.ip_cidrs.push(f);
    } else if str_eq(t, "DOMAIN") {
        rule.domains.push(Domain { field_type: DomainType::Full, value: f });
    } else if str_eq(t, "DOMAIN-KEYWORD") {
        rule.domains.push(Domain { field_type: DomainType::Plain, value: f });
    } else if str_eq(t, "DOMAIN-SUFFIX") {
        rule.domains.push(Domain { field_type: DomainType::Domain, value: f });
    } else if str_eq(t, "GEOIP") {
        rule.mmdbs.push(Mmdb { file: String::from_str(mmdb_file), country_code: f });
    } else if str_eq(t, "EXTERNAL") {
        rule.external.push(f);
    }
    proof {
        let m = rule_model(r@, mmdb_file@)->0;
        assert(rule@.ip_cidrs =~= m.ip_cidrs);
        assert(rule@.domains =~= m.domains);
        assert(rule@.mmdbs =~= m.mmdbs);
        assert(rule@.external =~= m.external);
    }
    Some(rule)
}

pub open spec fn proxies_or_empty(c: ConfigModel) -> Seq<ProxyModel> {
    match c.proxy {
        Some(v) => v,
        None => Seq::<ProxyModel>::empty(),
    }
}

pub open spec fn groups_or_empty(c: ConfigModel) -> Seq<GroupModel> {
    match c.proxy_group {
        Some(v) => v,
        None => Seq::<GroupModel>::empty(),
    }
}

pub open spec fn rules_or_empty(c: ConfigModel) -> Seq<RuleModel> {
    match c.rule {
        Some(v) => v,
        None => Seq::<RuleModel>::empty(),
    }
}

/// Why the configuration cannot be translated, if it cannot.
pub open spec fn translate_error(c: ConfigModel) -> Option<TranslateError> {
    proxies_error(proxies_or_empty(c))
}

/// The outbounds before any FINAL rule: those of the proxies, then those of
/// the groups.
pub open spec fn built_outbounds(c: ConfigModel) -> Seq<OutboundModel> {
    proxies_outbounds(proxies_or_empty(c)) + groups_outbounds(groups_or_empty(c))
}

/// The internal configuration that `c` translates to.
pub open spec fn internal_of(c: ConfigModel, mmdb_file: Seq<char>) -> InternalModel {
    let (obs, rules) = compile_rules(built_outbounds(c), rules_or_empty(c), mmdb_file);
    InternalModel {
        level: level_of(c.general),
        output: LogOutput::Console,
        inbounds: inbounds_of(c.general),
        outbounds: obs,
        routing_rules: rules,
        dns: dns_of(c.general),
    }
}

fn push_proxies(ps: &Vec<Proxy>, out: &mut Vec<Outbound>) -> (r: Result<(), TranslateError>)
    ensures
        match r {
            Ok(_) => proxies_error(proxies_view(ps@)) is None && outbounds_view(final(out)@)
                == outbounds_view(old(out)@) + proxies_outbounds(proxies_view(ps@)),
            Err(e) => proxies_error(proxies_view(ps@)) == Some(e),
        },
{
    let ghost pv = proxies_view(ps@);
    let ghost start = outbounds_view(out@);
    let mut i: usize = 0;
    assert(pv.take(0) =~= Seq::<ProxyModel>::empty());
    assert(start =~= start + Seq::<OutboundModel>::empty());
    while i < ps.len()
        invariant
            i <= ps.len(),
            pv == proxies_view(ps@),
            proxies_error(pv.take(i as int)) is None,
            outbounds_view(out@) == start + proxies_outbounds(pv.take(i as int)),
        decreases ps.len() - i,
    {
        assert(pv.take(i + 1).drop_last() =~= pv.take(i as int));
        assert(pv.take(i + 1).last() == ps@[i as int]@);
        match push_proxy(&ps[i], out) {
            Ok(_) => {},
            Err(e) => {
                proof {
                    lemma_error_kept(pv, i + 1);
                }
                return Err(e);
            },
        }
        assert(outbounds_view(out@) =~= start + proxies_outbounds(pv.take(i + 1)));
        i = i + 1;
    }
    assert(pv.take(ps.len() as int) =~= pv);
    Ok(())
}

/// An error among the first proxies is the first error of all of them.
pub proof fn lemma_error_kept(ps: Seq<ProxyModel>, i: int)
    requires
        0 <= i <= ps.len(),
        proxies_error(ps.take(i)) is Some,
    ensures
        proxies_error(ps) == proxies_error(ps.take(i)),
    decreases ps.len() - i,
{
    if i < ps.len() {
        assert(ps.take(i + 1).drop_last() =~= ps.take(i));
        lemma_error_kept(ps, i + 1);
    } else {
        assert(ps.take(i) =~= ps);
    }
}

fn push_groups(gs: &Vec<ProxyGroup>, out: &mut Vec<Outbound>)
    ensures
        outbounds_view(final(out)@) == outbounds_view(old(out)@) + groups_outbounds(groups_view(gs@)),
{
    let ghost gv = groups_view(gs@);
    let ghost start = outbounds_view(out@);
    let mut i: usize = 0;
    assert(gv.take(0) =~= Seq::<GroupModel>::empty());
    assert(start =~= start + Seq::<OutboundModel>::empty());
    while i < gs.len()
        invariant
            i <= gs.len(),
            gv == groups_view(gs@),
            outbounds_view(out@) == start + groups_outbounds(gv.take(i as int)),
        decreases gs.len() - i,
    {
        assert(gv.take(i + 1).drop_last() =~= gv.take(i as int));
        assert(gv.take(i + 1).last() == gs@[i as int]@);
        push_group(&gs[i], out);
        assert(outbounds_view(out@) =~= start + groups_outbounds(gv.take(i + 1)));
        i = i + 1;
    }
    assert(gv.take(gs.len() as int) =~= gv);
}

fn apply_rules(rs: &Vec<Rule>, mmdb_file: &str, out: &mut Vec<Outbound>) -> (r: Vec<RoutingRule>)
    ensures
        (outbounds_view(final(out)@), routing_rules_view(r@)) == compile_rules(
            outbounds_view(old(out)@),
            rules_view(rs@),
            mmdb_file@,
        ),
{
    let ghost rv = rules_view(rs@);
    let ghost start = outbounds_view(out@);
    let mut rules: Vec<RoutingRule> = Vec::new();
    let mut i: usize = 0;
    assert(rv.take(0) =~= Seq::<RuleModel>::empty());
    assert(routing_rules_view(rules@) =~= Seq::<RoutingRuleModel>::empty());
    while i < rs.len()
        invariant
            i <= rs.len(),
            rv == rules_view(rs@),
            (outbounds_view(out@), routing_rules_view(rules@)) == compile_rules(
                start,
                rv.take(i as int),
                mmdb_file@,
            ),
        decreases rs.len() - i,
    {
        assert(rv.take(i + 1).drop_last() =~= rv.take(i as int));
        assert(rv.take(i + 1).last() == rs@[i as int]@);
        let r = &rs[i];
        if str_eq(r.type_field.as_str(), "FINAL") {
            apply_final(out, r.target.as_str());
        } else if let Some(x) = compile_rule(r, mmdb_file) {
            let ghost before = rules@;
            rules.push(x);
            assert(routing_rules_view(rules@) =~= routing_rules_view(before).push(x@));
        }
        i = i + 1;
    }
    assert(rv.take(rs.len() as int) =~= rv);
    rules
}

/// Translates the external configuration into the internal one. GEOIP rules
/// look countries up in `mmdb_file`. Fails exactly where a vmess or vless
/// proxy lacks its address, port or username.
pub fn to_internal(conf: Config, mmdb_file: &str) -> (r: Result<InternalConfig, TranslateError>)
    ensures
        match r {
            Ok(x) => translate_error(conf@) is None && x@ == internal_of(conf@, mmdb_file@),
            Err(e) => translate_error(conf@) == Some(e),
        },
{
    let level = log_level(&conf.general);
    let inbounds = build_inbounds(&conf.general);
    let mut outbounds: Vec<Outbound> = Vec::new();
    assert(outbounds_view(outbounds@) =~= Seq::<OutboundModel>::empty());
    match &conf.proxy {
        Some(ps) => {
            push_proxies(ps, &mut outbounds)?;
        },
        None => {},
    }
    assert(outbounds_view(outbounds@) =~= proxies_outbounds(proxies_or_empty(conf@)));
    match &conf.proxy_group {
        Some(gs) => push_groups(gs, &mut outbounds),
        None => {},
    }
    assert(outbounds_view(outbounds@) =~= built_outbounds(conf@));
    let routing_rules = match &conf.rule {
        Some(rs) => apply_rules(rs, mmdb_file, &mut outbounds),
        None => Vec::new(),
    };
    assert(routing_rules_view(routing_rules@) =~= compile_rules(
        built_outbounds(conf@),
        rules_or_empty(conf@),
        mmdb_file@,
    ).1);
    let dns = build_dns(&conf.general);
    Ok(
        InternalConfig {
            log: Log { level, output: LogOutput::Console },
            inbounds,
            outbounds,
            routing_rules,
            dns,
        },
    )
}

/// Moving a tag to the front keeps every outbound: one that was tagged `u`
/// before is still there afterwards.
pub proof fn lemma_move_keeps_tag(obs: Seq<OutboundModel>, t: Seq<char>, u: Seq<char>, k: int)
    requires
        0 <= k < obs.len(),
        obs[k].tag == u,
    ensures
        exists|j: int| 0 <= j < move_to_front(obs, t).len() && #[trigger] move_to_front(obs, t)[j].tag == u,
{
    lemma_last_tag_index(obs, t);
    let i = last_tag_index(obs, t);
    let m = move_to_front(obs, t);
    if i < 0 {
        assert(m[k].tag == u);
    } else if k == i {
        assert(m[0].tag == u);
    } else if k < i {
        assert(m[k + 1] == obs[k]);
    } else {
        assert(m[k] == obs[k]);
    }
}

/// FINAL with a target that tags some outbound brings that outbound to the
/// front, wherever it stood.
pub proof fn lemma_final_target_first(obs: Seq<OutboundModel>, t: Seq<char>)
    requires
        exists|k: int| 0 <= k < obs.len() && #[trigger] obs[k].tag == t,
    ensures
        move_to_front(obs, t).len() == obs.len(),
        move_to_front(obs, t)[0].tag == t,
{
    lemma_last_tag_index(obs, t);
}

/// FINAL with a target that tags no outbound leaves the outbounds as they were.
pub proof fn lemma_final_unmatched(obs: Seq<OutboundModel>, t: Seq<char>)
    requires
        forall|k: int| 0 <= k < obs.len() ==> #[trigger] obs[k].tag != t,
    ensures
        move_to_front(obs, t) == obs,
{
    lemma_last_tag_index(obs, t);
}

/// Compiling rules keeps every outbound tag that was there.
pub proof fn lemma_compile_keeps_tag(
    obs: Seq<OutboundModel>,
    rules: Seq<RuleModel>,
    f: Seq<char>,
    u: Seq<char>,
)
    requires
        exists|k: int| 0 <= k < obs.len() && #[trigger] obs[k].tag == u,
    ensures
        exists|j: int|
            0 <= j < compile_rules(obs, rules, f).0.len() && #[trigger] compile_rules(
                obs,
                rules,
                f,
            ).0[j].tag == u,
    decreases rules.len(),
{
    if rules.len() > 0 {
        lemma_compile_keeps_tag(obs, rules.drop_last(), f, u);
        let o = compile_rules(obs, rules.drop_last(), f).0;
        let k = choose|k: int| 0 <= k < o.len() && #[trigger] o[k].tag == u;
        if rules.last().type_field == "FINAL"@ {
            lemma_move_keeps_tag(o, rules.last().target, u, k);
            assert(compile_rules(obs, rules, f).0 == move_to_front(o, rules.last().target));
        } else {
            assert(compile_rules(obs, rules, f).0 == o);
            assert(compile_rules(obs, rules, f).0[k].tag == u);
        }
    }
}

/// Where the last FINAL rule names a tag that some outbound built from the
/// proxies and groups carries, that outbound is the first, the default one.
pub proof fn lemma_last_final_is_default(c: ConfigModel, mmdb_file: Seq<char>, i: int)
    requires
        0 <= i < rules_or_empty(c).len(),
        rules_or_empty(c)[i].type_field == "FINAL"@,
        forall|j: int|
            i < j < rules_or_empty(c).len() ==> #[trigger] rules_or_empty(c)[j].type_field
                != "FINAL"@,
        exists|k: int|
            0 <= k < built_outbounds(c).len() && #[trigger] built_outbounds(c)[k].tag
                == rules_or_empty(c)[i].target,
    ensures
        internal_of(c, mmdb_file).outbounds.len() > 0,
        internal_of(c, mmdb_file).outbounds[0].tag == rules_or_empty(c)[i].target,
{
    lemma_final_first_in_compile(built_outbounds(c), rules_or_empty(c), mmdb_file, i);
}

proof fn lemma_final_first_in_compile(
    obs: Seq<OutboundModel>,
    rules: Seq<RuleModel>,
    f: Seq<char>,
    i: int,
)
    requires
        0 <= i < rules.len(),
        rules[i].type_field == "FINAL"@,
        forall|j: int| i < j < rules.len() ==> #[trigger] rules[j].type_field != "FINAL"@,
        exists|k: int| 0 <= k < obs.len() && #[trigger] obs[k].tag == rules[i].target,
    ensures
        compile_rules(obs, rules, f).0.len() > 0,
        compile_rules(obs, rules, f).0[0].tag == rules[i].target,
    decreases rules.len(),
{
    let t = rules[i].target;
    if i == rules.len() - 1 {
        lemma_compile_keeps_tag(obs, rules.drop_last(), f, t);
        lemma_final_target_first(compile_rules(obs, rules.drop_last(), f).0, t);
    } else {
        let d = rules.drop_last();
        assert(d[i] == rules[i]);
        assert forall|j: int| i < j < d.len() implies #[trigger] d[j].type_field != "FINAL"@ by {
            assert(d[j] == rules[j]);
        }
        lemma_final_first_in_compile(obs, d, f, i);
        assert(rules.last().type_field != "FINAL"@);
    }
}

/// A vmess or vless proxy with both layers on: the chain names TLS, then
/// WebSocket, then the base protocol, and the four outbounds come in that order.
pub proof fn lemma_chain_with_both_layers(p: ProxyModel)
    requires
        norm_protocol(p.protocol) == "vmess"@ || norm_protocol(p.protocol) == "vless"@,
        p.tls == Some(true),
        p.ws == Some(true),
    ensures
        proxy_outbounds(p).len() == 4,
        proxy_outbounds(p)[0].tag == p.tag,
        proxy_outbounds(p)[0].settings == (SettingsModel::Chain {
            actors: seq![p.tag + "_tls_xxx"@, p.tag + "_ws_xxx"@, base_outbound(p).tag],
        }),
        proxy_outbounds(p)[1] == tls_outbound(p),
        proxy_outbounds(p)[2] == ws_outbound(p),
        proxy_outbounds(p)[3] == base_outbound(p),
{
    lemma_protocol_names();
    assert(chain_actors(p, true, true) =~= seq![
        p.tag + "_tls_xxx"@,
        p.tag + "_ws_xxx"@,
        base_outbound(p).tag,
    ]);
}

/// A vmess or vless proxy with both layers off: the chain names the base
/// protocol alone, and no TLS or WebSocket outbound is emitted.
pub proof fn lemma_chain_without_layers(p: ProxyModel)
    requires
        norm_protocol(p.protocol) == "vmess"@ || norm_protocol(p.protocol) == "vless"@,
        p.tls != Some(true),
        p.ws != Some(true),
    ensures
        proxy_outbounds(p) == seq![
            OutboundModel {
                protocol: "chain"@,
                tag: p.tag,
                bind: Seq::<char>::empty(),
                settings: SettingsModel::Chain { actors: seq![base_outbound(p).tag] },
            },
            base_outbound(p),
        ],
{
    lemma_protocol_names();
    assert(chain_actors(p, false, false) =~= seq![base_outbound(p).tag]);
    assert(proxy_outbounds(p) =~= seq![
        OutboundModel {
            protocol: "chain"@,
            tag: p.tag,
            bind: Seq::<char>::empty(),
            settings: SettingsModel::Chain { actors: seq![base_outbound(p).tag] },
        },
        base_outbound(p),
    ]);
}

/// A trojan proxy always gives three outbounds: the chain, TLS, trojan,
/// whatever its flags say.
pub proof fn lemma_trojan_outbounds(p: ProxyModel)
    requires
        norm_protocol(p.protocol) == "trojan"@,
    ensures
        proxy_outbounds(p).len() == 3,
        proxy_outbounds(p)[0].protocol == "chain"@,
        proxy_outbounds(p)[0].tag == p.tag,
        proxy_outbounds(p)[0].settings == (SettingsModel::Chain {
            actors: seq![p.tag + "_tls_xxx"@, p.tag + "_trojan_xxx"@],
        }),
        proxy_outbounds(p)[1] == tls_outbound(p),
        proxy_outbounds(p)[2] == base_outbound(p),
        base_outbound(p).protocol == "trojan"@,
{
    lemma_protocol_names();
    assert(p.tag + "_"@ + "trojan"@ + "_xxx"@ =~= p.tag + "_trojan_xxx"@) by {
        reveal_strlit("_");
        reveal_strlit("trojan");
        reveal_strlit("_xxx");
        reveal_strlit("_trojan_xxx");
    }
    assert(chain_actors(p, true, false) =~= seq![p.tag + "_tls_xxx"@, p.tag + "_trojan_xxx"@]);
}

/// The names of the chain-producing protocols differ from each other and
/// from those of the single-outbound ones.
proof fn lemma_protocol_names()
    ensures
        "vmess"@ != "trojan"@,
        "vless"@ != "trojan"@,
        "vmess"@ != "direct"@ && "vmess"@ != "drop"@ && "vmess"@ != "shadowsocks"@,
        "vless"@ != "direct"@ && "vless"@ != "drop"@ && "vless"@ != "shadowsocks"@,
        "trojan"@ != "direct"@ && "trojan"@ != "drop"@ && "trojan"@ != "shadowsocks"@,
{
    reveal_strlit("vmess");
    reveal_strlit("vless");
    reveal_strlit("trojan");
    reveal_strlit("direct");
    reveal_strlit("drop");
    reveal_strlit("shadowsocks");
    assert("vmess"@[0] == 'v' && "vless"@[0] == 'v' && "trojan"@[0] == 't');
    assert("direct"@[0] == 'd' && "drop"@[0] == 'd' && "shadowsocks"@[0] == 's');
}

/// Translation depends on nothing but the configuration and the database
/// path: translating equal configurations gives equal results.
pub proof fn lemma_translation_repeatable(a: ConfigModel, b: ConfigModel, mmdb_file: Seq<char>)
    requires
        a == b,
    ensures
        internal_of(a, mmdb_file) == internal_of(b, mmdb_file),
        translate_error(a) == translate_error(b),
{
}

/// The rules without the FINAL ones, in their order.
pub open spec fn without_finals(rules: Seq<RuleModel>) -> Seq<RuleModel>
    decreases rules.len(),
{
    if rules.len() == 0 {
        Seq::<RuleModel>::empty()
    } else if rules.last().type_field == "FINAL"@ {
        without_finals(rules.drop_last())
    } else {
        without_finals(rules.drop_last()).push(rules.last())
    }
}

/// The configuration with its FINAL rules taken out.
pub open spec fn config_without_finals(c: ConfigModel) -> ConfigModel {
    ConfigModel { rule: Some(without_finals(rules_or_empty(c))), ..c }
}

/// Without FINAL rules the outbounds stay as built, and the routing rules are
/// those that the full rule list gives.
pub proof fn lemma_compile_without_finals(
    obs: Seq<OutboundModel>,
    rules: Seq<RuleModel>,
    f: Seq<char>,
)
    ensures
        compile_rules(obs, without_finals(rules), f) == (obs, compile_rules(obs, rules, f).1),
    decreases rules.len(),
{
    if rules.len() > 0 {
        lemma_compile_without_finals(obs, rules.drop_last(), f);
        let w = without_finals(rules.drop_last());
        if rules.last().type_field != "FINAL"@ {
            assert(w.push(rules.last()).drop_last() =~= w);
        }
    }
}

/// FINAL rules whose targets tag no outbound leave the outbounds as built.
proof fn lemma_compile_unmatched(obs: Seq<OutboundModel>, rules: Seq<RuleModel>, f: Seq<char>)
    requires
        forall|i: int|
            0 <= i < rules.len() && (#[trigger] rules[i]).type_field == "FINAL"@ ==> forall|k: int|
                0 <= k < obs.len() ==> #[trigger] obs[k].tag != rules[i].target,
    ensures
        compile_rules(obs, rules, f).0 == obs,
    decreases rules.len(),
{
    if rules.len() > 0 {
        let d = rules.drop_last();
        assert forall|i: int|
            0 <= i < d.len() && (#[trigger] d[i]).type_field == "FINAL"@ implies forall|k: int|
                0 <= k < obs.len() ==> #[trigger] obs[k].tag != d[i].target by {
            assert(d[i] == rules[i]);
        }
        lemma_compile_unmatched(obs, d, f);
        if rules.last().type_field == "FINAL"@ {
            assert(rules.last() == rules[rules.len() - 1]);
            lemma_final_unmatched(obs, rules.last().target);
        }
    }
}

/// With one FINAL rule, the outbounds are the built ones with its target
/// moved to the front.
proof fn lemma_compile_one_final(
    obs: Seq<OutboundModel>,
    rules: Seq<RuleModel>,
    f: Seq<char>,
    i: int,
)
    requires
        0 <= i < rules.len(),
        rules[i].type_field == "FINAL"@,
        forall|j: int| 0 <= j < rules.len() && j != i ==> #[trigger] rules[j].type_field != "FINAL"@,
    ensures
        compile_rules(obs, rules, f).0 == move_to_front(obs, rules[i].target),
    decreases rules.len(),
{
    let d = rules.drop_last();
    if i == rules.len() - 1 {
        assert forall|j: int|
            0 <= j < d.len() && (#[trigger] d[j]).type_field == "FINAL"@ implies forall|k: int|
                0 <= k < obs.len() ==> #[trigger] obs[k].tag != d[j].target by {
            assert(d[j] == rules[j]);
        }
        lemma_compile_unmatched(obs, d, f);
    } else {
        assert(d[i] == rules[i]);
        assert forall|j: int| 0 <= j < d.len() && j != i implies #[trigger] d[j].type_field
            != "FINAL"@ by {
            assert(d[j] == rules[j]);
        }
        lemma_compile_one_final(obs, d, f, i);
        assert(rules.last() == rules[rules.len() - 1]);
    }
}

/// A single FINAL rule whose target tags exactly one built outbound: that
/// outbound comes first and the others keep their order; the routing rules,
/// inbounds, log and DNS are those of the configuration without the FINAL
/// rule, which adds no routing rule.
pub proof fn lemma_final_moves_target(c: ConfigModel, f: Seq<char>, i: int, k: int)
    requires
        0 <= i < rules_or_empty(c).len(),
        rules_or_empty(c)[i].type_field == "FINAL"@,
        forall|j: int|
            0 <= j < rules_or_empty(c).len() && j != i ==> #[trigger] rules_or_empty(c)[j].type_field
                != "FINAL"@,
        0 <= k < built_outbounds(c).len(),
        built_outbounds(c)[k].tag == rules_or_empty(c)[i].target,
        forall|m: int|
            0 <= m < built_outbounds(c).len() && m != k ==> #[trigger] built_outbounds(c)[m].tag
                != rules_or_empty(c)[i].target,
    ensures
        ({
            let c0 = internal_of(config_without_finals(c), f);
            let c1 = internal_of(c, f);
            &&& c1.outbounds == seq![c0.outbounds[k]] + c0.outbounds.remove(k)
            &&& c1.outbounds[0].tag == rules_or_empty(c)[i].target
            &&& c1.routing_rules == c0.routing_rules
            &&& c1.inbounds == c0.inbounds && c1.level == c0.level && c1.dns == c0.dns
            &&& translate_error(c) == translate_error(config_without_finals(c))
        }),
{
    let obs = built_outbounds(c);
    let rules = rules_or_empty(c);
    let t = rules[i].target;
    assert(rules_or_empty(config_without_finals(c)) == without_finals(rules));
    assert(built_outbounds(config_without_finals(c)) == obs);
    lemma_compile_without_finals(obs, rules, f);
    lemma_compile_one_final(obs, rules, f, i);
    lemma_last_tag_index(obs, t);
    assert(last_tag_index(obs, t) == k);
}

/// FINAL rules whose targets tag no built outbound change nothing: the
/// translation is that of the configuration without them.
pub proof fn lemma_unmatched_finals_change_nothing(c: ConfigModel, f: Seq<char>)
    requires
        forall|i: int|
            0 <= i < rules_or_empty(c).len() && (#[trigger] rules_or_empty(c)[i]).type_field
                == "FINAL"@ ==> forall|k: int|
                0 <= k < built_outbounds(c).len() ==> #[trigger] built_outbounds(c)[k].tag
                    != rules_or_empty(c)[i].target,
    ensures
        internal_of(c, f) == internal_of(config_without_finals(c), f),
        translate_error(c) == translate_error(config_without_finals(c)),
{
    let obs = built_outbounds(c);
    let rules = rules_or_empty(c);
    assert(rules_or_empty(config_without_finals(c)) == without_finals(rules));
    assert(built_outbounds(config_without_finals(c)) == obs);
    lemma_compile_without_finals(obs, rules, f);
    lemma_compile_unmatched(obs, rules, f);
}

} // verus!
