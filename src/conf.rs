//! The external configuration: its types, and the decoders that build it from
//! the lines of a configuration file.
use vstd::prelude::*;
use crate::text::{
    header, lemma_find_char_absent, section_after, strip_comment,
    lemma_find_char_at, lemma_split_concat, lemma_split_single, lemma_trim_padded, lemma_trim_plain,
    nonempty_trimmed, parse_bool, parse_bool_spec, parsed_or, plain_field,
    find, find_char, get_char_sep_slice, is_space, get_i32, get_string, get_lines_by_section, get_u16, lines_view, opt_seq_views, opt_string, opt_view,
    parse_i32, parse_i32_spec, parse_u16, parse_u16_spec, section_lines, sep_list, seq_views, split, split_by, str_eq, trim, trimmed,
};

verus! {

/// A TUN device described by its parts.
#[derive(Debug, Default)]
pub struct TUN {
    pub name: Option<String>,
    pub address: Option<String>,
    pub netmask: Option<String>,
    pub gateway: Option<String>,
    pub mtu: Option<i32>,
}

/// The settings of the `General` section; an absent field disables its feature.
#[derive(Debug, Default)]
pub struct General {
    pub tun: Option<TUN>,
    pub tun_fd: Option<i32>,
    pub loglevel: Option<String>,
    pub dns_server: Option<Vec<String>>,
    pub dns_interface: Option<String>,
    pub always_real_ip: Option<Vec<String>>,
    pub interface: Option<String>,
    pub port: Option<u16>,
    pub socks_interface: Option<String>,
    pub socks_port: Option<u16>,
}

/// One outbound endpoint of the `Proxy` section.
#[derive(Debug)]
pub struct Proxy {
    pub tag: String,
    pub protocol: String,
    pub interface: String,
    pub address: Option<String>,
    pub port: Option<u16>,
    pub encrypt_method: Option<String>,
    pub password: Option<String>,
    pub username: Option<String>,
    pub ws: Option<bool>,
    pub tls: Option<bool>,
    pub ws_path: Option<String>,
    pub sni: Option<String>,
}

/// A named group over other outbounds, from the `Proxy Group` section.
#[derive(Debug)]
pub struct ProxyGroup {
    pub tag: String,
    pub protocol: String,
    pub actors: Option<Vec<String>>,
    pub health_check: Option<bool>,
    pub check_interval: Option<i32>,
    pub fail_timeout: Option<i32>,
    pub failover: Option<bool>,
    pub delay_base: Option<i32>,
}

/// A routing directive of the `Rule` section.
#[derive(Debug, Default)]
pub struct Rule {
    pub type_field: String,
    pub filter: Option<String>,
    pub target: String,
}

/// The whole external configuration.
#[derive(Debug, Default)]
pub struct Config {
    pub general: Option<General>,
    pub proxy: Option<Vec<Proxy>>,
    pub proxy_group: Option<Vec<ProxyGroup>>,
    pub rule: Option<Vec<Rule>>,
}

pub ghost struct TunModel {
    pub name: Option<Seq<char>>,
    pub address: Option<Seq<char>>,
    pub netmask: Option<Seq<char>>,
    pub gateway: Option<Seq<char>>,
    pub mtu: Option<i32>,
}

pub ghost struct GeneralModel {
    pub tun: Option<TunModel>,
    pub tun_fd: Option<i32>,
    pub loglevel: Option<Seq<char>>,
    pub dns_server: Option<Seq<Seq<char>>>,
    pub dns_interface: Option<Seq<char>>,
    pub always_real_ip: Option<Seq<Seq<char>>>,
    pub interface: Option<Seq<char>>,
    pub port: Option<u16>,
    pub socks_interface: Option<Seq<char>>,
    pub socks_port: Option<u16>,
}

pub ghost struct ProxyModel {
    pub tag: Seq<char>,
    pub protocol: Seq<char>,
    pub interface: Seq<char>,
    pub address: Option<Seq<char>>,
    pub port: Option<u16>,
    pub encrypt_method: Option<Seq<char>>,
    pub password: Option<Seq<char>>,
    pub username: Option<Seq<char>>,
    pub ws: Option<bool>,
    pub tls: Option<bool>,
    pub ws_path: Option<Seq<char>>,
    pub sni: Option<Seq<char>>,
}

pub ghost struct GroupModel {
    pub tag: Seq<char>,
    pub protocol: Seq<char>,
    pub actors: Option<Seq<Seq<char>>>,
    pub health_check: Option<bool>,
    pub check_interval: Option<i32>,
    pub fail_timeout: Option<i32>,
    pub failover: Option<bool>,
    pub delay_base: Option<i32>,
}

pub ghost struct RuleModel {
    pub type_field: Seq<char>,
    pub filter: Option<Seq<char>>,
    pub target: Seq<char>,
}

pub ghost struct ConfigModel {
    pub general: Option<GeneralModel>,
    pub proxy: Option<Seq<ProxyModel>>,
    pub proxy_group: Option<Seq<GroupModel>>,
    pub rule: Option<Seq<RuleModel>>,
}

impl View for TUN {
    type V = TunModel;

    open spec fn view(&self) -> TunModel {
        TunModel {
            name: opt_view(self.name),
            address: opt_view(self.address),
            netmask: opt_view(self.netmask),
            gateway: opt_view(self.gateway),
            mtu: self.mtu,
        }
    }
}

impl View for General {
    type V = GeneralModel;

    open spec fn view(&self) -> GeneralModel {
        GeneralModel {
            tun: match self.tun {
                Some(t) => Some(t@),
                None => None,
            },
            tun_fd: self.tun_fd,
            loglevel: opt_view(self.loglevel),
            dns_server: opt_seq_views(self.dns_server),
            dns_interface: opt_view(self.dns_interface),
            always_real_ip: opt_seq_views(self.always_real_ip),
            interface: opt_view(self.interface),
            port: self.port,
            socks_interface: opt_view(self.socks_interface),
            socks_port: self.socks_port,
        }
    }
}

impl View for Proxy {
    type V = ProxyModel;

    open spec fn view(&self) -> ProxyModel {
        ProxyModel {
            tag: self.tag@,
            protocol: self.protocol@,
            interface: self.interface@,
            address: opt_view(self.address),
            port: self.port,
            encrypt_method: opt_view(self.encrypt_method),
            password: opt_view(self.password),
            username: opt_view(self.username),
            ws: self.ws,
            tls: self.tls,
            ws_path: opt_view(self.ws_path),
            sni: opt_view(self.sni),
        }
    }
}

impl View for ProxyGroup {
    type V = GroupModel;

    open spec fn view(&self) -> GroupModel {
        GroupModel {
            tag: self.tag@,
            protocol: self.protocol@,
            actors: opt_seq_views(self.actors),
            health_check: self.health_check,
            check_interval: self.check_interval,
            fail_timeout: self.fail_timeout,
            failover: self.failover,
            delay_base: self.delay_base,
        }
    }
}

impl View for Rule {
    type V = RuleModel;

    open spec fn view(&self) -> RuleModel {
        RuleModel { type_field: self.type_field@, filter: opt_view(self.filter), target: self.target@ }
    }
}

pub open spec fn proxies_view(v: Seq<Proxy>) -> Seq<ProxyModel> {
    v.map_values(|p: Proxy| p@)
}

pub open spec fn groups_view(v: Seq<ProxyGroup>) -> Seq<GroupModel> {
    v.map_values(|g: ProxyGroup| g@)
}

pub open spec fn rules_view(v: Seq<Rule>) -> Seq<RuleModel> {
    v.map_values(|r: Rule| r@)
}

impl View for Config {
    type V = ConfigModel;

    open spec fn view(&self) -> ConfigModel {
        ConfigModel {
            general: match self.general {
                Some(g) => Some(g@),
                None => None,
            },
            proxy: match self.proxy {
                Some(v) => Some(proxies_view(v@)),
                None => None,
            },
            proxy_group: match self.proxy_group {
                Some(v) => Some(groups_view(v@)),
                None => None,
            },
            rule: match self.rule {
                Some(v) => Some(rules_view(v@)),
                None => None,
            },
        }
    }
}

pub open spec fn empty_general() -> GeneralModel {
    GeneralModel {
        tun: None,
        tun_fd: None,
        loglevel: None,
        dns_server: None,
        dns_interface: None,
        always_real_ip: None,
        interface: None,
        port: None,
        socks_interface: None,
        socks_port: None,
    }
}

/// The `tun` directive: exactly five items, name, address, netmask, gateway, mtu.
pub open spec fn tun_directive(v: Seq<char>) -> Option<TunModel> {
    match sep_list(v, ',') {
        Some(items) => if items.len() == 5 {
            Some(
                TunModel {
                    name: Some(items[0]),
                    address: Some(items[1]),
                    netmask: Some(items[2]),
                    gateway: Some(items[3]),
                    mtu: parse_i32_spec(trim(items[4])),
                },
            )
        } else {
            None
        },
        None => None,
    }
}

/// One `key=value` line of the `General` section applied to `g`; a line
/// without exactly one `=`, or with an unknown key, leaves it as it is.
pub open spec fn general_step(g: GeneralModel, line: Seq<char>) -> GeneralModel {
    let parts = split(line, '=');
    if parts.len() != 2 {
        g
    } else {
        let k = trim(parts[0]);
        let v = parts[1];
        if k == "tun-fd"@ {
            GeneralModel { tun_fd: parse_i32_spec(trim(v)), ..g }
        } else if k == "tun"@ {
            match tun_directive(v) {
                Some(t) => GeneralModel { tun: Some(t), ..g },
                None => g,
            }
        } else if k == "loglevel"@ {
            GeneralModel { loglevel: Some(trim(v)), ..g }
        } else if k == "dns-server"@ {
            GeneralModel { dns_server: sep_list(v, ','), ..g }
        } else if k == "dns-interface"@ {
            GeneralModel { dns_interface: opt_string(v), ..g }
        } else if k == "always-real-ip"@ {
            GeneralModel { always_real_ip: sep_list(v, ','), ..g }
        } else if k == "interface"@ {
            GeneralModel { interface: opt_string(v), ..g }
        } else if k == "port"@ {
            GeneralModel { port: parse_u16_spec(trim(v)), ..g }
        } else if k == "socks-interface"@ {
            GeneralModel { socks_interface: opt_string(v), ..g }
        } else if k == "socks-port"@ {
            GeneralModel { socks_port: parse_u16_spec(trim(v)), ..g }
        } else {
            g
        }
    }
}

/// The `General` section: its lines applied in order, the later winning.
pub open spec fn general_of(lines: Seq<Seq<char>>) -> GeneralModel
    decreases lines.len(),
{
    if lines.len() == 0 {
        empty_general()
    } else {
        general_step(general_of(lines.drop_last()), lines.last())
    }
}

fn decode_tun(v: &str) -> (r: Option<TUN>)
    ensures
        match r {
            Some(t) => tun_directive(v@) == Some(t@),
            None => tun_directive(v@) is None,
        },
{
    match get_char_sep_slice(v, ',') {
        Some(items) => {
            if items.len() != 5 {
                return None;
            }
            Some(
                TUN {
                    name: Some(items[0].clone()),
                    address: Some(items[1].clone()),
                    netmask: Some(items[2].clone()),
                    gateway: Some(items[3].clone()),
                    mtu: get_i32(items[4].as_str()),
                },
            )
        },
        None => None,
    }
}

fn apply_general_line(g: &mut General, line: &str)
    ensures
        final(g)@ == general_step(old(g)@, line@),
{
    let parts = split_by(line, '=');
    if parts.len() != 2 {
        return;
    }
    let k = trimmed(parts[0].as_str());
    let v = parts[1].as_str();
    if str_eq(k, "tun-fd") {
        g.tun_fd = get_i32(v);
    } else if str_eq(k, "tun") {
        if let Some(t) = decode_tun(v) {
            g.tun = Some(t);
        }
    } else if str_eq(k, "loglevel") {
        g.loglevel = Some(String::from_str(trimmed(v)));
    } else if str_eq(k, "dns-server") {
        g.dns_server = get_char_sep_slice(v, ',');
    } else if str_eq(k, "dns-interface") {
        g.dns_interface = get_string(v);
    } else if str_eq(k, "always-real-ip") {
        g.always_real_ip = get_char_sep_slice(v, ',');
    } else if str_eq(k, "interface") {
        g.interface = get_string(v);
    } else if str_eq(k, "port") {
        g.port = get_u16(v);
    } else if str_eq(k, "socks-interface") {
        g.socks_interface = get_string(v);
    } else if str_eq(k, "socks-port") {
        g.socks_port = get_u16(v);
    }
}

/// Decodes the lines of the `General` section.
pub fn decode_general(lines: &Vec<String>) -> (r: General)
    ensures
        r@ == general_of(seq_views(lines@)),
{
    let ghost ls = seq_views(lines@);
    let mut g = General {
        tun: None,
        tun_fd: None,
        loglevel: None,
        dns_server: None,
        dns_interface: None,
        always_real_ip: None,
        interface: None,
        port: None,
        socks_interface: None,
        socks_port: None,
    };
    let mut i: usize = 0;
    assert(ls.take(0) =~= Seq::<Seq<char>>::empty());
    while i < lines.len()
        invariant
            i <= lines.len(),
            ls == seq_views(lines@),
            g@ == general_of(ls.take(i as int)),
        decreases lines.len() - i,
    {
        assert(ls.take(i + 1).drop_last() =~= ls.take(i as int));
        apply_general_line(&mut g, lines[i].as_str());
        i = i + 1;
    }
    assert(ls.take(lines.len() as int) =~= ls);
    g
}

/// A `key=value` item: exactly one `=`, key and value trimmed and non-empty.
pub open spec fn key_value(param: Seq<char>) -> Option<(Seq<char>, Seq<char>)> {
    let parts = split(param, '=');
    if parts.len() == 2 && trim(parts[0]).len() > 0 && trim(parts[1]).len() > 0 {
        Some((trim(parts[0]), trim(parts[1])))
    } else {
        None
    }
}

pub open spec fn default_proxy() -> ProxyModel {
    ProxyModel {
        tag: Seq::<char>::empty(),
        protocol: Seq::<char>::empty(),
        interface: "0.0.0.0"@,
        address: None,
        port: None,
        encrypt_method: Some("chacha20-ietf-poly1305"@),
        password: None,
        username: None,
        ws: Some(false),
        tls: Some(false),
        ws_path: None,
        sni: None,
    }
}

/// One item of a `Proxy` line applied as a setting; items that are not a
/// well-formed `key=value`, and unknown keys, change nothing.
pub open spec fn proxy_kv(p: ProxyModel, param: Seq<char>) -> ProxyModel {
    match key_value(param) {
        Some((k, v)) => if k == "encrypt-method"@ {
            ProxyModel { encrypt_method: Some(v), ..p }
        } else if k == "password"@ {
            ProxyModel { password: Some(v), ..p }
        } else if k == "username"@ {
            ProxyModel { username: Some(v), ..p }
        } else if k == "ws"@ {
            ProxyModel { ws: parsed_or(parse_bool_spec(v), p.ws), ..p }
        } else if k == "tls"@ {
            ProxyModel { tls: parsed_or(parse_bool_spec(v), p.tls), ..p }
        } else if k == "ws-path"@ {
            ProxyModel { ws_path: Some(v), ..p }
        } else if k == "sni"@ {
            ProxyModel { sni: Some(v), ..p }
        } else if k == "interface"@ {
            ProxyModel { interface: v, ..p }
        } else {
            p
        },
        None => p,
    }
}

pub open spec fn proxy_kvs(p: ProxyModel, params: Seq<Seq<char>>) -> ProxyModel
    decreases params.len(),
{
    if params.len() == 0 {
        p
    } else {
        proxy_kv(proxy_kvs(p, params.drop_last()), params.last())
    }
}

/// The text before the first `=` of a line, trimmed: the tag of a `Proxy` or
/// `Proxy Group` line.
pub open spec fn line_tag(line: Seq<char>) -> Seq<char> {
    trim(line.take(find_char(line, '=')))
}

/// The items after the first `=` of a line.
pub open spec fn line_params(line: Seq<char>) -> Option<Seq<Seq<char>>> {
    sep_list(line.skip(find_char(line, '=') + 1), ',')
}

/// A `Proxy` line `tag = protocol, [address, port,] key=value...`, or `None`
/// where the line is dropped.
pub open spec fn proxy_line(line: Seq<char>) -> Option<ProxyModel> {
    if find_char(line, '=') >= line.len() || line_tag(line).len() == 0 {
        None
    } else {
        match line_params(line) {
            Some(params) => {
                let proto = params[0];
                let p = proxy_kvs(
                    ProxyModel { tag: line_tag(line), protocol: proto, ..default_proxy() },
                    params,
                );
                if proto == "direct"@ || proto == "drop"@ {
                    Some(p)
                } else if proto == "reject"@ {
                    Some(ProxyModel { protocol: "drop"@, ..p })
                } else if params.len() < 3 {
                    None
                } else {
                    match parse_u16_spec(params[2]) {
                        Some(port) => Some(
                            ProxyModel {
                                address: Some(params[1]),
                                port: Some(port),
                                protocol: if proto == "ss"@ {
                                    "shadowsocks"@
                                } else {
                                    proto
                                },
                                ..p
                            },
                        ),
                        None => None,
                    }
                }
            },
            None => None,
        }
    }
}

/// The proxies of the `Proxy` section, in order, dropped lines left out.
pub open spec fn proxies_of(lines: Seq<Seq<char>>) -> Seq<ProxyModel>
    decreases lines.len(),
{
    if lines.len() == 0 {
        Seq::<ProxyModel>::empty()
    } else {
        match proxy_line(lines.last()) {
            Some(p) => proxies_of(lines.drop_last()).push(p),
            None => proxies_of(lines.drop_last()),
        }
    }
}

impl Default for Proxy {
    fn default() -> (r: Proxy)
        ensures
            r@ == default_proxy(),
    {
        Proxy {
            tag: String::new(),
            protocol: String::new(),
            interface: String::from_str("0.0.0.0"),
            address: None,
            port: None,
            encrypt_method: Some(String::from_str("chacha20-ietf-poly1305")),
            password: None,
            username: None,
            ws: Some(false),
            tls: Some(false),
            ws_path: None,
            sni: None,
        }
    }
}

/// The key and value of a `key=value` item, as `key_value` describes them.
pub fn get_key_value(param: &str) -> (r: Option<(String, String)>)
    ensures
        match r {
            Some((k, v)) => key_value(param@) == Some((k@, v@)),
            None => key_value(param@) is None,
        },
{
    let parts = split_by(param, '=');
    if parts.len() != 2 {
        return None;
    }
    let k = trimmed(parts[0].as_str());
    let v = trimmed(parts[1].as_str());
    if k.unicode_len() == 0 || v.unicode_len() == 0 {
        return None;
    }
    Some((String::from_str(k), String::from_str(v)))
}

fn apply_proxy_kv(p: &mut Proxy, param: &str)
    ensures
        final(p)@ == proxy_kv(old(p)@, param@),
{
    if let Some((k, v)) = get_key_value(param) {
        let k = k.as_str();
        if str_eq(k, "encrypt-method") {
            p.encrypt_method = Some(v);
        } else if str_eq(k, "password") {
            p.password = Some(v);
        } else if str_eq(k, "username") {
            p.username = Some(v);
        } else if str_eq(k, "ws") {
            if let Some(b) = parse_bool(v.as_str()) {
                p.ws = Some(b);
            }
        } else if str_eq(k, "tls") {
            if let Some(b) = parse_bool(v.as_str()) {
                p.tls = Some(b);
            }
        } else if str_eq(k, "ws-path") {
            p.ws_path = Some(v);
        } else if str_eq(k, "sni") {
            p.sni = Some(v);
        } else if str_eq(k, "interface") {
            p.interface = v;
        }
    }
}

/// The tag and the parameter list of a `tag = ...` line, when it has an `=`.
fn split_tag_line(line: &str) -> (r: Option<(&str, Option<Vec<String>>)>)
    ensures
        match r {
            Some((tag, params)) => find_char(line@, '=') < line@.len() && tag@ == line_tag(line@)
                && opt_seq_views(params) == line_params(line@),
            None => find_char(line@, '=') >= line@.len(),
        },
{
    let n = line.unicode_len();
    let eq = find(line, '=');
    if eq >= n {
        return None;
    }
    let tag = trimmed(line.substring_char(0, eq));
    let params = get_char_sep_slice(line.substring_char(eq + 1, n), ',');
    assert(line@.take(eq as int) =~= line@.subrange(0, eq as int));
    assert(line@.skip(eq + 1) =~= line@.subrange(eq + 1, n as int));
    Some((tag, params))
}

/// Decodes one `Proxy` line.
pub fn decode_proxy(line: &str) -> (r: Option<Proxy>)
    ensures
        match r {
            Some(p) => proxy_line(line@) == Some(p@),
            None => proxy_line(line@) is None,
        },
{
    let (tag, params) = match split_tag_line(line) {
        Some(x) => x,
        None => return None,
    };
    if tag.unicode_len() == 0 {
        return None;
    }
    let params = match params {
        Some(p) => p,
        None => return None,
    };
    let ghost ps = seq_views(params@);
    let mut proxy = Proxy::default();
    proxy.tag = String::from_str(tag);
    proxy.protocol = params[0].clone();
    let ghost start = proxy@;
    let mut i: usize = 0;
    assert(ps.take(0) =~= Seq::<Seq<char>>::empty());
    while i < params.len()
        invariant
            i <= params.len(),
            ps == seq_views(params@),
            proxy@ == proxy_kvs(start, ps.take(i as int)),
            proxy.protocol@ == ps[0],
        decreases params.len() - i,
    {
        assert(ps.take(i + 1).drop_last() =~= ps.take(i as int));
        apply_proxy_kv(&mut proxy, params[i].as_str());
        i = i + 1;
    }
    assert(ps.take(params.len() as int) =~= ps);
    let proto = params[0].as_str();
    if str_eq(proto, "direct") || str_eq(proto, "drop") {
        return Some(proxy);
    }
    if str_eq(proto, "reject") {
        proxy.protocol = String::from_str("drop");
        return Some(proxy);
    }
    if params.len() < 3 {
        return None;
    }
    let port = match parse_u16(params[2].as_str()) {
        Some(p) => p,
        None => return None,
    };
    proxy.address = Some(params[1].clone());
    proxy.port = Some(port);
    if str_eq(proto, "ss") {
        proxy.protocol = String::from_str("shadowsocks");
    }
    Some(proxy)
}

/// Decodes the lines of the `Proxy` section.
pub fn decode_proxies(lines: &Vec<String>) -> (r: Vec<Proxy>)
    ensures
        proxies_view(r@) == proxies_of(seq_views(lines@)),
{
    let ghost ls = seq_views(lines@);
    let mut proxies: Vec<Proxy> = Vec::new();
    let mut i: usize = 0;
    assert(ls.take(0) =~= Seq::<Seq<char>>::empty());
    assert(proxies_view(proxies@) =~= Seq::<ProxyModel>::empty());
    while i < lines.len()
        invariant
            i <= lines.len(),
            ls == seq_views(lines@),
            proxies_view(proxies@) == proxies_of(ls.take(i as int)),
        decreases lines.len() - i,
    {
        assert(ls.take(i + 1).drop_last() =~= ls.take(i as int));
        if let Some(p) = decode_proxy(lines[i].as_str()) {
            assert(proxies_view(proxies@.push(p)) =~= proxies_view(proxies@).push(p@));
            proxies.push(p);
        }
        i = i + 1;
    }
    assert(ls.take(lines.len() as int) =~= ls);
    proxies
}

pub open spec fn default_group() -> GroupModel {
    GroupModel {
        tag: Seq::<char>::empty(),
        protocol: Seq::<char>::empty(),
        actors: None,
        health_check: Some(true),
        check_interval: Some(300),
        fail_timeout: Some(4),
        failover: Some(true),
        delay_base: Some(0),
    }
}

/// One setting item of a `Proxy Group` line applied to `g`.
pub open spec fn group_kv(g: GroupModel, param: Seq<char>) -> GroupModel {
    match key_value(param) {
        Some((k, v)) => if k == "health-check"@ {
            GroupModel { health_check: parsed_or(parse_bool_spec(v), g.health_check), ..g }
        } else if k == "check-interval"@ {
            GroupModel { check_interval: parsed_or(parse_i32_spec(v), g.check_interval), ..g }
        } else if k == "fail-timeout"@ {
            GroupModel { fail_timeout: parsed_or(parse_i32_spec(v), g.fail_timeout), ..g }
        } else if k == "failover"@ {
            GroupModel { failover: parsed_or(parse_bool_spec(v), g.failover), ..g }
        } else if k == "delay-base"@ {
            GroupModel { delay_base: parsed_or(parse_i32_spec(v), g.delay_base), ..g }
        } else {
            g
        },
        None => g,
    }
}

pub open spec fn group_kvs(g: GroupModel, params: Seq<Seq<char>>) -> GroupModel
    decreases params.len(),
{
    if params.len() == 0 {
        g
    } else {
        group_kv(group_kvs(g, params.drop_last()), params.last())
    }
}

/// The items without `=`, trimmed, empty ones left out: the actors of a group.
pub open spec fn actors_of(params: Seq<Seq<char>>) -> Seq<Seq<char>>
    decreases params.len(),
{
    if params.len() == 0 {
        Seq::<Seq<char>>::empty()
    } else {
        let p = params.last();
        let rest = actors_of(params.drop_last());
        if find_char(p, '=') >= p.len() && trim(p).len() > 0 {
            rest.push(trim(p))
        } else {
            rest
        }
    }
}

/// A `Proxy Group` line `tag = protocol, actor..., key=value...`, or `None`
/// where the line is dropped.
pub open spec fn group_line(line: Seq<char>) -> Option<GroupModel> {
    if find_char(line, '=') >= line.len() || line_tag(line).len() == 0 {
        None
    } else {
        match line_params(line) {
            Some(params) => {
                let rest = params.skip(1);
                if actors_of(rest).len() == 0 {
                    None
                } else {
                    let g = group_kvs(
                        GroupModel {
                            tag: line_tag(line),
                            protocol: params[0],
                            actors: Some(actors_of(rest)),
                            ..default_group()
                        },
                        rest,
                    );
                    if params[0] == "url-test"@ {
                        Some(GroupModel { protocol: "failover"@, failover: Some(false), ..g })
                    } else if params[0] == "fallback"@ {
                        Some(GroupModel { protocol: "failover"@, ..g })
                    } else {
                        Some(g)
                    }
                }
            },
            None => None,
        }
    }
}

pub open spec fn groups_of(lines: Seq<Seq<char>>) -> Seq<GroupModel>
    decreases lines.len(),
{
    if lines.len() == 0 {
        Seq::<GroupModel>::empty()
    } else {
        match group_line(lines.last()) {
            Some(g) => groups_of(lines.drop_last()).push(g),
            None => groups_of(lines.drop_last()),
        }
    }
}

impl Default for ProxyGroup {
    fn default() -> (r: ProxyGroup)
        ensures
            r@ == default_group(),
    {
        ProxyGroup {
            tag: String::new(),
            protocol: String::new(),
            actors: None,
            health_check: Some(true),
            check_interval: Some(300),
            fail_timeout: Some(4),
            failover: Some(true),
            delay_base: Some(0),
        }
    }
}

fn apply_group_kv(g: &mut ProxyGroup, param: &str)
    ensures
        final(g)@ == group_kv(old(g)@, param@),
{
    if let Some((k, v)) = get_key_value(param) {
        let k = k.as_str();
        let v = v.as_str();
        if str_eq(k, "health-check") {
            if let Some(x) = parse_bool(v) {
                g.health_check = Some(x);
            }
        } else if str_eq(k, "check-interval") {
            if let Some(x) = parse_i32(v) {
                g.check_interval = Some(x);
            }
        } else if str_eq(k, "fail-timeout") {
            if let Some(x) = parse_i32(v) {
                g.fail_timeout = Some(x);
            }
        } else if str_eq(k, "failover") {
            if let Some(x) = parse_bool(v) {
                g.failover = Some(x);
            }
        } else if str_eq(k, "delay-base") {
            if let Some(x) = parse_i32(v) {
                g.delay_base = Some(x);
            }
        }
    }
}

/// Decodes one `Proxy Group` line.
pub fn decode_group(line: &str) -> (r: Option<ProxyGroup>)
    ensures
        match r {
            Some(g) => group_line(line@) == Some(g@),
            None => group_line(line@) is None,
        },
{
    let (tag, params) = match split_tag_line(line) {
        Some(x) => x,
        None => return None,
    };
    if tag.unicode_len() == 0 {
        return None;
    }
    let params = match params {
        Some(p) => p,
        None => return None,
    };
    let ghost ps = seq_views(params@);
    let ghost rest = ps.skip(1);
    let mut actors: Vec<String> = Vec::new();
    let mut i: usize = 1;
    assert(rest.take(0) =~= Seq::<Seq<char>>::empty());
    assert(seq_views(actors@) =~= Seq::<Seq<char>>::empty());
    while i < params.len()
        invariant
            1 <= i <= params.len(),
            ps == seq_views(params@),
            rest == ps.skip(1),
            seq_views(actors@) == actors_of(rest.take(i - 1)),
        decreases params.len() - i,
    {
        assert(rest.take(i as int).drop_last() =~= rest.take(i - 1));
        assert(rest.take(i as int).last() == ps[i as int]);
        let param = params[i].as_str();
        if find(param, '=') >= param.unicode_len() {
            let actor = trimmed(param);
            if actor.unicode_len() > 0 {
                let owned = String::from_str(actor);
                assert(seq_views(actors@.push(owned)) =~= seq_views(actors@).push(owned@));
                actors.push(owned);
            }
        }
        i = i + 1;
    }
    assert(rest.take(params.len() - 1) =~= rest);
    if actors.len() == 0 {
        return None;
    }
    let mut group = ProxyGroup::default();
    group.tag = String::from_str(tag);
    group.protocol = params[0].clone();
    group.actors = Some(actors);
    let ghost start = group@;
    let mut j: usize = 1;
    while j < params.len()
        invariant
            1 <= j <= params.len(),
            ps == seq_views(params@),
            rest == ps.skip(1),
            group@ == group_kvs(start, rest.take(j - 1)),
            group.protocol@ == ps[0],
        decreases params.len() - j,
    {
        assert(rest.take(j as int).drop_last() =~= rest.take(j - 1));
        assert(rest.take(j as int).last() == ps[j as int]);
        apply_group_kv(&mut group, params[j].as_str());
        j = j + 1;
    }
    assert(rest.take(params.len() - 1) =~= rest);
    let proto = params[0].as_str();
    if str_eq(proto, "url-test") {
        group.protocol = String::from_str("failover");
        group.failover = Some(false);
    } else if str_eq(proto, "fallback") {
        group.protocol = String::from_str("failover");
    }
    Some(group)
}

/// Decodes the lines of the `Proxy Group` section.
pub fn decode_groups(lines: &Vec<String>) -> (r: Vec<ProxyGroup>)
    ensures
        groups_view(r@) == groups_of(seq_views(lines@)),
{
    let ghost ls = seq_views(lines@);
    let mut groups: Vec<ProxyGroup> = Vec::new();
    let mut i: usize = 0;
    assert(ls.take(0) =~= Seq::<Seq<char>>::empty());
    assert(groups_view(groups@) =~= Seq::<GroupModel>::empty());
    while i < lines.len()
        invariant
            i <= lines.len(),
            ls == seq_views(lines@),
            groups_view(groups@) == groups_of(ls.take(i as int)),
        decreases lines.len() - i,
    {
        assert(ls.take(i + 1).drop_last() =~= ls.take(i as int));
        if let Some(g) = decode_group(lines[i].as_str()) {
            assert(groups_view(groups@.push(g)) =~= groups_view(groups@).push(g@));
            groups.push(g);
        }
        i = i + 1;
    }
    assert(ls.take(lines.len() as int) =~= ls);
    groups
}

/// The rule types that carry a filter.
pub open spec fn has_filter(t: Seq<char>) -> bool {
    t == "IP-CIDR"@ || t == "DOMAIN"@ || t == "DOMAIN-SUFFIX"@ || t == "DOMAIN-KEYWORD"@ || t
        == "GEOIP"@ || t == "EXTERNAL"@
}

/// A `Rule` line `TYPE, filter, target` or `FINAL, target`, or `None` where
/// the line is dropped.
pub open spec fn rule_line(line: Seq<char>) -> Option<RuleModel> {
    match sep_list(line, ',') {
        Some(p) => if p.len() < 2 {
            None
        } else if p[0] == "FINAL"@ {
            if p.len() == 2 {
                Some(RuleModel { type_field: p[0], filter: None, target: p[1] })
            } else {
                None
            }
        } else if p.len() < 3 {
            None
        } else {
            Some(
                RuleModel {
                    type_field: p[0],
                    filter: if has_filter(p[0]) {
                        Some(p[1])
                    } else {
                        None
                    },
                    target: p[2],
                },
            )
        },
        None => None,
    }
}

pub open spec fn rules_of(lines: Seq<Seq<char>>) -> Seq<RuleModel>
    decreases lines.len(),
{
    if lines.len() == 0 {
        Seq::<RuleModel>::empty()
    } else {
        match rule_line(lines.last()) {
            Some(r) => rules_of(lines.drop_last()).push(r),
            None => rules_of(lines.drop_last()),
        }
    }
}

/// Decodes one `Rule` line.
pub fn decode_rule(line: &str) -> (r: Option<Rule>)
    ensures
        match r {
            Some(x) => rule_line(line@) == Some(x@),
            None => rule_line(line@) is None,
        },
{
    let params = match get_char_sep_slice(line, ',') {
        Some(p) => p,
        None => return None,
    };
    if params.len() < 2 {
        return None;
    }
    let t = params[0].as_str();
    if str_eq(t, "FINAL") {
        if params.len() != 2 {
            return None;
        }
        return Some(Rule { type_field: params[0].clone(), filter: None, target: params[1].clone() });
    }
    if params.len() < 3 {
        return None;
    }
    let filtered = str_eq(t, "IP-CIDR") || str_eq(t, "DOMAIN") || str_eq(t, "DOMAIN-SUFFIX")
        || str_eq(t, "DOMAIN-KEYWORD") || str_eq(t, "GEOIP") || str_eq(t, "EXTERNAL");
    let filter = if filtered {
        Some(params[1].clone())
    } else {
        None
    };
    Some(Rule { type_field: params[0].clone(), filter, target: params[2].clone() })
}

/// Decodes the lines of the `Rule` section.
pub fn decode_rules(lines: &Vec<String>) -> (r: Vec<Rule>)
    ensures
        rules_view(r@) == rules_of(seq_views(lines@)),
{
    let ghost ls = seq_views(lines@);
    let mut rules: Vec<Rule> = Vec::new();
    let mut i: usize = 0;
    assert(ls.take(0) =~= Seq::<Seq<char>>::empty());
    assert(rules_view(rules@) =~= Seq::<RuleModel>::empty());
    while i < lines.len()
        invariant
            i <= lines.len(),
            ls == seq_views(lines@),
            rules_view(rules@) == rules_of(ls.take(i as int)),
        decreases lines.len() - i,
    {
        assert(ls.take(i + 1).drop_last() =~= ls.take(i as int));
        if let Some(x) = decode_rule(lines[i].as_str()) {
            assert(rules_view(rules@.push(x)) =~= rules_view(rules@).push(x@));
            rules.push(x);
        }
        i = i + 1;
    }
    assert(ls.take(lines.len() as int) =~= ls);
    rules
}

/// The external configuration described by the lines of a file; `None`
/// stands for a line that could not be read, which is skipped.
pub open spec fn config_of(lines: Seq<Option<Seq<char>>>) -> ConfigModel {
    ConfigModel {
        general: Some(general_of(section_lines(lines, "General"@))),
        proxy: Some(proxies_of(section_lines(lines, "Proxy"@))),
        proxy_group: Some(groups_of(section_lines(lines, "Proxy Group"@))),
        rule: Some(rules_of(section_lines(lines, "Rule"@))),
    }
}

/// Decodes the lines of a configuration file into the external
/// configuration. Malformed lines and fields are dropped, never fatal.
pub fn from_lines(lines: Vec<Option<String>>) -> (r: Config)
    ensures
        r@ == config_of(lines_view(lines@)),
{
    let general = decode_general(&get_lines_by_section("General", &lines));
    let proxies = decode_proxies(&get_lines_by_section("Proxy", &lines));
    let groups = decode_groups(&get_lines_by_section("Proxy Group", &lines));
    let rules = decode_rules(&get_lines_by_section("Rule", &lines));
    Config { general: Some(general), proxy: Some(proxies), proxy_group: Some(groups), rule: Some(rules) }
}

/// Items written after the port: each preceded by `, `.
pub open spec fn joined_items(extra: Seq<Seq<char>>) -> Seq<char>
    decreases extra.len(),
{
    if extra.len() == 0 {
        Seq::<char>::empty()
    } else {
        joined_items(extra.drop_last()) + seq![',', ' '] + extra.last()
    }
}

/// A `Proxy` line written from its parts:
/// `tag = protocol, address, port` then `, item` for each further item.
pub open spec fn proxy_text(
    tag: Seq<char>,
    protocol: Seq<char>,
    address: Seq<char>,
    port: Seq<char>,
    extra: Seq<Seq<char>>,
) -> Seq<char> {
    tag + seq![' ', '=', ' '] + protocol + seq![',', ' '] + address + seq![',', ' '] + port
        + joined_items(extra)
}

/// An item that can follow the port, such as `key=value`: non-empty,
/// without surrounding whitespace, and without `,`.
pub open spec fn item_field(s: Seq<char>) -> bool {
    &&& s.len() > 0
    &&& !is_space(s[0])
    &&& !is_space(s.last())
    &&& forall|i: int| 0 <= i < s.len() ==> #[trigger] s[i] != ','
}

pub open spec fn spaced(extra: Seq<Seq<char>>) -> Seq<Seq<char>> {
    extra.map_values(|x: Seq<char>| seq![' '] + x)
}

proof fn lemma_kvs_keep_tag(p: ProxyModel, params: Seq<Seq<char>>)
    ensures
        proxy_kvs(p, params).tag == p.tag,
    decreases params.len(),
{
    if params.len() > 0 {
        lemma_kvs_keep_tag(p, params.drop_last());
    }
}

proof fn lemma_spaced_no_comma(x: Seq<char>)
    requires
        item_field(x),
    ensures
        forall|i: int| 0 <= i < (seq![' '] + x).len() ==> #[trigger] (seq![' '] + x)[i] != ',',
{
    assert forall|i: int| 0 <= i < (seq![' '] + x).len() implies #[trigger] (seq![' '] + x)[i]
        != ',' by {
        if i > 0 {
            assert((seq![' '] + x)[i] == x[i - 1]);
        }
    }
}

proof fn lemma_split_joined(base: Seq<char>, extra: Seq<Seq<char>>)
    requires
        forall|j: int| 0 <= j < extra.len() ==> item_field(#[trigger] extra[j]),
    ensures
        split(base + joined_items(extra), ',') == split(base, ',') + spaced(extra),
    decreases extra.len(),
{
    if extra.len() == 0 {
        assert(base + joined_items(extra) =~= base);
        assert(spaced(extra) =~= Seq::<Seq<char>>::empty());
        assert(split(base, ',') + spaced(extra) =~= split(base, ','));
    } else {
        let d = extra.drop_last();
        let x = extra.last();
        assert forall|j: int| 0 <= j < d.len() implies item_field(#[trigger] d[j]) by {
            assert(d[j] == extra[j]);
        }
        assert(item_field(extra[extra.len() - 1]));
        lemma_split_joined(base, d);
        let px = seq![' '] + x;
        assert(base + joined_items(extra) =~= (base + joined_items(d)) + seq![','] + px);
        lemma_split_concat(base + joined_items(d), ',', px);
        lemma_spaced_no_comma(x);
        lemma_split_single(px, ',');
        assert(spaced(extra) =~= spaced(d).push(px));
        assert(split(base, ',') + spaced(extra) =~= (split(base, ',') + spaced(d)) + seq![px]);
    }
}

proof fn lemma_trimmed_spaced(pre: Seq<Seq<char>>, extra: Seq<Seq<char>>)
    requires
        forall|j: int| 0 <= j < extra.len() ==> item_field(#[trigger] extra[j]),
    ensures
        nonempty_trimmed(pre + spaced(extra)) == nonempty_trimmed(pre) + extra,
    decreases extra.len(),
{
    if extra.len() == 0 {
        assert(pre + spaced(extra) =~= pre);
        assert(nonempty_trimmed(pre) + extra =~= nonempty_trimmed(pre));
    } else {
        let d = extra.drop_last();
        assert forall|j: int| 0 <= j < d.len() implies item_field(#[trigger] d[j]) by {
            assert(d[j] == extra[j]);
        }
        assert(item_field(extra[extra.len() - 1]));
        lemma_trimmed_spaced(pre, d);
        assert((pre + spaced(extra)).drop_last() =~= pre + spaced(d));
        lemma_trim_padded(extra.last());
        assert(nonempty_trimmed(pre) + extra =~= (nonempty_trimmed(pre) + d).push(extra.last()));
    }
}

proof fn lemma_joined_last(base: Seq<char>, extra: Seq<Seq<char>>)
    requires
        base.len() > 0,
        !is_space(base.last()),
        forall|j: int| 0 <= j < extra.len() ==> item_field(#[trigger] extra[j]),
    ensures
        (base + joined_items(extra)).len() > 0,
        !is_space((base + joined_items(extra)).last()),
{
    if extra.len() == 0 {
        assert(base + joined_items(extra) =~= base);
    } else {
        assert(item_field(extra[extra.len() - 1]));
        let d = extra.drop_last();
        assert(base + joined_items(extra) =~= (base + joined_items(d) + seq![',', ' ']) + extra.last());
    }
}

/// Decoding a `Proxy` line written from a tag, a protocol, an address, a
/// port and further items gives back that tag, address and port.
pub proof fn lemma_proxy_round_trip(
    tag: Seq<char>,
    protocol: Seq<char>,
    address: Seq<char>,
    port: Seq<char>,
    extra: Seq<Seq<char>>,
)
    requires
        plain_field(tag),
        plain_field(protocol),
        plain_field(address),
        plain_field(port),
        forall|j: int| 0 <= j < extra.len() ==> item_field(#[trigger] extra[j]),
        protocol != "direct"@,
        protocol != "drop"@,
        protocol != "reject"@,
        parse_u16_spec(port) is Some,
    ensures
        proxy_line(proxy_text(tag, protocol, address, port, extra)) is Some,
        proxy_line(proxy_text(tag, protocol, address, port, extra))->0.tag == tag,
        proxy_line(proxy_text(tag, protocol, address, port, extra))->0.address == Some(address),
        proxy_line(proxy_text(tag, protocol, address, port, extra))->0.port == parse_u16_spec(port),
{
    let line = proxy_text(tag, protocol, address, port, extra);
    let e: int = tag.len() as int + 1;
    assert(line[e] == '=');
    assert forall|i: int| 0 <= i < e implies line[i] != '=' by {
        if i < tag.len() {
            assert(line[i] == tag[i]);
        }
    }
    lemma_find_char_at(line, '=', e);
    assert(line.take(e) =~= tag + seq![' ']);
    lemma_trim_padded(tag);
    let pa = seq![' '] + address;
    let pp = seq![' '] + port;
    let tail = pa + seq![','] + (pp + joined_items(extra));
    let rest = protocol + seq![','] + tail;
    assert(line.skip(e + 1) =~= seq![' '] + rest);
    assert(rest[0] == protocol[0]);
    lemma_joined_last(pp, extra);
    assert(rest =~= (protocol + seq![','] + pa + seq![','] + pp) + joined_items(extra));
    lemma_joined_last(protocol + seq![','] + pa + seq![','] + pp, extra);
    lemma_trim_padded(rest);
    lemma_split_concat(protocol, ',', tail);
    lemma_split_concat(pa, ',', pp + joined_items(extra));
    lemma_split_joined(pp, extra);
    lemma_split_single(protocol, ',');
    assert forall|i: int| 0 <= i < pa.len() implies pa[i] != ',' by {
        if i > 0 {
            assert(pa[i] == address[i - 1]);
        }
    }
    assert forall|i: int| 0 <= i < pp.len() implies pp[i] != ',' by {
        if i > 0 {
            assert(pp[i] == port[i - 1]);
        }
    }
    lemma_split_single(pa, ',');
    lemma_split_single(pp, ',');
    let ps = split(rest, ',');
    assert(ps =~= seq![protocol, pa, pp] + spaced(extra));
    lemma_trim_plain(protocol);
    lemma_trim_padded(address);
    lemma_trim_padded(port);
    assert(trim(pa) == address);
    assert(trim(pp) == port);
    let pre = seq![protocol, pa, pp];
    assert(pre.drop_last() =~= seq![protocol, pa]);
    assert(pre.drop_last().drop_last() =~= seq![protocol]);
    assert(nonempty_trimmed(seq![protocol].drop_last()) =~= Seq::<Seq<char>>::empty());
    assert(nonempty_trimmed(seq![protocol]) =~= seq![protocol]);
    assert(nonempty_trimmed(seq![protocol, pa]) =~= seq![protocol, address]);
    assert(nonempty_trimmed(pre) =~= seq![protocol, address, port]);
    lemma_trimmed_spaced(pre, extra);
    let params = seq![protocol, address, port] + extra;
    assert(line_params(line) == Some(params));
    assert(params[0] == protocol && params[1] == address && params[2] == port);
    lemma_kvs_keep_tag(
        ProxyModel { tag: line_tag(line), protocol: params[0], ..default_proxy() },
        params,
    );
}

/// The round trip through a whole file: a header line that opens the
/// `Proxy` section, then a line written from a tag, a protocol, an address,
/// a port and further items, decode to one proxy with that tag, address and
/// port.
pub proof fn lemma_proxy_file_round_trip(
    head: Seq<char>,
    tag: Seq<char>,
    protocol: Seq<char>,
    address: Seq<char>,
    port: Seq<char>,
    extra: Seq<Seq<char>>,
)
    requires
        header(strip_comment(head)) == Some("Proxy"@),
        plain_field(tag),
        tag[0] != '[',
        plain_field(protocol),
        plain_field(address),
        plain_field(port),
        forall|j: int| 0 <= j < extra.len() ==> item_field(#[trigger] extra[j]),
        forall|i: int|
            0 <= i < proxy_text(tag, protocol, address, port, extra).len() ==> #[trigger] proxy_text(
                tag,
                protocol,
                address,
                port,
                extra,
            )[i] != '#',
        protocol != "direct"@,
        protocol != "drop"@,
        protocol != "reject"@,
        parse_u16_spec(port) is Some,
    ensures
        ({
            let c = config_of(seq![Some(head), Some(proxy_text(tag, protocol, address, port, extra))]);
            &&& c.proxy is Some
            &&& c.proxy->0.len() == 1
            &&& c.proxy->0[0].tag == tag
            &&& c.proxy->0[0].address == Some(address)
            &&& c.proxy->0[0].port == parse_u16_spec(port)
        }),
{
    let line = proxy_text(tag, protocol, address, port, extra);
    lemma_proxy_round_trip(tag, protocol, address, port, extra);
    lemma_find_char_absent(line, '#');
    assert(strip_comment(line) =~= line);
    let base = tag + seq![' ', '=', ' '] + protocol + seq![',', ' '] + address + seq![',', ' '] + port;
    lemma_joined_last(base, extra);
    assert(line[0] == tag[0]);
    lemma_trim_plain(line);
    assert(header(line) is None);
    let ls = seq![Some(head), Some(line)];
    assert(ls.drop_last() =~= seq![Some(head)]);
    assert(seq![Some(head)].drop_last() =~= Seq::<Option<Seq<char>>>::empty());
    assert(seq![Some(head)].last() == Some(head));
    assert(section_after(seq![Some(head)].drop_last()) == Seq::<char>::empty());
    assert(section_after(seq![Some(head)]) == "Proxy"@);
    assert(section_lines(seq![Some(head)].drop_last(), "Proxy"@) == Seq::<Seq<char>>::empty());
    assert(section_lines(seq![Some(head)], "Proxy"@) =~= Seq::<Seq<char>>::empty());
    assert(ls.last() == Some(line));
    assert(section_lines(ls, "Proxy"@) =~= seq![line]);
    assert(seq![line].drop_last() =~= Seq::<Seq<char>>::empty());
    assert(seq![line].last() == line);
    assert(proxies_of(seq![line].drop_last()) == Seq::<ProxyModel>::empty());
}

} // verus!
