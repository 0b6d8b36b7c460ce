use leaf_conf::translate::apply_final;
use leaf_conf::{
    from_lines, to_internal, Config, DomainType, InboundSettings, InternalConfig, LogLevel,
    Outbound, OutboundSettings, TranslateError,
};

fn translate(text: &str) -> Result<InternalConfig, TranslateError> {
    let lines: Vec<Option<String>> = text.lines().map(|l| Some(l.to_string())).collect();
    to_internal(from_lines(lines), "/opt/geo.mmdb")
}

fn tags(c: &InternalConfig) -> Vec<String> {
    c.outbounds.iter().map(|o| o.tag.clone()).collect()
}

fn actors(o: &Outbound) -> Vec<String> {
    match &o.settings {
        OutboundSettings::Chain { actors } => actors.clone(),
        other => panic!("not a chain: {:?}", other),
    }
}

fn plain(tag: &str) -> Outbound {
    Outbound {
        protocol: "direct".to_string(),
        tag: tag.to_string(),
        bind: "0.0.0.0".to_string(),
        settings: OutboundSettings::Empty,
    }
}

#[test]
fn vmess_with_tls_gives_three_outbounds() {
    let c = translate("[Proxy]\nmyproxy = vmess, 1.2.3.4, 443, username=uuid-1, tls=true\n").unwrap();
    assert_eq!(tags(&c), vec!["myproxy", "myproxy_tls_xxx", "myproxy_vmess_xxx"]);
    assert_eq!(c.outbounds[0].protocol, "chain");
    assert_eq!(actors(&c.outbounds[0]), vec!["myproxy_tls_xxx", "myproxy_vmess_xxx"]);
    assert_eq!(c.outbounds[1].protocol, "tls");
    assert_eq!(c.outbounds[2].protocol, "vmess");
    match &c.outbounds[2].settings {
        OutboundSettings::VMess { address, port, uuid, security } => {
            assert_eq!(address, "1.2.3.4");
            assert_eq!(*port, 443);
            assert_eq!(uuid, "uuid-1");
            assert_eq!(security, "chacha20-ietf-poly1305");
        }
        other => panic!("unexpected {:?}", other),
    }
}

#[test]
fn vless_with_tls_and_ws_orders_layers() {
    let c = translate("[Proxy]\nv = vless, h, 1, username=u, tls=true, ws=true, sni=s.org\n").unwrap();
    assert_eq!(tags(&c), vec!["v", "v_tls_xxx", "v_ws_xxx", "v_vless_xxx"]);
    assert_eq!(actors(&c.outbounds[0]), vec!["v_tls_xxx", "v_ws_xxx", "v_vless_xxx"]);
    match &c.outbounds[1].settings {
        OutboundSettings::Tls { server_name } => assert_eq!(server_name, "s.org"),
        other => panic!("unexpected {:?}", other),
    }
    match &c.outbounds[2].settings {
        OutboundSettings::WebSocket { path } => assert_eq!(path, "/"),
        other => panic!("unexpected {:?}", other),
    }
}

#[test]
fn vmess_without_layers_is_chain_and_base() {
    let c = translate("[Proxy]\nv = vmess, h, 1, username=u\n").unwrap();
    assert_eq!(tags(&c), vec!["v", "v_vmess_xxx"]);
    assert_eq!(actors(&c.outbounds[0]), vec!["v_vmess_xxx"]);
}

#[test]
fn trojan_is_always_chain_tls_trojan() {
    let c = translate("[Proxy]\nt = trojan, h, 443, password=pw, ws=true, tls=false\n").unwrap();
    assert_eq!(tags(&c), vec!["t", "t_tls_xxx", "t_trojan_xxx"]);
    let protocols: Vec<&str> = c.outbounds.iter().map(|o| o.protocol.as_str()).collect();
    assert_eq!(protocols, vec!["chain", "tls", "trojan"]);
    assert_eq!(actors(&c.outbounds[0]), vec!["t_tls_xxx", "t_trojan_xxx"]);
}

#[test]
fn shadowsocks_settings() {
    let c = translate("[Proxy]\ns = ss, 1.1.1.1, 8388, password=x\n").unwrap();
    assert_eq!(c.outbounds.len(), 1);
    assert_eq!(c.outbounds[0].protocol, "shadowsocks");
    match &c.outbounds[0].settings {
        OutboundSettings::Shadowsocks { address, port, method, password } => {
            assert_eq!(address, "1.1.1.1");
            assert_eq!(*port, 8388);
            assert_eq!(method, "chacha20-ietf-poly1305");
            assert_eq!(password, "x");
        }
        other => panic!("unexpected {:?}", other),
    }
}

#[test]
fn vmess_without_username_fails() {
    let r = translate("[Proxy]\nv = vmess, h, 1\n");
    assert_eq!(r.unwrap_err(), TranslateError::InvalidVMessSettings);
    let r = translate("[Proxy]\nd = direct\nv = vless, h, 1\nw = vmess, h, 1\n");
    assert_eq!(r.unwrap_err(), TranslateError::InvalidVLessSettings);
}

#[test]
fn final_rule_moves_target_first() {
    let c = translate("[Proxy]\na = direct\nb = direct\nmyproxy = direct\n[Rule]\nFINAL, myproxy\n").unwrap();
    assert_eq!(tags(&c), vec!["myproxy", "a", "b"]);
    assert_eq!(c.routing_rules.len(), 0);
}

#[test]
fn final_rule_with_unknown_target_changes_nothing() {
    let c = translate("[Proxy]\na = direct\nb = drop\n[Rule]\nFINAL, nowhere\n").unwrap();
    assert_eq!(tags(&c), vec!["a", "b"]);
}

#[test]
fn apply_final_on_a_list() {
    let mut v = vec![plain("a"), plain("b"), plain("myproxy")];
    apply_final(&mut v, "myproxy");
    let t: Vec<&str> = v.iter().map(|o| o.tag.as_str()).collect();
    assert_eq!(t, vec!["myproxy", "a", "b"]);
    apply_final(&mut v, "zzz");
    let t: Vec<&str> = v.iter().map(|o| o.tag.as_str()).collect();
    assert_eq!(t, vec!["myproxy", "a", "b"]);
}

#[test]
fn groups_become_outbounds() {
    let c = translate(
        "[Proxy Group]\nf = url-test, a, b\nt = tryall, a, delay-base=20\nr = random, a\nx = unknown, a\n",
    )
    .unwrap();
    assert_eq!(tags(&c), vec!["f", "t", "r"]);
    assert_eq!(c.outbounds[0].bind, "0.0.0.0");
    match &c.outbounds[0].settings {
        OutboundSettings::FailOver { actors, fail_timeout, health_check, check_interval, failover } => {
            assert_eq!(actors, &vec!["a".to_string(), "b".to_string()]);
            assert_eq!(*fail_timeout, 4);
            assert!(*health_check);
            assert_eq!(*check_interval, 300);
            assert!(!*failover);
        }
        other => panic!("unexpected {:?}", other),
    }
    match &c.outbounds[1].settings {
        OutboundSettings::TryAll { delay_base, .. } => assert_eq!(*delay_base, 20),
        other => panic!("unexpected {:?}", other),
    }
}

#[test]
fn rules_are_compiled_in_order() {
    let c = translate(
        "[Rule]\n\
         IP-CIDR, 10.0.0.0/8, a\n\
         DOMAIN, x.com, a\n\
         DOMAIN-SUFFIX, y.com, b\n\
         DOMAIN-KEYWORD, z, b\n\
         GEOIP, CN, d\n\
         EXTERNAL, site:cn, d\n\
         IP-CIDR, 1.0.0.0/8\n",
    )
    .unwrap();
    let r = &c.routing_rules;
    assert_eq!(r.len(), 6);
    assert_eq!(r[0].target_tag, "a");
    assert_eq!(r[0].ip_cidrs, vec!["10.0.0.0/8".to_string()]);
    assert_eq!(r[1].domains[0].field_type, DomainType::Full);
    assert_eq!(r[2].domains[0].field_type, DomainType::Domain);
    assert_eq!(r[3].domains[0].field_type, DomainType::Plain);
    assert_eq!(r[3].domains[0].value, "z");
    assert_eq!(r[4].mmdbs[0].file, "/opt/geo.mmdb");
    assert_eq!(r[4].mmdbs[0].country_code, "CN");
    assert_eq!(r[5].external, vec!["site:cn".to_string()]);
}

#[test]
fn inbounds_log_and_dns() {
    let c = translate(
        "[General]\nloglevel = trace\ninterface = 127.0.0.1\nport = 1087\nsocks-interface = 127.0.0.1\nsocks-port = 1086\ntun = utun8, 10.10.0.2, 255.255.255.0, 10.10.0.1, x\nalways-real-ip = a.com\ndns-server = ,\n",
    )
    .unwrap();
    assert_eq!(c.log.level, LogLevel::Trace);
    let protocols: Vec<&str> = c.inbounds.iter().map(|i| i.protocol.as_str()).collect();
    assert_eq!(protocols, vec!["http", "socks", "tun"]);
    assert_eq!(c.inbounds[0].port, 1087);
    match &c.inbounds[1].settings {
        InboundSettings::Socks { bind } => assert_eq!(bind, "127.0.0.1"),
        other => panic!("unexpected {:?}", other),
    }
    match &c.inbounds[2].settings {
        InboundSettings::Tun(t) => {
            assert_eq!(t.fd, -1);
            assert_eq!(t.name, "utun8");
            assert_eq!(t.mtu, 1500);
            assert_eq!(t.fake_dns_exclude, vec!["a.com".to_string()]);
        }
        other => panic!("unexpected {:?}", other),
    }
    assert_eq!(c.dns.bind, "0.0.0.0");
    assert!(c.dns.servers.is_empty());
}

#[test]
fn tun_fd_wins_and_unknown_level_is_warn() {
    let c = translate("[General]\nloglevel = loud\ntun-fd = 5\ntun = a, b, c, d, 1400\ndns-interface = 10.0.0.1\n").unwrap();
    assert_eq!(c.log.level, LogLevel::Warn);
    match &c.inbounds[0].settings {
        InboundSettings::Tun(t) => {
            assert_eq!(t.fd, 5);
            assert_eq!(t.name, "");
        }
        other => panic!("unexpected {:?}", other),
    }
    assert_eq!(c.dns.bind, "10.0.0.1");
}

#[test]
fn no_general_section_means_info_level() {
    let c = to_internal(Config::default(), "geo.mmdb").unwrap();
    assert_eq!(c.log.level, LogLevel::Info);
    assert!(c.inbounds.is_empty());
    assert!(c.outbounds.is_empty());
    assert_eq!(c.dns.bind, "");
}

#[test]
fn translation_is_repeatable() {
    let text = "[General]\nport = 1\ninterface = a\n[Proxy]\np = vmess, h, 1, username=u, tls=true\nd = direct\n[Proxy Group]\ng = random, p, d\n[Rule]\nDOMAIN, x, p\nFINAL, g\n";
    let a = translate(text).unwrap();
    let b = translate(text).unwrap();
    assert_eq!(format!("{:?}", a), format!("{:?}", b));
    assert_eq!(tags(&a), vec!["g", "p", "p_tls_xxx", "p_vmess_xxx", "d"]);
}
