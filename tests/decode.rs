use leaf_conf::conf::decode_proxy;
use leaf_conf::text::{get_char_sep_slice, get_section, parse_i32, parse_u16, remove_comments};
use leaf_conf::{from_lines, Config};

fn lines(text: &str) -> Vec<Option<String>> {
    text.lines().map(|l| Some(l.to_string())).collect()
}

fn decode(text: &str) -> Config {
    from_lines(lines(text))
}

#[test]
fn comment_is_stripped_to_end_of_line() {
    assert_eq!(remove_comments("a = b # note"), "a = b ");
    assert_eq!(remove_comments("# whole line"), "");
    assert_eq!(remove_comments("no comment"), "no comment");
}

#[test]
fn section_headers_are_whitespace_flexible() {
    assert_eq!(get_section("[General]"), Some("General"));
    assert_eq!(get_section("  [ Proxy Group ]  "), Some("Proxy Group"));
    assert_eq!(get_section("[a]b]"), None);
    assert_eq!(get_section("General"), None);
}

#[test]
fn separated_list_drops_empty_items() {
    assert_eq!(
        get_char_sep_slice(" a, ,b ,, c ", ','),
        Some(vec!["a".to_string(), "b".to_string(), "c".to_string()])
    );
    assert_eq!(get_char_sep_slice(" , ,", ','), None);
    assert_eq!(get_char_sep_slice("", ','), None);
}

#[test]
fn numbers_parse_like_std() {
    assert_eq!(parse_u16("443"), Some(443));
    assert_eq!(parse_u16("+65535"), Some(65535));
    assert_eq!(parse_u16("65536"), None);
    assert_eq!(parse_u16("-1"), None);
    assert_eq!(parse_u16(""), None);
    assert_eq!(parse_u16("4a"), None);
    assert_eq!(parse_i32("-2147483648"), Some(i32::MIN));
    assert_eq!(parse_i32("2147483647"), Some(i32::MAX));
    assert_eq!(parse_i32("2147483648"), None);
    assert_eq!(parse_i32("-"), None);
    assert_eq!(parse_i32("00000000000000000012"), Some(12));
}

#[test]
fn lines_are_grouped_by_section() {
    let c = decode(
        "[General]\nloglevel = debug\n[Proxy]\nd = direct\n[Rule]\nFINAL, d\n[General]\nport = 1087\n",
    );
    let g = c.general.unwrap();
    assert_eq!(g.loglevel.as_deref(), Some("debug"));
    assert_eq!(g.port, Some(1087));
    assert_eq!(c.proxy.unwrap().len(), 1);
    assert_eq!(c.rule.unwrap().len(), 1);
}

#[test]
fn unreadable_lines_are_skipped() {
    let input = vec![
        Some("[Proxy]".to_string()),
        None,
        Some("d = direct".to_string()),
    ];
    let c = from_lines(input);
    assert_eq!(c.proxy.unwrap().len(), 1);
}

#[test]
fn general_section_fields() {
    let c = decode(
        "[General]\n\
         tun-fd = 7\n\
         tun = utun8, 10.10.0.2, 255.255.255.0, 10.10.0.1, 1400\n\
         dns-server = 1.1.1.1, 8.8.4.4\n\
         dns-interface = 0.0.0.0\n\
         always-real-ip = *apple.com, *icloud.com\n\
         interface = 127.0.0.1\n\
         port = 1087\n\
         socks-interface = 127.0.0.1\n\
         socks-port = notaport\n\
         unknown = x\n",
    );
    let g = c.general.unwrap();
    assert_eq!(g.tun_fd, Some(7));
    let t = g.tun.unwrap();
    assert_eq!(t.name.as_deref(), Some("utun8"));
    assert_eq!(t.gateway.as_deref(), Some("10.10.0.1"));
    assert_eq!(t.mtu, Some(1400));
    assert_eq!(g.dns_server, Some(vec!["1.1.1.1".to_string(), "8.8.4.4".to_string()]));
    assert_eq!(g.always_real_ip.unwrap().len(), 2);
    assert_eq!(g.interface.as_deref(), Some("127.0.0.1"));
    assert_eq!(g.port, Some(1087));
    assert_eq!(g.socks_interface.as_deref(), Some("127.0.0.1"));
    assert_eq!(g.socks_port, None);
}

#[test]
fn tun_directive_needs_five_items() {
    let c = decode("[General]\ntun = utun8, 10.10.0.2, 255.255.255.0\n");
    assert!(c.general.unwrap().tun.is_none());
}

#[test]
fn general_line_with_two_equals_is_ignored() {
    let c = decode("[General]\nloglevel = a = b\n");
    assert!(c.general.unwrap().loglevel.is_none());
}

#[test]
fn proxy_line_fields() {
    let p = decode_proxy("myproxy = vmess, 1.2.3.4, 443, username=uuid-1, tls=true, ws=true, ws-path=/v, sni=example.com, interface=192.168.0.2").unwrap();
    assert_eq!(p.tag, "myproxy");
    assert_eq!(p.protocol, "vmess");
    assert_eq!(p.address.as_deref(), Some("1.2.3.4"));
    assert_eq!(p.port, Some(443));
    assert_eq!(p.username.as_deref(), Some("uuid-1"));
    assert_eq!(p.tls, Some(true));
    assert_eq!(p.ws, Some(true));
    assert_eq!(p.ws_path.as_deref(), Some("/v"));
    assert_eq!(p.sni.as_deref(), Some("example.com"));
    assert_eq!(p.interface, "192.168.0.2");
    assert_eq!(p.encrypt_method.as_deref(), Some("chacha20-ietf-poly1305"));
}

#[test]
fn proxy_round_trip_of_tag_address_port() {
    let p = decode_proxy("  edge-1 = trojan, example.org, 8443, password=pw").unwrap();
    assert_eq!(p.tag, "edge-1");
    assert_eq!(p.address.as_deref(), Some("example.org"));
    assert_eq!(p.port, Some(8443));
    assert_eq!(p.password.as_deref(), Some("pw"));
}

#[test]
fn proxy_aliases_are_resolved() {
    let p = decode_proxy("s = ss, 1.1.1.1, 8388, encrypt-method=aes-128-gcm, password=x").unwrap();
    assert_eq!(p.protocol, "shadowsocks");
    assert_eq!(p.encrypt_method.as_deref(), Some("aes-128-gcm"));
    let r = decode_proxy("block = reject").unwrap();
    assert_eq!(r.protocol, "drop");
    assert_eq!(r.interface, "0.0.0.0");
    let d = decode_proxy("d = direct, interface=10.0.0.1").unwrap();
    assert_eq!(d.protocol, "direct");
    assert_eq!(d.interface, "10.0.0.1");
    assert!(d.address.is_none());
}

#[test]
fn malformed_proxy_lines_are_dropped() {
    assert!(decode_proxy(" = direct").is_none());
    assert!(decode_proxy("nodelimiter").is_none());
    assert!(decode_proxy("x = ").is_none());
    assert!(decode_proxy("x = vmess, 1.2.3.4").is_none());
    assert!(decode_proxy("x = vmess, 1.2.3.4, 70000").is_none());
}

#[test]
fn proxy_group_lines() {
    let c = decode(
        "[Proxy Group]\n\
         g1 = url-test, a, b, a, check-interval=60, fail-timeout=bad\n\
         g2 = fallback, a, health-check=false\n\
         g3 = tryall, a, delay-base=50\n\
         g4 = random, x=y\n\
         = random, a\n",
    );
    let gs = c.proxy_group.unwrap();
    assert_eq!(gs.len(), 3);
    assert_eq!(gs[0].tag, "g1");
    assert_eq!(gs[0].protocol, "failover");
    assert_eq!(gs[0].failover, Some(false));
    assert_eq!(gs[0].actors, Some(vec!["a".to_string(), "b".to_string(), "a".to_string()]));
    assert_eq!(gs[0].check_interval, Some(60));
    assert_eq!(gs[0].fail_timeout, Some(4));
    assert_eq!(gs[0].health_check, Some(true));
    assert_eq!(gs[1].protocol, "failover");
    assert_eq!(gs[1].failover, Some(true));
    assert_eq!(gs[1].health_check, Some(false));
    assert_eq!(gs[2].protocol, "tryall");
    assert_eq!(gs[2].delay_base, Some(50));
}

#[test]
fn rule_lines() {
    let c = decode(
        "[Rule]\n\
         IP-CIDR, 10.0.0.0/8\n\
         DOMAIN-SUFFIX, google.com, p\n\
         WHATEVER, x, p\n\
         FINAL, d\n\
         FINAL, a, b\n\
         FINAL\n",
    );
    let rs = c.rule.unwrap();
    assert_eq!(rs.len(), 3);
    assert_eq!(rs[0].type_field, "DOMAIN-SUFFIX");
    assert_eq!(rs[0].filter.as_deref(), Some("google.com"));
    assert_eq!(rs[0].target, "p");
    assert_eq!(rs[1].type_field, "WHATEVER");
    assert!(rs[1].filter.is_none());
    assert_eq!(rs[2].type_field, "FINAL");
    assert_eq!(rs[2].target, "d");
    assert!(rs[2].filter.is_none());
}

#[test]
fn rule_with_two_fields_is_dropped() {
    let c = decode("[Rule]\nIP-CIDR, 10.0.0.0/8\n");
    assert_eq!(c.rule.unwrap().len(), 0);
}

#[test]
fn malformed_group_values_keep_defaults() {
    let c = decode(
        "[Proxy Group]\n\
         g = failover, a, health-check=yes, failover=maybe, check-interval=x, delay-base=-\n\
         h = failover, a, check-interval=60, check-interval=bad, health-check=false\n",
    );
    let gs = c.proxy_group.unwrap();
    assert_eq!(gs[0].health_check, Some(true));
    assert_eq!(gs[0].failover, Some(true));
    assert_eq!(gs[0].check_interval, Some(300));
    assert_eq!(gs[0].delay_base, Some(0));
    assert_eq!(gs[1].check_interval, Some(60));
    assert_eq!(gs[1].health_check, Some(false));
}

#[test]
fn malformed_proxy_flags_keep_defaults() {
    let p = decode_proxy("v = vmess, h, 1, username=u, tls=yes, ws=true, ws=1").unwrap();
    assert_eq!(p.tls, Some(false));
    assert_eq!(p.ws, Some(true));
}

#[test]
fn final_rule_needs_exactly_two_fields() {
    let c = decode("[Rule]\nFINAL, a, b\n");
    assert_eq!(c.rule.unwrap().len(), 0);
}
