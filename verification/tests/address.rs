use holger::config::parse_ip_port;
use holger::exposed::http2::{
    first_private_key, internal_error, not_found, respond, Http2Backend, ListenerState, PemItemKind,
};
use holger::exposed::split_route;
use holger::repository::types::RepositoryError;
use holger::text::{parse_u16, str_equal, str_split, str_strip_prefix, str_trim_end, str_trim_start};

#[test]
fn host_and_port_of_a_full_url() {
    assert_eq!(parse_ip_port("https://127.0.0.1:8443/"), ("127.0.0.1".to_string(), 8443));
    assert_eq!(parse_ip_port("https://127.0.0.1:8443"), ("127.0.0.1".to_string(), 8443));
    assert_eq!(parse_ip_port("https://127.0.0.1:8443///"), ("127.0.0.1".to_string(), 8443));
    assert_eq!(parse_ip_port("http://example.org:80/"), ("example.org".to_string(), 80));
    assert_eq!(parse_ip_port("https://[::1]:8443/"), ("[".to_string(), 443));
}

#[test]
fn a_path_after_the_port_is_not_part_of_it() {
    assert_eq!(parse_ip_port("https://127.0.0.1:8443/repo/"), ("127.0.0.1".to_string(), 8443));
    assert_eq!(
        Http2Backend::parse_ip_port("https://127.0.0.1:8443/repo/"),
        ("127.0.0.1".to_string(), 8443)
    );
    assert_eq!(parse_ip_port("https://example.org:8443/path/"), ("example.org".to_string(), 8443));
    assert_eq!(parse_ip_port("https://example.org:8443/a:1/b"), ("example.org".to_string(), 8443));
    assert_eq!(parse_ip_port("https://example.org/path:9/"), ("example.org".to_string(), 443));
    assert_eq!(parse_ip_port("https://example.org/a://b:7"), ("example.org".to_string(), 443));
    let backend = Http2Backend::from_config("api1".to_string(), "https://127.0.0.1:8443/repo/");
    assert_eq!(backend.listener_addr, "127.0.0.1:8443");
    assert_eq!(backend.port, 8443);
}

#[test]
fn port_defaults_to_443() {
    assert_eq!(parse_ip_port("https://example.org/"), ("example.org".to_string(), 443));
    assert_eq!(parse_ip_port("https://example.org"), ("example.org".to_string(), 443));
    assert_eq!(parse_ip_port("https://example.org:/"), ("example.org".to_string(), 443));
    assert_eq!(parse_ip_port("https://example.org:http/"), ("example.org".to_string(), 443));
    assert_eq!(parse_ip_port("https://example.org:65536/"), ("example.org".to_string(), 443));
    assert_eq!(parse_ip_port("https://example.org:65535/"), ("example.org".to_string(), 65535));
    assert_eq!(parse_ip_port("https://example.org:+80/"), ("example.org".to_string(), 80));
    assert_eq!(parse_ip_port("https://example.org:0080/"), ("example.org".to_string(), 80));
    assert_eq!(parse_ip_port("https://example.org:-80/"), ("example.org".to_string(), 443));
    assert_eq!(parse_ip_port("https://example.org:80:90/"), ("example.org".to_string(), 443));
}

#[test]
fn host_defaults_to_loopback_without_a_scheme_separator() {
    assert_eq!(parse_ip_port("localhost"), ("127.0.0.1".to_string(), 443));
    assert_eq!(parse_ip_port("localhost:8080"), ("127.0.0.1".to_string(), 8080));
    assert_eq!(parse_ip_port("localhost:8080/x"), ("127.0.0.1".to_string(), 8080));
    assert_eq!(parse_ip_port(""), ("127.0.0.1".to_string(), 443));
    assert_eq!(parse_ip_port("/"), ("127.0.0.1".to_string(), 443));
    assert_eq!(parse_ip_port("https:/example.org:8443"), ("127.0.0.1".to_string(), 443));
}

#[test]
fn the_authority_follows_the_first_scheme_separator() {
    assert_eq!(parse_ip_port("a://b:1://c:2"), ("b".to_string(), 443));
    assert_eq!(parse_ip_port("a://b:1/x://c:2"), ("b".to_string(), 1));
    assert_eq!(parse_ip_port("https://"), ("".to_string(), 443));
    assert_eq!(parse_ip_port("https://x://"), ("x".to_string(), 443));
    assert_eq!(parse_ip_port("https://:9000"), ("".to_string(), 9000));
    assert_eq!(parse_ip_port("://h:5"), ("h".to_string(), 5));
}

#[test]
fn listener_binds_host_and_port_of_the_url() {
    let backend = Http2Backend::from_config("api1".to_string(), "https://127.0.0.1:8443/");
    assert_eq!(backend.name, "api1");
    assert_eq!(backend.listener_addr, "127.0.0.1:8443");
    assert_eq!(backend.port, 8443);
    assert_eq!(backend.state, ListenerState::Stopped);
    let backend = Http2Backend::from_config("web".to_string(), "https://example.org/");
    assert_eq!(backend.listener_addr, "example.org:443");
    let backend = Http2Backend::from_config("zero".to_string(), "https://h:0/");
    assert_eq!(backend.listener_addr, "h:0");
    let backend = Http2Backend::from_config("max".to_string(), "https://h:65535/");
    assert_eq!(backend.listener_addr, "h:65535");
    let backend = Http2Backend::from_config("ten".to_string(), "https://h:10/");
    assert_eq!(backend.listener_addr, "h:10");
    assert_eq!(Http2Backend::parse_ip_port("https://h:10/"), ("h".to_string(), 10));
}

#[test]
fn start_then_stop_leaves_the_listener_stopping() {
    let mut backend = Http2Backend::new("api1".to_string(), "127.0.0.1:8443".to_string(), 8443);
    assert!(!backend.is_running());
    backend.stop();
    assert_eq!(backend.state, ListenerState::Stopped);
    backend.start();
    assert!(backend.is_running());
    assert!(backend.keep_accepting());
    assert!(backend.is_running());
    backend.stop();
    assert_eq!(backend.state, ListenerState::Stopping);
    backend.stop();
    assert_eq!(backend.state, ListenerState::Stopping);
    assert!(!backend.is_running());
    assert!(!backend.keep_accepting());
    assert_eq!(backend.state, ListenerState::Stopped);
    assert!(!backend.keep_accepting());
    backend.start();
    backend.stop();
    backend.start();
    assert!(backend.keep_accepting());
}

#[test]
fn a_listener_goes_through_its_life_in_order() {
    let mut backend = Http2Backend::new("api1".to_string(), "127.0.0.1:8443".to_string(), 8443);
    assert_eq!(backend.state, ListenerState::Stopped);
    assert!(!backend.keep_accepting());
    assert_eq!(backend.state, ListenerState::Stopped);
    backend.begin_start();
    assert_eq!(backend.state, ListenerState::Starting);
    backend.stop();
    assert_eq!(backend.state, ListenerState::Starting);
    assert!(!backend.keep_accepting());
    assert_eq!(backend.state, ListenerState::Starting);
    backend.start();
    assert_eq!(backend.state, ListenerState::Running);
    backend.begin_start();
    assert_eq!(backend.state, ListenerState::Running);
    backend.stop();
    assert_eq!(backend.state, ListenerState::Stopping);
    backend.begin_start();
    assert_eq!(backend.state, ListenerState::Stopping);
    assert!(!backend.keep_accepting());
    assert_eq!(backend.state, ListenerState::Stopped);
}

#[test]
fn fixed_answers() {
    assert_eq!(not_found(), (404, Vec::new(), b"Repo Not Found".to_vec()));
    assert_eq!(internal_error(), (500, Vec::new(), b"Internal Error".to_vec()));
    assert_eq!(
        respond(Err(RepositoryError::Failed { message: "x".to_string() })),
        (500, Vec::new(), b"Internal Error".to_vec())
    );
    let answer = (201, vec![("A".to_string(), "b".to_string())], vec![1, 2]);
    assert_eq!(respond(Ok(answer.clone())), answer);
}

#[test]
fn the_first_private_key_is_chosen() {
    let other = PemItemKind::Other;
    assert_eq!(first_private_key(&[]), None);
    assert_eq!(first_private_key(&[other, other]), None);
    assert_eq!(first_private_key(&[other, PemItemKind::RsaKey, PemItemKind::Pkcs8Key]), Some(1));
    assert_eq!(first_private_key(&[PemItemKind::Pkcs8Key]), Some(0));
    assert_eq!(first_private_key(&[other, other, PemItemKind::EcKey]), Some(2));
}

#[test]
fn routing_key_is_the_first_segment() {
    assert_eq!(split_route("/crates1/index/config.json"), ("crates1", "index/config.json"));
    assert_eq!(split_route("crates1/index/config.json"), ("crates1", "index/config.json"));
    assert_eq!(split_route("///crates1/"), ("crates1", ""));
    assert_eq!(split_route("/crates1"), ("crates1", ""));
    assert_eq!(split_route("/"), ("", ""));
    assert_eq!(split_route(""), ("", ""));
    assert_eq!(split_route("/a//b"), ("a", "/b"));
    assert_eq!(split_route("/é/ü"), ("é", "ü"));
}

#[test]
fn text_is_cut_at_ascii_bytes() {
    assert_eq!(str_trim_start("///a/b/", b'/'), "a/b/");
    assert_eq!(str_trim_start("", b'/'), "");
    assert_eq!(str_trim_start("///", b'/'), "");
    assert_eq!(str_trim_end("/a/b///", b'/'), "/a/b");
    assert_eq!(str_trim_end("///", b'/'), "");
    assert_eq!(str_split("", b'/'), vec![""]);
    assert_eq!(str_split("a", b'/'), vec!["a"]);
    assert_eq!(str_split("a/b//c/", b'/'), vec!["a", "b", "", "c", ""]);
    assert_eq!(str_split("/é/ü", b'/'), vec!["", "é", "ü"]);
    assert_eq!(str_strip_prefix("s3://bucket", "s3://"), Some("bucket"));
    assert_eq!(str_strip_prefix("s3:/bucket", "s3://"), None);
    assert_eq!(str_strip_prefix("s3", "s3://"), None);
    assert_eq!(str_strip_prefix("abc", ""), Some("abc"));
    assert_eq!(str_strip_prefix("éa", "é"), Some("a"));
    assert_eq!(str_strip_prefix("日本語", "日本"), Some("語"));
    assert_eq!(str_strip_prefix("日本語", "日本語"), Some(""));
    assert_eq!(str_strip_prefix("e", "é"), None);
    assert_eq!(str_strip_prefix("éa", "è"), None);
    assert!(str_equal("abc", "abc"));
    assert!(!str_equal("abc", "abd"));
    assert!(!str_equal("abc", "ab"));
}

#[test]
fn numbers_are_read_as_the_standard_library_reads_them() {
    for text in ["0", "7", "080", "443", "65535", "65536", "99999999999", "+1", "+", "", "-1", "1a", " 1", "1 ", "٣"] {
        assert_eq!(parse_u16(text.as_bytes()), text.parse::<u16>().ok(), "text {:?}", text);
    }
}
