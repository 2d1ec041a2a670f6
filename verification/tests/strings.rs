use split_dns_resolver::config::{Args, Config, ServerDefinition};
use split_dns_resolver::utils::split_string;

#[test]
fn splits_and_trims_an_upstream_list() {
    let parts = split_string(String::from("8.8.8.8:53, 8.8.4.4:53, 1.1.1.1:53"));
    assert_eq!(parts, vec!["8.8.8.8:53", "8.8.4.4:53", "1.1.1.1:53"]);
}

#[test]
fn trims_tabs_and_newlines() {
    let parts = split_string(String::from("\t a \n,\r\nb , c\t"));
    assert_eq!(parts, vec!["a", "b", "c"]);
}

#[test]
fn keeps_empty_pieces() {
    let parts = split_string(String::from("a,,b"));
    assert_eq!(parts, vec!["a", "", "b"]);
}

#[test]
fn a_trailing_comma_yields_a_trailing_empty_piece() {
    let parts = split_string(String::from("a,"));
    assert_eq!(parts, vec!["a", ""]);
}

#[test]
fn an_empty_list_is_one_empty_piece() {
    let parts = split_string(String::from(""));
    assert_eq!(parts, vec![""]);
}

#[test]
fn whitespace_only_pieces_become_empty() {
    let parts = split_string(String::from("  ,  "));
    assert_eq!(parts, vec!["", ""]);
}

#[test]
fn configuration_values_pass_through() {
    let args = Args { host: String::from("0.0.0.0"), port: 53, ttl: 300 };
    assert_eq!(args.host, "0.0.0.0");
    assert_eq!(args.port, 53);
    assert_eq!(args.ttl, 300);

    let config = Config {
        public: ServerDefinition { servers: String::from("8.8.8.8:53, 8.8.4.4:53") },
        ezorg: ServerDefinition { servers: String::from("10.0.0.2:53") },
        domain: ServerDefinition { servers: String::from("10.0.0.3:53") },
    };
    assert_eq!(split_string(config.public.servers).len(), 2);
    assert_eq!(split_string(config.ezorg.servers), vec!["10.0.0.2:53"]);
    assert_eq!(split_string(config.domain.servers), vec!["10.0.0.3:53"]);
}
