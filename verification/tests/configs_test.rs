use azula::config::base::{Config, Opts, PortRange, ScanOrder, ScriptRequired};
use azula::config::configuration::{
    advise_batch_size, infer_batch_size, parse_port, parse_range, BatchAdvice,
    RANGE_FORMAT_ERROR, RANGE_ORDER_ERROR,
};

fn config_default() -> Config {
    Config {
        addresses: Some(vec!["127.0.0.1".to_owned()]),
        ports: None,
        range: None,
        greppable: Some(true),
        batch_size: Some(25_000),
        timeout: Some(1_000),
        tries: Some(1),
        ulimit: None,
        command: Some(vec!["-A".to_owned()]),
        accessible: Some(true),
        resolver: None,
        scan_order: Some(ScanOrder::Random),
        scripts: None,
        exclude_ports: None,
        udp: Some(false),
    }
}

#[test]
fn input_opts_no_merge_when_config_is_ignored() {
    let mut opts = Opts::default();
    let config = config_default();

    opts.merge(&config);

    assert_eq!(opts.addresses, vec![] as Vec<String>);
    assert!(opts.greppable);
    assert!(!opts.accessible);
    assert_eq!(opts.timeout, 0);
    assert_eq!(opts.command, vec![] as Vec<String>);
    assert_eq!(opts.scan_order, ScanOrder::Serial);
}

#[test]
fn input_opts_merge_required_arguments() {
    let mut opts = Opts::default();
    let config = config_default();

    opts.merge_required(&config);

    assert_eq!(opts.addresses, config.addresses.unwrap());
    assert_eq!(opts.greppable, config.greppable.unwrap());
    assert_eq!(opts.timeout, config.timeout.unwrap());
    assert_eq!(opts.command, config.command.unwrap());
    assert_eq!(opts.accessible, config.accessible.unwrap());
    assert_eq!(opts.scan_order, config.scan_order.unwrap());
    assert_eq!(opts.scripts, ScriptRequired::Default);
}

#[test]
fn input_opts_merge_optional_arguments() {
    let mut opts = Opts::default();
    let mut config = config_default();
    config.range = Some(PortRange {
        start: 1,
        end: 1_000,
    });
    config.ulimit = Some(1_000);
    config.resolver = Some("1.1.1.1".to_owned());

    opts.merge_optional(&config);

    assert_eq!(opts.range, config.range);
    assert_eq!(opts.ulimit, config.ulimit);
    assert_eq!(opts.resolver, config.resolver);
}

#[test]
fn configs_test_opts_no_merge_when_config_is_ignored() {
    let mut opts = Opts::default();
    let config = config_default();
    opts.merge(&config);
    assert_eq!(opts.addresses, vec![] as Vec<String>);
    assert!(opts.greppable);
    assert!(!opts.accessible);
    assert_eq!(opts.timeout, 0);
    assert_eq!(opts.command, vec![] as Vec<String>);
    assert_eq!(opts.scan_order, ScanOrder::Serial);
}

#[test]
fn configs_test_opts_merge_required_arguments() {
    let mut opts = Opts::default();
    let config = config_default();
    opts.merge_required(&config);
    assert_eq!(opts.addresses, config.addresses.unwrap());
    assert_eq!(opts.greppable, config.greppable.unwrap());
    assert_eq!(opts.timeout, config.timeout.unwrap());
    assert_eq!(opts.command, config.command.unwrap());
    assert_eq!(opts.accessible, config.accessible.unwrap());
    assert_eq!(opts.scan_order, config.scan_order.unwrap());
    assert_eq!(opts.scripts, ScriptRequired::Default);
}

#[test]
fn configs_test_opts_merge_optional_arguments() {
    let mut opts = Opts::default();
    let mut config = config_default();
    config.range = Some(PortRange {
        start: 1,
        end: 1_000,
    });
    config.ulimit = Some(1_000);
    config.resolver = Some("1.1.1.1".to_owned());
    opts.merge_optional(&config);
    assert_eq!(opts.range, config.range);
    assert_eq!(opts.ulimit, config.ulimit);
    assert_eq!(opts.resolver, config.resolver);
}

#[test]
fn merge_takes_every_named_setting_when_the_file_counts() {
    let mut opts = Opts::default();
    opts.no_config = false;
    let mut config = config_default();
    config.exclude_ports = Some(vec![8080, 9090]);
    config.scripts = Some(ScriptRequired::Custom);
    config.udp = Some(true);

    opts.merge(&config);

    assert_eq!(opts.addresses, vec!["127.0.0.1".to_owned()]);
    assert_eq!(opts.batch_size, 25_000);
    assert_eq!(opts.tries, 1);
    assert!(opts.accessible);
    assert!(opts.udp);
    assert_eq!(opts.scan_order, ScanOrder::Random);
    assert_eq!(opts.scripts, ScriptRequired::Custom);
    assert_eq!(opts.exclude_ports, Some(vec![8080, 9090]));
    assert_eq!(opts.range, None);
    assert_eq!(opts.ports, None);
    assert!(!opts.no_config);
}

#[test]
fn merge_takes_the_ports_of_the_file_only_for_top() {
    let mut config = config_default();
    config.ports = Some(vec![("80".to_owned(), 80), ("443".to_owned(), 443)]);
    assert!(config.is_valid());

    let mut plain = Opts::default();
    plain.merge_optional(&config);
    assert_eq!(plain.ports, None);

    let mut top = Opts::default();
    top.top = true;
    top.merge_optional(&config);
    assert_eq!(top.ports, Some(vec![80, 443]));
}

#[test]
fn config_with_a_key_that_is_no_port_is_not_valid() {
    let mut config = config_default();
    config.ports = Some(vec![("80".to_owned(), 80), ("http".to_owned(), 80)]);
    assert!(!config.is_valid());
}

#[test]
fn read_fills_in_the_full_range() {
    let opts = Opts::read(Opts::default());
    assert_eq!(opts.range, Some(PortRange { start: 1, end: 65_535 }));
    assert_eq!(opts.ports, None);

    let mut listed = Opts::default();
    listed.ports = Some(vec![22, 80]);
    let opts = Opts::read(listed);
    assert_eq!(opts.range, None);
    assert_eq!(opts.ports, Some(vec![22, 80]));

    let mut ranged = Opts::default();
    ranged.range = Some(PortRange { start: 5, end: 9 });
    let opts = Opts::read(ranged);
    assert_eq!(opts.range, Some(PortRange { start: 5, end: 9 }));
}

#[test]
fn default_opts_are_as_documented() {
    let opts = Opts::default();
    assert!(opts.addresses.is_empty());
    assert_eq!(opts.ports, None);
    assert_eq!(opts.range, None);
    assert!(opts.greppable);
    assert_eq!(opts.batch_size, 0);
    assert_eq!(opts.tries, 0);
    assert_eq!(opts.ulimit, None);
    assert!(opts.no_config);
    assert!(!opts.top);
    assert!(!opts.udp);
    assert_eq!(opts.scripts, ScriptRequired::Default);
    assert_eq!(opts.config_path, None);
}

#[test]
fn parse_port_reads_decimal_ports() {
    assert_eq!(parse_port("0"), Some(0));
    assert_eq!(parse_port("80"), Some(80));
    assert_eq!(parse_port("+443"), Some(443));
    assert_eq!(parse_port("00080"), Some(80));
    assert_eq!(parse_port("65535"), Some(65_535));
    assert_eq!(parse_port("65536"), None);
    assert_eq!(parse_port("99999999999999999999"), None);
    assert_eq!(parse_port(""), None);
    assert_eq!(parse_port("+"), None);
    assert_eq!(parse_port("-1"), None);
    assert_eq!(parse_port("8o"), None);
    assert_eq!(parse_port(" 80"), None);
    assert_eq!(parse_port("++80"), None);
}

#[test]
fn parse_port_agrees_with_the_standard_parser() {
    let texts = ["7", "+7", "007", "65535", "65536", "", "+", "1 ", "x", "1-2"];
    for text in texts {
        assert_eq!(parse_port(text), text.parse::<u16>().ok(), "{:?}", text);
    }
}

#[test]
fn parse_range_reads_start_and_end() {
    assert_eq!(parse_range("1-1000"), Ok(PortRange { start: 1, end: 1000 }));
    assert_eq!(parse_range("80-80"), Ok(PortRange { start: 80, end: 80 }));
    assert_eq!(parse_range("0-65535"), Ok(PortRange { start: 0, end: 65_535 }));
}

#[test]
fn parse_range_refuses_other_forms() {
    for text in ["", "1000", "1-", "-5", "1-2-3", "a-b", "1 - 2", "1-65536", "1--2"] {
        assert_eq!(parse_range(text), Err(RANGE_FORMAT_ERROR.to_owned()), "{:?}", text);
    }
}

#[test]
fn parse_range_refuses_a_range_that_ends_before_it_starts() {
    assert_eq!(parse_range("10-1"), Err(RANGE_ORDER_ERROR.to_owned()));
    assert_eq!(parse_range("1-0"), Err(RANGE_ORDER_ERROR.to_owned()));
}

#[test]
fn port_range_refuses_an_end_before_the_start() {
    assert_eq!(PortRange::new(1, 0), None);
    assert_eq!(PortRange::new(1000, 999), None);
    assert_eq!(PortRange::new(7, 7), Some(PortRange { start: 7, end: 7 }));
    assert_eq!(PortRange::new(1, 65_535), Some(PortRange { start: 1, end: 65_535 }));
    assert!(!PortRange { start: 2, end: 1 }.is_valid());
    assert!(PortRange { start: 1, end: 2 }.is_valid());
}

#[test]
fn batch_size_lowered() {
    let opts = Opts {
        batch_size: 50000,
        ..Default::default()
    };
    let batch_size = infer_batch_size(&opts, 120);
    assert!(batch_size < opts.batch_size);
}

#[test]
fn test_high_ulimit_no_greppable_mode() {
    let opts = Opts {
        batch_size: 10,
        greppable: false,
        ..Default::default()
    };
    let batch_size = infer_batch_size(&opts, 1000000);
    assert!(batch_size == opts.batch_size);
}

#[test]
fn batch_size_follows_the_limit_of_open_files() {
    let opts = Opts {
        batch_size: 50000,
        ..Default::default()
    };
    assert_eq!(infer_batch_size(&opts, 120), 60);
    assert_eq!(infer_batch_size(&opts, 2999), 1499);
    assert_eq!(infer_batch_size(&opts, 3000), 2900);
    assert_eq!(infer_batch_size(&opts, 5000), 4900);
    assert_eq!(infer_batch_size(&opts, 8000), 7900);
    assert_eq!(infer_batch_size(&opts, 8001), 3000);
    assert_eq!(infer_batch_size(&opts, 9000), 3000);
    assert_eq!(infer_batch_size(&opts, 49_999), 3000);
    assert_eq!(infer_batch_size(&opts, 50_000), 50_000);
    assert_eq!(infer_batch_size(&opts, u64::MAX), 50_000);
    assert_eq!(infer_batch_size(&opts, 0), 0);
}

#[test]
fn batch_size_advice_names_the_case() {
    let opts = Opts {
        batch_size: 50000,
        ..Default::default()
    };
    assert_eq!(advise_batch_size(&opts, 120), BatchAdvice::Halved);
    assert_eq!(advise_batch_size(&opts, 9000), BatchAdvice::Averaged);
    assert_eq!(advise_batch_size(&opts, 5000), BatchAdvice::Lowered);
    assert_eq!(advise_batch_size(&opts, 60_000), BatchAdvice::CouldBeRaised);
    let limited = Opts {
        batch_size: 50000,
        ulimit: Some(60_000),
        ..Default::default()
    };
    assert_eq!(advise_batch_size(&limited, 60_000), BatchAdvice::Kept);
}
