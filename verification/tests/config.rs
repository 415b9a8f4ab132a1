use portscan::config::parse_worker_count;
use portscan::config::ConfigError;
use portscan::config::ScanConfig;
use portscan::config::DEFAULT_WORKERS;

#[test]
fn default_is_four_workers() {
    assert_eq!(DEFAULT_WORKERS, 4);
}

#[test]
fn worker_count_is_read_from_digits() {
    assert_eq!(parse_worker_count("4"), Ok(4));
    assert_eq!(parse_worker_count("1"), Ok(1));
    assert_eq!(parse_worker_count("16"), Ok(16));
    assert_eq!(parse_worker_count("65535"), Ok(65535));
    assert_eq!(parse_worker_count("65536"), Ok(65536));
    assert_eq!(parse_worker_count("00012"), Ok(12));
    assert_eq!(parse_worker_count("+8"), Ok(8));
    assert_eq!(parse_worker_count("4294967295"), Ok(u32::MAX));
}

#[test]
fn zero_workers_are_refused() {
    assert_eq!(parse_worker_count("0"), Err(ConfigError::NoWorkers));
    assert_eq!(parse_worker_count("000"), Err(ConfigError::NoWorkers));
    assert_eq!(parse_worker_count("+0"), Err(ConfigError::NoWorkers));
}

#[test]
fn text_that_is_no_number_is_refused() {
    for text in ["", "+", "abc", "4x", "x4", "-1", " 4", "4 ", "1.5", "++1", "4294967296", "99999999999999999999999", "٤"] {
        assert_eq!(
            parse_worker_count(text),
            Err(ConfigError::WorkerCount(text.to_string())),
            "{:?}",
            text
        );
    }
}

#[test]
fn configuration_needs_a_worker() {
    assert_eq!(ScanConfig::new("127.0.0.1".to_string(), 0), Err(ConfigError::NoWorkers));
    let config = ScanConfig::new("127.0.0.1".to_string(), 4).unwrap();
    assert_eq!(config.target(), "127.0.0.1");
    assert_eq!(config.workers(), 4);
    let wide = ScanConfig::new("::1".to_string(), 70000).unwrap();
    assert_eq!(wide.target(), "::1");
    assert_eq!(wide.workers(), 70000);
}

#[test]
fn messages_are_one_line_each() {
    assert_eq!(
        ConfigError::Address("foobar".to_string()).message(),
        "could not parse foobar as an IP address"
    );
    assert_eq!(
        ConfigError::Options("Unrecognized option: 'x'".to_string()).message(),
        "error parsing options: Unrecognized option: 'x'"
    );
    assert_eq!(ConfigError::WorkerCount("abc".to_string()).message(), "flag '-j' must be an integer");
    assert_eq!(ConfigError::NoWorkers.message(), "flag '-j' must be at least 1");
}
