use zing::config::{parse_u16, process_args, ArgsOutcome, NumFlag, ParseNumError, ProbeConfig};
use zing::cycle::{CycleError, CycleTally};
use zing::probe::{host_port, pick_address, split_ports, total_ops, IpVersion, ProbeRun};
use zing::stats::{moments_fit_in, summarize};

fn strings(items: &[&str]) -> Vec<String> {
    items.iter().map(|s| s.to_string()).collect()
}

fn run_config(args: &[&str]) -> (ProbeConfig, Vec<zing::config::NumberWarning>) {
    match process_args(&strings(args), &ProbeConfig::defaults()) {
        ArgsOutcome::Run(c, w) => (c, w),
        _ => panic!("expected a run"),
    }
}

#[test]
fn parse_u16_reads_decimal_numbers() {
    assert_eq!(parse_u16(&"6".to_string()), Ok(6));
    assert_eq!(parse_u16(&"+5".to_string()), Ok(5));
    assert_eq!(parse_u16(&"0".to_string()), Ok(0));
    assert_eq!(parse_u16(&"65535".to_string()), Ok(65535));
    assert_eq!(parse_u16(&"00042".to_string()), Ok(42));
}

#[test]
fn parse_u16_rejects_malformed_numbers() {
    assert_eq!(parse_u16(&"".to_string()), Err(ParseNumError::Empty));
    assert_eq!(parse_u16(&"+".to_string()), Err(ParseNumError::InvalidDigit));
    assert_eq!(parse_u16(&"abc".to_string()), Err(ParseNumError::InvalidDigit));
    assert_eq!(parse_u16(&"-1".to_string()), Err(ParseNumError::InvalidDigit));
    assert_eq!(parse_u16(&"12a".to_string()), Err(ParseNumError::InvalidDigit));
    assert_eq!(parse_u16(&"65536".to_string()), Err(ParseNumError::PosOverflow));
    assert_eq!(parse_u16(&"99999x".to_string()), Err(ParseNumError::PosOverflow));
}

#[test]
fn split_ports_keeps_empty_tokens() {
    assert_eq!(split_ports("80,,443"), strings(&["80", "", "443"]));
    assert_eq!(split_ports("80,443"), strings(&["80", "443"]));
    assert_eq!(split_ports("22"), strings(&["22"]));
    assert_eq!(split_ports(""), strings(&[""]));
    assert_eq!(split_ports(",80,"), strings(&["", "80", ""]));
}

#[test]
fn host_port_joins_with_colon() {
    assert_eq!(host_port("localhost", "80"), "localhost:80");
    assert_eq!(host_port("example.com", ""), "example.com:");
}

#[test]
fn pick_address_takes_first_of_wanted_family() {
    let mixed = vec![IpVersion::V6, IpVersion::V4, IpVersion::V6, IpVersion::V4];
    assert_eq!(pick_address(&mixed, IpVersion::V4), Some(1));
    assert_eq!(pick_address(&mixed, IpVersion::V6), Some(0));
    let only_v4 = vec![IpVersion::V4, IpVersion::V4];
    assert_eq!(pick_address(&only_v4, IpVersion::V6), None);
    assert_eq!(pick_address(&Vec::new(), IpVersion::V4), None);
}

#[test]
fn total_ops_multiplies_counts() {
    assert_eq!(total_ops(2, 1, 2), 4);
    assert_eq!(total_ops(6, 8, 2), 96);
    assert_eq!(total_ops(0, 8, 2), 0);
    assert_eq!(total_ops(65535, 65535, 3), 65535u128 * 65535 * 3);
}

#[test]
fn summary_of_single_sample() {
    let s = summarize(&vec![1234]);
    assert_eq!((s.count, s.min, s.max, s.sum, s.spread), (1, 1234, 1234, 1234, 0));
}

#[test]
fn summary_of_identical_samples() {
    let s = summarize(&vec![700; 5]);
    assert_eq!((s.count, s.min, s.max, s.sum, s.spread), (5, 700, 700, 3500, 0));
    let mean = s.sum as f64 / s.count as f64;
    assert_eq!(mean, 700.0);
}

#[test]
fn summary_of_mixed_samples() {
    let s = summarize(&vec![2, 4, 4, 4, 5, 5, 7, 9]);
    assert_eq!((s.count, s.min, s.max, s.sum), (8, 2, 9, 40));
    // n * sum(x^2) - sum(x)^2 = 8 * 232 - 1600
    assert_eq!(s.spread, 256);
    let stddev = (s.spread as f64).sqrt() / s.count as f64;
    assert_eq!(stddev, 2.0);
    let mean = s.sum as f64 / s.count as f64;
    assert!(s.min as f64 <= mean && mean <= s.max as f64);
}

#[test]
fn summary_checks_min_and_max_on_every_sample() {
    let s = summarize(&vec![5, 3, 9, 1]);
    assert_eq!((s.min, s.max), (1, 9));
    let s = summarize(&vec![9, 1]);
    assert_eq!((s.min, s.max), (1, 9));
}

#[test]
fn moments_fit_detects_overflow() {
    assert!(moments_fit_in(&vec![1, 2, 3]));
    assert!(moments_fit_in(&vec![u64::MAX]));
    assert!(!moments_fit_in(&vec![u64::MAX, u64::MAX]));
}

#[test]
fn cycle_refuses_zero_limit() {
    assert!(matches!(CycleTally::new(0), Err(CycleError::ZeroLimit)));
}

#[test]
fn cycle_of_equal_times_averages_to_that_time() {
    for limit in [1u16, 3, 8] {
        let mut t = CycleTally::new(limit).unwrap();
        assert_eq!(t.limit(), limit);
        while !t.is_complete() {
            t.record(1500);
        }
        assert_eq!(t.average(), 1500);
    }
}

#[test]
fn cycle_average_is_integer_mean() {
    let mut t = CycleTally::new(3).unwrap();
    t.record(1);
    t.record(2);
    assert!(!t.is_complete());
    t.record(4);
    assert!(t.is_complete());
    assert_eq!(t.average(), 2);
}

#[test]
fn defaults_match_documented_values() {
    let c = ProbeConfig::defaults();
    assert_eq!(c.tcpv, IpVersion::V4);
    assert_eq!((c.count, c.limit, c.time), (6, 8, 3000));
    assert_eq!(c.host, "localhost");
    assert_eq!(c.ports, "80,443");
}

#[test]
fn malformed_count_keeps_default_and_warns() {
    let (c, w) = run_config(&["zing", "-c", "abc", "example.com"]);
    assert_eq!(c.count, 6);
    assert_eq!(c.host, "example.com");
    assert_eq!(w.len(), 1);
    assert_eq!(w[0].flag, NumFlag::Count);
    assert_eq!(w[0].error, ParseNumError::InvalidDigit);
}

#[test]
fn unknown_flag_stops_reading() {
    match process_args(&strings(&["zing", "-x", "host"]), &ProbeConfig::defaults()) {
        ArgsOutcome::Unknown(a) => assert_eq!(a, "-x"),
        _ => panic!("expected an unknown flag"),
    }
}

#[test]
fn help_and_missing_arguments() {
    assert!(matches!(
        process_args(&strings(&["zing", "-h", "-x"]), &ProbeConfig::defaults()),
        ArgsOutcome::Help
    ));
    assert!(matches!(
        process_args(&strings(&["zing"]), &ProbeConfig::defaults()),
        ArgsOutcome::NoArguments
    ));
    match process_args(&strings(&["zing", "host", "-op"]), &ProbeConfig::defaults()) {
        ArgsOutcome::MissingValue(a) => assert_eq!(a, "-op"),
        _ => panic!("expected a missing value"),
    }
}

#[test]
fn full_command_line() {
    let (c, w) = run_config(&[
        "zing", "-6", "-c", "2", "-op", "1", "-p", "80,,443", "-t", "1000", "localhost",
    ]);
    assert!(w.is_empty());
    assert_eq!(c.tcpv, IpVersion::V6);
    assert_eq!((c.count, c.limit, c.time), (2, 1, 1000));
    assert_eq!(c.ports, "80,,443");
    assert_eq!(c.host, "localhost");
    assert_eq!(split_ports(&c.ports).len(), 3);
}

#[test]
fn numeric_errors_for_each_flag() {
    let (c, w) = run_config(&["zing", "-op", "70000", "-t", "", "-4", "h"]);
    assert_eq!((c.limit, c.time), (8, 3000));
    assert_eq!(c.tcpv, IpVersion::V4);
    assert_eq!(w.len(), 2);
    assert_eq!((w[0].flag, w[0].error), (NumFlag::Ops, ParseNumError::PosOverflow));
    assert_eq!((w[1].flag, w[1].error), (NumFlag::Timeout, ParseNumError::Empty));
}

#[test]
fn scenario_two_ports_two_cycles() {
    let (c, _) = run_config(&[
        "zing", "-c", "2", "-op", "1", "-p", "80,443", "-t", "1000", "localhost",
    ]);
    let ports = split_ports(&c.ports);
    let mut probe = ProbeRun::new(ports.len(), c.count);
    let mut order = Vec::new();
    while let Some(p) = probe.next_port() {
        order.push(p);
        let mut t = CycleTally::new(c.limit).unwrap();
        while !t.is_complete() {
            t.record(250);
        }
        probe.add_sample(t.average());
    }
    assert_eq!(order, vec![0, 0, 1, 1]);
    let samples = probe.samples().clone();
    assert_eq!(samples.len(), 4);
    assert_eq!(total_ops(c.count, c.limit, ports.len()), 4);
    let s = summarize(&samples);
    assert_eq!((s.min, s.max, s.sum, s.spread), (250, 250, 1000, 0));
}

#[test]
fn probe_run_orders_ports_then_cycles() {
    let mut probe = ProbeRun::new(3, 2);
    let mut order = Vec::new();
    let mut next: u64 = 10;
    while let Some(p) = probe.next_port() {
        order.push(p);
        probe.add_sample(next);
        next += 10;
    }
    assert_eq!(order, vec![0, 0, 1, 1, 2, 2]);
    assert_eq!(probe.samples(), &vec![10, 20, 30, 40, 50, 60]);
    assert_eq!(probe.next_port(), None);
}

#[test]
fn probe_run_with_no_cycles_is_finished() {
    let probe = ProbeRun::new(2, 0);
    assert_eq!(probe.next_port(), None);
    assert!(probe.samples().is_empty());
    let probe = ProbeRun::new(0, 4);
    assert_eq!(probe.next_port(), None);
}

#[test]
fn split_ports_joins_back_to_input() {
    for s in ["80,443", "80,,443", "", ",", "22", "a,b,c,", "8080"] {
        let tokens = split_ports(s);
        assert!(!tokens.is_empty());
        assert!(tokens.iter().all(|t| !t.contains(',')));
        assert_eq!(tokens.join(","), s);
    }
}
