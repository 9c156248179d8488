//! Probe configuration and the command-line model that builds it.
//!
//! `zing [-h] [-4|-6] [-c count] [-op limit] [-p port1,port2,...] [-t timeout_ms] host`

use vstd::prelude::*;
use vstd::string::*;
use crate::probe::{IpVersion, views_of};

verus! {

/// Why a decimal number could not be read.
#[derive(PartialEq, Eq, Structural, Clone, Copy, Debug)]
pub enum ParseNumError {
    /// The text is empty.
    Empty,
    /// A character is not a decimal digit (a lone `+` included).
    InvalidDigit,
    /// The value is larger than 65535.
    PosOverflow,
}

pub open spec fn is_digit(c: char) -> bool {
    '0' <= c <= '9'
}

pub open spec fn digit_value(c: char) -> int {
    c as int - '0' as int
}

/// Reads the digits `d` left to right after the value `acc`: the first
/// character that is no digit is an error, and so is the first digit that
/// takes the value past 65535.
pub open spec fn scan_digits(d: Seq<char>, acc: int) -> Result<u16, ParseNumError>
    decreases d.len(),
{
    if d.len() == 0 {
        Ok(acc as u16)
    } else if !is_digit(d[0]) {
        Err(ParseNumError::InvalidDigit)
    } else if acc * 10 + digit_value(d[0]) > 65535 {
        Err(ParseNumError::PosOverflow)
    } else {
        scan_digits(d.skip(1), acc * 10 + digit_value(d[0]))
    }
}

/// A decimal `u16`, with an optional leading `+`.
pub open spec fn parse_u16_spec(s: Seq<char>) -> Result<u16, ParseNumError> {
    if s.len() == 0 {
        Err(ParseNumError::Empty)
    } else if s[0] == '+' {
        if s.len() == 1 {
            Err(ParseNumError::InvalidDigit)
        } else {
            scan_digits(s.skip(1), 0)
        }
    } else {
        scan_digits(s, 0)
    }
}

fn scan_from(s: &str, from: usize) -> (r: Result<u16, ParseNumError>)
    requires
        from <= s@.len(),
    ensures
        r == scan_digits(s@.skip(from as int), 0),
{
    let n = s.unicode_len();
    let mut acc: u32 = 0;
    let mut i: usize = from;
    proof {
        assert(s@.skip(from as int) =~= s@.skip(i as int));
    }
    while i < n
        invariant
            n == s@.len(),
            from <= i <= n,
            acc <= 65535,
            scan_digits(s@.skip(from as int), 0) == scan_digits(s@.skip(i as int), acc as int),
        decreases n - i,
    {
        let c = s.get_char(i);
        let ghost d = s@.skip(i as int);
        proof {
            assert(d[0] == c);
            assert(d.skip(1) =~= s@.skip(i as int + 1));
        }
        if !('0' <= c && c <= '9') {
            return Err(ParseNumError::InvalidDigit);
        }
        let v: u32 = (c as u32) - ('0' as u32);
        if acc * 10 + v > 65535 {
            return Err(ParseNumError::PosOverflow);
        }
        acc = acc * 10 + v;
        i = i + 1;
    }
    proof {
        assert(s@.skip(i as int).len() == 0);
    }
    Ok(acc as u16)
}

/// Reads a decimal `u16` (digits with an optional leading `+`), as the
/// numeric flags take it.
pub fn parse_u16(number_str: &String) -> (r: Result<u16, ParseNumError>)
    ensures
        r == parse_u16_spec(number_str@),
{
    let s = number_str.as_str();
    let n = s.unicode_len();
    if n == 0 {
        Err(ParseNumError::Empty)
    } else if s.get_char(0) == '+' {
        if n == 1 {
            Err(ParseNumError::InvalidDigit)
        } else {
            scan_from(s, 1)
        }
    } else {
        proof {
            assert(s@.skip(0) =~= s@);
        }
        scan_from(s, 0)
    }
}

/// Parameters of one probe run.
pub struct ProbeConfig {
    pub tcpv: IpVersion,
    /// Cycles per port.
    pub count: u16,
    /// Per-connect timeout in milliseconds.
    pub time: u16,
    /// Connect attempts averaged per cycle.
    pub limit: u16,
    pub host: String,
    /// Comma-separated port list.
    pub ports: String,
}

/// The values of a `ProbeConfig`.
pub struct ConfigView {
    pub tcpv: IpVersion,
    pub count: u16,
    pub time: u16,
    pub limit: u16,
    pub host: Seq<char>,
    pub ports: Seq<char>,
}

impl View for ProbeConfig {
    type V = ConfigView;

    open spec fn view(&self) -> ConfigView {
        ConfigView {
            tcpv: self.tcpv,
            count: self.count,
            time: self.time,
            limit: self.limit,
            host: self.host@,
            ports: self.ports@,
        }
    }
}

/// The default configuration: IPv4, 6 cycles of 8 attempts, a 3000 ms
/// timeout, ports 80 and 443 of `localhost`.
pub open spec fn default_config() -> ConfigView {
    ConfigView {
        tcpv: IpVersion::V4,
        count: 6,
        time: 3000,
        limit: 8,
        host: "localhost"@,
        ports: "80,443"@,
    }
}

impl ProbeConfig {
    /// The default configuration.
    pub fn defaults() -> (r: ProbeConfig)
        ensures
            r@ == default_config(),
    {
        ProbeConfig {
            tcpv: IpVersion::V4,
            count: 6,
            time: 3000,
            limit: 8,
            host: String::from_str("localhost"),
            ports: String::from_str("80,443"),
        }
    }
}

/// Which numeric flag a warning is about.
#[derive(PartialEq, Eq, Structural, Clone, Copy, Debug)]
pub enum NumFlag {
    /// `-c`
    Count,
    /// `-op`
    Ops,
    /// `-t`
    Timeout,
}

/// A numeric flag whose value could not be read; the previous value stays.
#[derive(PartialEq, Eq, Structural, Clone, Copy, Debug)]
pub struct NumberWarning {
    pub flag: NumFlag,
    pub error: ParseNumError,
}

/// What the command line asks for.
pub enum ArgsOutcome {
    /// Probe with this configuration; the warnings are for malformed numbers.
    Run(ProbeConfig, Vec<NumberWarning>),
    /// `-h`: show the help text.
    Help,
    /// A flag that is not known; nothing is probed.
    Unknown(String),
    /// A flag that takes a value stands last.
    MissingValue(String),
    /// No argument was given.
    NoArguments,
}

/// The values of an `ArgsOutcome`.
pub enum ArgsView {
    Run(ConfigView, Seq<NumberWarning>),
    Help,
    Unknown(Seq<char>),
    MissingValue(Seq<char>),
    NoArguments,
}

impl View for ArgsOutcome {
    type V = ArgsView;

    open spec fn view(&self) -> ArgsView {
        match self {
            ArgsOutcome::Run(c, w) => ArgsView::Run(c@, w@),
            ArgsOutcome::Help => ArgsView::Help,
            ArgsOutcome::Unknown(a) => ArgsView::Unknown(a@),
            ArgsOutcome::MissingValue(a) => ArgsView::MissingValue(a@),
            ArgsOutcome::NoArguments => ArgsView::NoArguments,
        }
    }
}

pub open spec fn with_number(c: ConfigView, flag: NumFlag, n: u16) -> ConfigView {
    match flag {
        NumFlag::Count => ConfigView { count: n, ..c },
        NumFlag::Ops => ConfigView { limit: n, ..c },
        NumFlag::Timeout => ConfigView { time: n, ..c },
    }
}

/// Applies argument `idx` to the state reached so far. Each argument is
/// looked at on its own, a flag's value included: a value that does not
/// start with `-` is also taken as the host, so the last such token wins.
pub open spec fn apply_arg(st: ArgsView, args: Seq<Seq<char>>, idx: int) -> ArgsView {
    match st {
        ArgsView::Run(c, w) => {
            let a = args[idx];
            if a == "-h"@ {
                ArgsView::Help
            } else if a == "-4"@ {
                ArgsView::Run(ConfigView { tcpv: IpVersion::V4, ..c }, w)
            } else if a == "-6"@ {
                ArgsView::Run(ConfigView { tcpv: IpVersion::V6, ..c }, w)
            } else if a == "-c"@ || a == "-op"@ || a == "-t"@ || a == "-p"@ {
                if idx + 1 >= args.len() {
                    ArgsView::MissingValue(a)
                } else if a == "-p"@ {
                    ArgsView::Run(ConfigView { ports: args[idx + 1], ..c }, w)
                } else {
                    let flag = if a == "-c"@ {
                        NumFlag::Count
                    } else if a == "-op"@ {
                        NumFlag::Ops
                    } else {
                        NumFlag::Timeout
                    };
                    match parse_u16_spec(args[idx + 1]) {
                        Ok(n) => ArgsView::Run(with_number(c, flag, n), w),
                        Err(e) => ArgsView::Run(c, w.push(NumberWarning { flag, error: e })),
                    }
                }
            } else if a.len() > 0 && a[0] == '-' {
                ArgsView::Unknown(a)
            } else {
                ArgsView::Run(ConfigView { host: a, ..c }, w)
            }
        },
        _ => st,
    }
}

/// The state after the arguments `1 .. n` (argument 0 is the program name).
pub open spec fn fold_args(start: ConfigView, args: Seq<Seq<char>>, n: int) -> ArgsView
    decreases n,
{
    if n <= 1 {
        ArgsView::Run(start, Seq::empty())
    } else {
        apply_arg(fold_args(start, args, n - 1), args, n - 1)
    }
}

/// The whole command line `args`, program name first, read from `start`.
pub open spec fn args_spec(start: ConfigView, args: Seq<Seq<char>>) -> ArgsView {
    if args.len() < 2 {
        ArgsView::NoArguments
    } else {
        fold_args(start, args, args.len() as int)
    }
}

proof fn lemma_fold_stops(start: ConfigView, args: Seq<Seq<char>>, k: int, n: int)
    requires
        1 <= k <= n,
        !(fold_args(start, args, k) is Run),
    ensures
        fold_args(start, args, n) == fold_args(start, args, k),
    decreases n - k,
{
    if n > k {
        lemma_fold_stops(start, args, k, n - 1);
    }
}

/// Reads the command line `args` (program name first) on top of `zing_param`.
/// Arguments are taken one at a time in order; `-h`, an unknown flag or a
/// missing value ends the reading at once.
pub fn process_args(args: &Vec<String>, zing_param: &ProbeConfig) -> (r: ArgsOutcome)
    ensures
        r@ == args_spec(zing_param@, views_of(args@)),
{
    let ghost av = views_of(args@);
    let ghost start = zing_param@;
    if args.len() < 2 {
        return ArgsOutcome::NoArguments;
    }
    let n = args.len();
    let mut cfg = ProbeConfig {
        tcpv: zing_param.tcpv,
        count: zing_param.count,
        time: zing_param.time,
        limit: zing_param.limit,
        host: zing_param.host.clone(),
        ports: zing_param.ports.clone(),
    };
    let mut warns: Vec<NumberWarning> = Vec::new();
    let h = String::from_str("-h");
    let v4 = String::from_str("-4");
    let v6 = String::from_str("-6");
    let fc = String::from_str("-c");
    let fop = String::from_str("-op");
    let ft = String::from_str("-t");
    let fp = String::from_str("-p");
    let mut idx: usize = 1;
    while idx < n
        invariant
            n == args.len(),
            av == views_of(args@),
            av.len() == n,
            start == zing_param@,
            1 <= idx <= n,
            h@ == "-h"@,
            v4@ == "-4"@,
            v6@ == "-6"@,
            fc@ == "-c"@,
            fop@ == "-op"@,
            ft@ == "-t"@,
            fp@ == "-p"@,
            fold_args(start, av, idx as int) == ArgsView::Run(cfg@, warns@),
        decreases n - idx,
    {
        let a = &args[idx];
        assert(av[idx as int] == a@);
        let ghost before = fold_args(start, av, idx as int);
        assert(fold_args(start, av, idx as int + 1) == apply_arg(before, av, idx as int));
        if a.eq(&h) {
            proof {
                assert(fold_args(start, av, idx as int + 1) == ArgsView::Help);
                lemma_fold_stops(start, av, idx as int + 1, n as int);
                assert(args_spec(start, av) == ArgsView::Help);
            }
            return ArgsOutcome::Help;
        } else if a.eq(&v4) {
            cfg.tcpv = IpVersion::V4;
        } else if a.eq(&v6) {
            cfg.tcpv = IpVersion::V6;
        } else if a.eq(&fc) || a.eq(&fop) || a.eq(&ft) || a.eq(&fp) {
            if idx + 1 >= n {
                proof {
                    assert(fold_args(start, av, idx as int + 1) == ArgsView::MissingValue(a@));
                    lemma_fold_stops(start, av, idx as int + 1, n as int);
                    assert(args_spec(start, av) == ArgsView::MissingValue(a@));
                }
                return ArgsOutcome::MissingValue(a.clone());
            }
            let value = &args[idx + 1];
            assert(av[idx as int + 1] == value@);
            if a.eq(&fp) {
                cfg.ports = value.clone();
            } else {
                let flag = if a.eq(&fc) {
                    NumFlag::Count
                } else if a.eq(&fop) {
                    NumFlag::Ops
                } else {
                    NumFlag::Timeout
                };
                match parse_u16(value) {
                    Ok(num) => {
                        match flag {
                            NumFlag::Count => cfg.count = num,
                            NumFlag::Ops => cfg.limit = num,
                            NumFlag::Timeout => cfg.time = num,
                        }
                    },
                    Err(e) => {
                        warns.push(NumberWarning { flag, error: e });
                    },
                }
            }
        } else if a.as_str().unicode_len() > 0 && a.as_str().get_char(0) == '-' {
            proof {
                assert(a@.len() > 0 && a@[0] == '-');
                assert(fold_args(start, av, idx as int + 1) == ArgsView::Unknown(a@));
                lemma_fold_stops(start, av, idx as int + 1, n as int);
                assert(args_spec(start, av) == ArgsView::Unknown(a@));
            }
            return ArgsOutcome::Unknown(a.clone());
        } else {
            cfg.host = a.clone();
        }
        idx = idx + 1;
    }
    ArgsOutcome::Run(cfg, warns)
}

} // verus!
