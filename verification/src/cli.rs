//! Command-line arguments.
use vstd::prelude::*;

use crate::text;

verus! {

/// The argument behind the first `flag`, if there is one.
pub open spec fn flag_argument(args: Seq<Seq<char>>, flag: Seq<char>) -> Option<Seq<char>>
    decreases args.len(),
{
    if args.len() < 2 {
        None
    } else if args[0] == flag {
        Some(args[1])
    } else {
        flag_argument(args.skip(1), flag)
    }
}

/// The argument behind the first `flag`, if there is one.
pub fn flag_value<'a>(args: &'a Vec<String>, flag: &str) -> (r: Option<&'a String>)
    ensures
        match r {
            Some(v) => flag_argument(text::views(args@), flag@) == Some(v@),
            None => flag_argument(text::views(args@), flag@) is None,
        },
{
    let ghost all = text::views(args@);
    let n: usize = args.len();
    let mut i: usize = 0;
    assert(all.skip(0) =~= all);
    while i < n
        invariant
            i <= n,
            n == args@.len(),
            all == text::views(args@),
            flag_argument(all, flag@) == flag_argument(all.skip(i as int), flag@),
        decreases n - i,
    {
        assert(all.skip(i as int).len() == n - i);
        if i + 1 == n {
            return None;
        }
        assert(all.skip(i as int)[0] == args@[i as int]@);
        assert(all.skip(i as int)[1] == args@[i + 1]@);
        if text::same(args[i].as_str(), flag) {
            return Some(&args[i + 1]);
        }
        assert(all.skip(i as int).skip(1) =~= all.skip(i as int + 1));
        i = i + 1;
    }
    None
}

/// The port that a text gives.
pub open spec fn port_text(s: Seq<char>) -> Option<u16> {
    match text::number_text(s, u16::MAX as nat) {
        Some(n) => Some(n as u16),
        None => None,
    }
}

/// Reads a port.
pub fn parse_port(s: &str) -> (r: Option<u16>)
    ensures
        r == port_text(s@),
{
    let v = text::chars_of(s);
    match text::parse_number(&v, u16::MAX as u64) {
        Some(n) => Some(n as u16),
        None => None,
    }
}

/// The port that a flag gives: the argument behind it, where that is a port.
pub open spec fn flag_port(args: Seq<Seq<char>>, flag: Seq<char>) -> Option<u16> {
    match flag_argument(args, flag) {
        Some(s) => port_text(s),
        None => None,
    }
}

/// The port behind a flag. `Some` when the flag is present with a valid value.
pub fn parse_flag_port(args: &Vec<String>, flag: &str) -> (r: Option<u16>)
    ensures
        r == flag_port(text::views(args@), flag@),
{
    match flag_value(args, flag) {
        Some(s) => parse_port(s.as_str()),
        None => None,
    }
}

/// The index that a flag gives: the argument behind it, where that is a number.
pub open spec fn flag_index(args: Seq<Seq<char>>, flag: Seq<char>) -> Option<usize> {
    match flag_argument(args, flag) {
        Some(s) => match text::number_text(s, usize::MAX as nat) {
            Some(n) => Some(n as usize),
            None => None,
        },
        None => None,
    }
}

/// The index behind a flag. `Some` when the flag is present with a valid value.
pub fn parse_flag_index(args: &Vec<String>, flag: &str) -> (r: Option<usize>)
    ensures
        r == flag_index(text::views(args@), flag@),
{
    match flag_value(args, flag) {
        Some(s) => {
            let v = text::chars_of(s.as_str());
            match text::parse_number(&v, usize::MAX as u64) {
                Some(n) => Some(n as usize),
                None => None,
            }
        },
        None => None,
    }
}

/// The `--port <port>` argument. `Some` when the flag is present with a valid
/// value.
pub fn parse_port_arg(args: &Vec<String>) -> (r: Option<u16>)
    ensures
        r == flag_port(text::views(args@), "--port"@),
{
    parse_flag_port(args, "--port")
}

/// The port that an optional text gives.
pub open spec fn port_setting(s: Option<Seq<char>>) -> Option<u16> {
    match s {
        Some(s) => port_text(s),
        None => None,
    }
}

/// The port to bind to: `--port`, else the environment's setting, else the
/// default.
pub open spec fn resolved_port(
    args: Seq<Seq<char>>,
    setting: Option<Seq<char>>,
    default: u16,
) -> u16 {
    match flag_port(args, "--port"@) {
        Some(p) => p,
        None => match port_setting(setting) {
            Some(p) => p,
            None => default,
        },
    }
}

/// Resolves the port to bind to.
///
/// Priority: `--port` argument, then the setting of the environment variable,
/// then the default. A value that is no port counts as absent.
pub fn resolve_port(args: &Vec<String>, setting: &Option<String>, default: u16) -> (r: u16)
    ensures
        r == resolved_port(text::views(args@), text::opt_view(*setting), default),
{
    match parse_port_arg(args) {
        Some(p) => p,
        None => match setting {
            Some(s) => match parse_port(s.as_str()) {
                Some(p) => p,
                None => default,
            },
            None => default,
        },
    }
}

/// Without a usable `--port` and a usable setting the port is the default, and
/// a usable `--port` overrides any setting.
pub proof fn law_port_priority(args: Seq<Seq<char>>, setting: Option<Seq<char>>, default: u16)
    ensures
        flag_port(args, "--port"@) is Some ==> forall|s: Option<Seq<char>>, d: u16|
            resolved_port(args, s, d) == resolved_port(args, setting, default),
        flag_port(args, "--port"@) is None && port_setting(setting) is None ==> resolved_port(
            args,
            setting,
            default,
        ) == default,
{
}

/// A flag has the argument behind its first occurrence that has one, and none where every
/// occurrence is the last argument.
pub proof fn law_flag_has_the_argument_behind_it(args: Seq<Seq<char>>, flag: Seq<char>)
    ensures
        match flag_argument(args, flag) {
            Some(v) => exists|i: int|
                0 <= i < args.len() - 1 && #[trigger] args[i] == flag && args[i + 1] == v
                    && forall|j: int| 0 <= j < i ==> #[trigger] args[j] != flag,
            None => forall|i: int| 0 <= i < args.len() - 1 ==> #[trigger] args[i] != flag,
        },
    decreases args.len(),
{
    if args.len() >= 2 {
        let rest = args.skip(1);
        if args[0] != flag {
            law_flag_has_the_argument_behind_it(rest, flag);
            match flag_argument(rest, flag) {
                Some(v) => {
                    let i = choose|i: int|
                        0 <= i < rest.len() - 1 && #[trigger] rest[i] == flag && rest[i + 1] == v
                            && forall|j: int| 0 <= j < i ==> #[trigger] rest[j] != flag;
                    assert(args[i + 1] == flag && args[i + 2] == v);
                    assert forall|j: int| 0 <= j < i + 1 implies #[trigger] args[j] != flag by {
                        if j > 0 {
                            assert(rest[j - 1] == args[j]);
                        }
                    }
                },
                None => {
                    assert forall|i: int| 0 <= i < args.len() - 1 implies #[trigger] args[i]
                        != flag by {
                        if i > 0 {
                            assert(rest[i - 1] == args[i]);
                        }
                    }
                },
            }
        }
    }
}

/// A port is read from its digits, as a port and as an index; a number that is no port
/// gives none.
pub proof fn law_port_is_read(n: nat, args: Seq<Seq<char>>, flag: Seq<char>)
    requires
        flag_argument(args, flag) == Some(text::decimal(n)),
    ensures
        port_text(text::decimal(n)) is Some <==> n <= u16::MAX,
        n <= u16::MAX ==> port_text(text::decimal(n)) == Some(n as u16),
        flag_port(args, flag) == port_text(text::decimal(n)),
        n <= usize::MAX ==> flag_index(args, flag) == Some(n as usize),
{
    text::law_number_round_trip(n, n);
    if n <= u16::MAX {
        text::law_number_round_trip(n, u16::MAX as nat);
    }
    if n <= usize::MAX {
        text::law_number_round_trip(n, usize::MAX as nat);
    }
}

/// A usable `--port` wins; else a usable setting of the environment does.
pub proof fn law_setting_comes_second(args: Seq<Seq<char>>, setting: Seq<char>, default: u16)
    ensures
        flag_port(args, "--port"@) matches Some(p) ==> resolved_port(args, Some(setting), default)
            == p,
        flag_port(args, "--port"@) is None ==> (port_text(setting) matches Some(p)
            ==> resolved_port(args, Some(setting), default) == p),
{
}

} // verus!
