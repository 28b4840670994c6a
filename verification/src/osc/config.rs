//! Command line configuration of the OSC bridge.
use vstd::prelude::*;

use crate::bridge::mapping;
use crate::cli;
use crate::osc::convert;
use crate::routing;
use crate::text;

verus! {

/// Configuration of the OSC bridge.
#[derive(Debug)]
pub struct Config {
    /// Voice name shown in the hub.
    pub name: String,
    /// Address prefix of outbound actions.
    pub ens_prefix: String,
    /// OSC address prefix.
    pub osc_prefix: String,
    /// Host to send OSC messages to.
    pub osc_send_host: String,
    /// Port to send OSC messages to.
    pub osc_send_port: u16,
    /// UDP port to listen on.
    pub osc_listen_port: u16,
    /// Explicit hub port, which bypasses discovery.
    pub hub_port: Option<u16>,
}

/// What a configuration is, mathematically.
pub struct ConfigModel {
    pub name: Seq<char>,
    pub ens_prefix: Seq<char>,
    pub osc_prefix: Seq<char>,
    pub osc_send_host: Seq<char>,
    pub osc_send_port: u16,
    pub osc_listen_port: u16,
    pub hub_port: Option<u16>,
}

impl View for Config {
    type V = ConfigModel;

    open spec fn view(&self) -> ConfigModel {
        ConfigModel {
            name: self.name@,
            ens_prefix: self.ens_prefix@,
            osc_prefix: self.osc_prefix@,
            osc_send_host: self.osc_send_host@,
            osc_send_port: self.osc_send_port,
            osc_listen_port: self.osc_listen_port,
            hub_port: self.hub_port,
        }
    }
}

/// The configuration without arguments.
pub open spec fn default_config() -> ConfigModel {
    ConfigModel {
        name: "osc-bridge"@,
        ens_prefix: "/osc/out"@,
        osc_prefix: Seq::empty(),
        osc_send_host: "127.0.0.1"@,
        osc_send_port: 9000,
        osc_listen_port: 9001,
        hub_port: None,
    }
}

/// Whether a text is the name of an option.
pub open spec fn is_option(s: Seq<char>) -> bool {
    s == "--name"@ || s == "--ens-prefix"@ || s == "--osc-prefix"@ || s == "--osc-send-host"@ || s
        == "--osc-send-port"@ || s == "--osc-listen-port"@ || s == "--hub"@
}

/// The port that a text stands for, or `current` where it is none.
pub open spec fn port_or(current: u16, value: Seq<char>) -> u16 {
    match cli::port_text(value) {
        Some(port) => port,
        None => current,
    }
}

/// The configuration with an option set. A port that is no number changes nothing.
pub open spec fn with_option(c: ConfigModel, option: Seq<char>, value: Seq<char>) -> ConfigModel {
    if option == "--name"@ {
        ConfigModel { name: value, ..c }
    } else if option == "--ens-prefix"@ {
        ConfigModel { ens_prefix: value, ..c }
    } else if option == "--osc-prefix"@ {
        ConfigModel { osc_prefix: value, ..c }
    } else if option == "--osc-send-host"@ {
        ConfigModel { osc_send_host: value, ..c }
    } else if option == "--osc-send-port"@ {
        ConfigModel { osc_send_port: port_or(c.osc_send_port, value), ..c }
    } else if option == "--osc-listen-port"@ {
        ConfigModel { osc_listen_port: port_or(c.osc_listen_port, value), ..c }
    } else {
        ConfigModel {
            hub_port: match cli::port_text(value) {
                Some(port) => Some(port),
                None => c.hub_port,
            },
            ..c
        }
    }
}

/// The configuration after the arguments from position `i` on. An option takes
/// the argument that follows it; an option at the end, and what is no option, is
/// passed over.
pub open spec fn with_args(c: ConfigModel, args: Seq<Seq<char>>, i: nat) -> ConfigModel
    decreases args.len() - i,
{
    if i >= args.len() {
        c
    } else if is_option(args[i as int]) && i + 1 < args.len() {
        with_args(with_option(c, args[i as int], args[i as int + 1]), args, i + 2)
    } else {
        with_args(c, args, i + 1)
    }
}

/// The arguments from position `i` on that are neither an option nor its value.
pub open spec fn unknown_from(args: Seq<Seq<char>>, i: nat) -> Seq<Seq<char>>
    decreases args.len() - i,
{
    if i >= args.len() {
        Seq::empty()
    } else if is_option(args[i as int]) {
        if i + 1 < args.len() {
            unknown_from(args, i + 2)
        } else {
            Seq::empty()
        }
    } else {
        seq![args[i as int]] + unknown_from(args, i + 1)
    }
}

/// Whether a text is the name of an option.
fn names_option(s: &str) -> (r: bool)
    ensures
        r == is_option(s@),
{
    text::same(s, "--name") || text::same(s, "--ens-prefix") || text::same(s, "--osc-prefix")
        || text::same(s, "--osc-send-host") || text::same(s, "--osc-send-port") || text::same(
        s,
        "--osc-listen-port",
    ) || text::same(s, "--hub")
}

/// The arguments of the command line that are neither an option nor its value. The
/// first argument is the name of the program.
pub fn unknown_args(args: &Vec<String>) -> (r: Vec<String>)
    ensures
        text::views(r@) == unknown_from(text::views(args@), 1),
{
    let ghost all = text::views(args@);
    let mut out: Vec<String> = Vec::new();
    let mut i: usize = 1;
    let n: usize = args.len();
    assert(text::views(out@) + unknown_from(all, 1) =~= unknown_from(all, 1));
    while i < n
        invariant
            n == args@.len(),
            all == text::views(args@),
            all.len() == n,
            unknown_from(all, 1) == text::views(out@) + unknown_from(all, i as nat),
        decreases n - i,
    {
        assert(all[i as int] == args@[i as int]@);
        if names_option(args[i].as_str()) {
            if i == n - 1 {
                assert(unknown_from(all, i as nat) =~= Seq::empty());
                i = n;
            } else {
                i = i + 2;
            }
        } else {
            let ghost earlier = text::views(out@);
            out.push(args[i].clone());
            assert(text::views(out@) =~= earlier.push(all[i as int]));
            assert(earlier + unknown_from(all, i as nat) =~= text::views(out@) + unknown_from(
                all,
                (i + 1) as nat,
            ));
            i = i + 1;
        }
    }
    assert(text::views(out@) + Seq::<Seq<char>>::empty() =~= text::views(out@));
    out
}

/// The pattern of everything below a prefix.
pub open spec fn subscription(prefix: Seq<char>) -> Seq<char> {
    convert::without_end_slashes(prefix) + "/**"@
}

impl Default for Config {
    fn default() -> (r: Self)
        ensures
            r@ == default_config(),
    {
        Config {
            name: "osc-bridge".to_owned(),
            ens_prefix: "/osc/out".to_owned(),
            osc_prefix: String::new(),
            osc_send_host: "127.0.0.1".to_owned(),
            osc_send_port: 9000,
            osc_listen_port: 9001,
            hub_port: None,
        }
    }
}

impl Config {
    /// The configuration that the command line gives. The first argument is the
    /// name of the program.
    pub fn from_args(args: &Vec<String>) -> (r: Self)
        ensures
            r@ == with_args(default_config(), text::views(args@), 1),
    {
        let mut config = Config::default();
        let ghost all = text::views(args@);
        let mut i: usize = 1;
        let n: usize = args.len();
        while i < n
            invariant
                n == args@.len(),
                all == text::views(args@),
                all.len() == n,
                with_args(default_config(), all, 1) == with_args(config@, all, i as nat),
            decreases n - i,
        {
            assert(all[i as int] == args@[i as int]@);
            let has_value = i < n - 1;
            if has_value {
                assert(all[i as int + 1] == args@[i as int + 1]@);
                if config.set_option(args[i].as_str(), &args[i + 1]) {
                    i = i + 1;
                }
            }
            i = i + 1;
        }
        config
    }

    fn set_option(&mut self, option: &str, value: &String) -> (r: bool)
        ensures
            r == is_option(option@),
            final(self)@ == (if r {
                with_option(old(self)@, option@, value@)
            } else {
                old(self)@
            }),
    {
        if text::same(option, "--name") {
            self.name = value.clone();
        } else if text::same(option, "--ens-prefix") {
            self.ens_prefix = value.clone();
        } else if text::same(option, "--osc-prefix") {
            self.osc_prefix = value.clone();
        } else if text::same(option, "--osc-send-host") {
            self.osc_send_host = value.clone();
        } else if text::same(option, "--osc-send-port") {
            if let Some(port) = cli::parse_port(value.as_str()) {
                self.osc_send_port = port;
            }
        } else if text::same(option, "--osc-listen-port") {
            if let Some(port) = cli::parse_port(value.as_str()) {
                self.osc_listen_port = port;
            }
        } else if text::same(option, "--hub") {
            if let Some(port) = cli::parse_port(value.as_str()) {
                self.hub_port = Some(port);
            }
        } else {
            return false;
        }
        true
    }

    /// The address to send OSC messages to.
    pub fn osc_target_addr(&self) -> (r: String)
        ensures
            r@ == text::host_port(self@.osc_send_host, self@.osc_send_port),
    {
        text::join_host_port(self.osc_send_host.as_str(), self.osc_send_port)
    }

    /// The pattern to subscribe to: everything below the prefix.
    pub fn subscribe_pattern(&self) -> (r: String)
        ensures
            r@ == subscription(self@.ens_prefix),
            r@ == convert::without_end_slashes(self@.ens_prefix) + "/**"@,
    {
        convert::trimmed_prefix(self.ens_prefix.as_str()).concat("/**")
    }
}

/// Options are independent: the order of two different ones does not matter.
pub proof fn law_options_are_independent(
    c: ConfigModel,
    a: Seq<char>,
    b: Seq<char>,
    x: Seq<char>,
    y: Seq<char>,
)
    requires
        is_option(a),
        is_option(b),
        a != b,
    ensures
        with_option(with_option(c, a, x), b, y) == with_option(with_option(c, b, y), a, x),
{
}

/// Of two values for one option the later counts; a port that is no port leaves the earlier
/// one.
pub proof fn law_later_option_counts(
    c: ConfigModel,
    option: Seq<char>,
    x: Seq<char>,
    y: Seq<char>,
)
    requires
        is_option(option),
    ensures
        cli::port_text(y) is Some ==> with_option(with_option(c, option, x), option, y)
            == with_option(c, option, y),
        with_option(with_option(c, option, x), option, x) == with_option(c, option, x),
{
}

/// Each option sets what it is named after.
pub proof fn law_options_set_their_field(c: ConfigModel, value: Seq<char>, port: u16)
    ensures
        with_option(c, "--name"@, value).name == value,
        with_option(c, "--ens-prefix"@, value).ens_prefix == value,
        with_option(c, "--osc-prefix"@, value).osc_prefix == value,
        with_option(c, "--osc-send-host"@, value).osc_send_host == value,
        with_option(c, "--osc-send-port"@, text::decimal(port as nat)).osc_send_port == port,
        with_option(c, "--osc-listen-port"@, text::decimal(port as nat)).osc_listen_port == port,
        with_option(c, "--hub"@, text::decimal(port as nat)).hub_port == Some(port),
{
    text::law_number_round_trip(port as nat, u16::MAX as nat);
    reveal_strlit("--name");
    reveal_strlit("--ens-prefix");
    reveal_strlit("--osc-prefix");
    reveal_strlit("--osc-send-host");
    reveal_strlit("--osc-send-port");
    reveal_strlit("--osc-listen-port");
    reveal_strlit("--hub");
    assert("--name"@.len() == 6 && "--ens-prefix"@.len() == 12 && "--osc-prefix"@.len() == 12
        && "--osc-send-host"@.len() == 15 && "--osc-send-port"@.len() == 15
        && "--osc-listen-port"@.len() == 17 && "--hub"@.len() == 5);
    assert("--ens-prefix"@[2] == 'e' && "--osc-prefix"@[2] == 'o');
    assert("--osc-send-host"@[11] == 'h' && "--osc-send-port"@[11] == 'p');
}

/// An option with its value in front of other arguments is set before them, and what is no
/// option is passed over and reported.
pub proof fn law_arguments_are_taken_in_order(
    c: ConfigModel,
    first: Seq<char>,
    second: Seq<char>,
    rest: Seq<Seq<char>>,
)
    ensures
        is_option(first) ==> {
            &&& with_args(c, seq![first, second] + rest, 0) == with_args(
                with_option(c, first, second),
                rest,
                0,
            )
            &&& unknown_from(seq![first, second] + rest, 0) == unknown_from(rest, 0)
        },
        !is_option(first) ==> {
            &&& with_args(c, seq![first] + rest, 0) == with_args(c, rest, 0)
            &&& unknown_from(seq![first] + rest, 0) == seq![first] + unknown_from(rest, 0)
        },
        is_option(first) ==> with_args(c, seq![first], 0) == c,
{
    let two = seq![first, second] + rest;
    let one = seq![first] + rest;
    assert(two[0] == first && two[1] == second && one[0] == first);
    if is_option(first) {
        lemma_shifted(with_option(c, first, second), two, rest, 2, 0);
        let alone = seq![first];
        assert(alone[0] == first);
        assert(with_args(c, alone, 1) == c);
    } else {
        lemma_shifted(c, one, rest, 1, 0);
    }
}

proof fn lemma_shifted(
    c: ConfigModel,
    args: Seq<Seq<char>>,
    rest: Seq<Seq<char>>,
    by: nat,
    i: nat,
)
    requires
        args.len() == rest.len() + by,
        forall|j: int| 0 <= j < rest.len() ==> #[trigger] rest[j] == args[j + by],
    ensures
        with_args(c, args, i + by) == with_args(c, rest, i),
        unknown_from(args, i + by) == unknown_from(rest, i),
    decreases rest.len() - i,
{
    if i < rest.len() {
        assert(rest[i as int] == args[i as int + by]);
        if is_option(rest[i as int]) && i + 1 < rest.len() {
            assert(rest[i as int + 1] == args[i as int + 1 + by]);
            lemma_shifted(
                with_option(c, rest[i as int], rest[i as int + 1]),
                args,
                rest,
                by,
                i + 2,
            );
            lemma_shifted(c, args, rest, by, i + 2);
        } else {
            lemma_shifted(c, args, rest, by, i + 1);
        }
    }
}

/// The bridge subscribes to what it sends out: every address below the prefix.
pub proof fn law_subscription_covers_the_prefix(prefix: Seq<char>, rest: Seq<char>)
    requires
        prefix.len() > 0 && prefix.last() != '/',
        mapping::is_base(prefix),
    ensures
        routing::pattern_accepts(subscription(prefix), prefix),
        routing::pattern_accepts(subscription(prefix), prefix.push('/') + rest),
{
    reveal_strlit("/**");
    assert(subscription(prefix) =~= mapping::subtree(prefix));
    mapping::lemma_base_is_in_its_subtree(prefix);
    routing::law_recursive_accepts_subtree(subscription(prefix), prefix, rest);
}

/// Without arguments the bridge sends to port 9000 of this machine, listens at the port
/// behind it, passes on what is below `/osc/out` without a prefix, and looks for the hub.
pub proof fn law_defaults(program: Seq<char>)
    ensures
        ({
            let c = with_args(default_config(), seq![program], 1);
            &&& c.osc_send_host == "127.0.0.1"@
            &&& c.osc_send_port == 9000
            &&& c.osc_listen_port == c.osc_send_port + 1
            &&& c.ens_prefix == "/osc/out"@
            &&& c.osc_prefix.len() == 0
            &&& c.name == "osc-bridge"@
            &&& c.hub_port is None
        }),
        with_args(default_config(), Seq::empty(), 1) == with_args(
            default_config(),
            seq![program],
            1,
        ),
{
}

} // verus!
