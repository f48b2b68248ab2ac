//! Forwarding rules, the configuration that holds them, and its rendering
//! as commented TOML text.

use vstd::prelude::*;
use vstd::string::StringExecFns;
use crate::addr::{ip_of_text, parse_ip, SocketAddress};
use crate::text::{decimal, push_decimal};

verus! {

/// Buffer size, in bytes, used where the configuration names none.
pub const DEFAULT_BUFFER_SIZE: usize = 8192;

/// Idle timeout, in seconds, of a UDP rule that names none.
pub const DEFAULT_UDP_TIMEOUT_SECS: u64 = 30;

/// Process-wide settings.
#[derive(Debug, Clone)]
pub struct GlobalConfig {
    pub log_level: Option<String>,
    pub buffer_size: Option<usize>,
}

/// One TCP forwarding rule: a local endpoint to bind and the remote
/// endpoint that its connections are relayed to.
#[derive(Debug, Clone)]
pub struct TcpRule {
    pub bind_addr: String,
    pub bind_port: u16,
    pub target_addr: String,
    pub target_port: u16,
    pub name: Option<String>,
}

/// One UDP forwarding rule, with the idle timeout of its sessions.
#[derive(Debug, Clone)]
pub struct UdpRule {
    pub bind_addr: String,
    pub bind_port: u16,
    pub target_addr: String,
    pub target_port: u16,
    pub name: Option<String>,
    pub timeout: Option<u64>,
}

/// The whole configuration: global settings and the two lists of rules.
#[derive(Debug, Clone)]
pub struct Config {
    pub global: Option<GlobalConfig>,
    pub tcp: Option<Vec<TcpRule>>,
    pub udp: Option<Vec<UdpRule>>,
}

/// Mathematical value of a [`GlobalConfig`].
pub struct GlobalConfigView {
    pub log_level: Option<Seq<char>>,
    pub buffer_size: Option<usize>,
}

/// Mathematical value of a [`TcpRule`].
pub struct TcpRuleView {
    pub bind_addr: Seq<char>,
    pub bind_port: u16,
    pub target_addr: Seq<char>,
    pub target_port: u16,
    pub name: Option<Seq<char>>,
}

/// Mathematical value of a [`UdpRule`].
pub struct UdpRuleView {
    pub bind_addr: Seq<char>,
    pub bind_port: u16,
    pub target_addr: Seq<char>,
    pub target_port: u16,
    pub name: Option<Seq<char>>,
    pub timeout: Option<u64>,
}

/// Mathematical value of a [`Config`].
pub struct ConfigView {
    pub global: Option<GlobalConfigView>,
    pub tcp: Option<Seq<TcpRuleView>>,
    pub udp: Option<Seq<UdpRuleView>>,
}

/// The text of an optional string.
pub open spec fn opt_text(s: Option<String>) -> Option<Seq<char>> {
    match s {
        Some(t) => Some(t@),
        None => None,
    }
}

impl View for GlobalConfig {
    type V = GlobalConfigView;

    open spec fn view(&self) -> GlobalConfigView {
        GlobalConfigView { log_level: opt_text(self.log_level), buffer_size: self.buffer_size }
    }
}

impl View for TcpRule {
    type V = TcpRuleView;

    open spec fn view(&self) -> TcpRuleView {
        TcpRuleView {
            bind_addr: self.bind_addr@,
            bind_port: self.bind_port,
            target_addr: self.target_addr@,
            target_port: self.target_port,
            name: opt_text(self.name),
        }
    }
}

impl View for UdpRule {
    type V = UdpRuleView;

    open spec fn view(&self) -> UdpRuleView {
        UdpRuleView {
            bind_addr: self.bind_addr@,
            bind_port: self.bind_port,
            target_addr: self.target_addr@,
            target_port: self.target_port,
            name: opt_text(self.name),
            timeout: self.timeout,
        }
    }
}

/// The values of a list of TCP rules, in order.
pub open spec fn tcp_rule_views(rules: Seq<TcpRule>) -> Seq<TcpRuleView> {
    Seq::new(rules.len(), |i: int| rules[i]@)
}

/// The values of a list of UDP rules, in order.
pub open spec fn udp_rule_views(rules: Seq<UdpRule>) -> Seq<UdpRuleView> {
    Seq::new(rules.len(), |i: int| rules[i]@)
}

/// The value of the optional global settings.
pub open spec fn global_view(global: Option<GlobalConfig>) -> Option<GlobalConfigView> {
    match global {
        Some(g) => Some(g@),
        None => None,
    }
}

/// The value of the optional list of TCP rules.
pub open spec fn tcp_list_view(rules: Option<Vec<TcpRule>>) -> Option<Seq<TcpRuleView>> {
    match rules {
        Some(r) => Some(tcp_rule_views(r@)),
        None => None,
    }
}

/// The value of the optional list of UDP rules.
pub open spec fn udp_list_view(rules: Option<Vec<UdpRule>>) -> Option<Seq<UdpRuleView>> {
    match rules {
        Some(r) => Some(udp_rule_views(r@)),
        None => None,
    }
}

impl View for Config {
    type V = ConfigView;

    open spec fn view(&self) -> ConfigView {
        ConfigView {
            global: global_view(self.global),
            tcp: tcp_list_view(self.tcp),
            udp: udp_list_view(self.udp),
        }
    }
}

/// The line `key = "value"`, with the value between double quotes as it
/// stands.
pub open spec fn string_entry(key: Seq<char>, value: Seq<char>) -> Seq<char> {
    key + " = \""@ + value + "\"\n"@
}

/// The line `key = n`, with `n` as a decimal numeral.
pub open spec fn number_entry(key: Seq<char>, n: nat) -> Seq<char> {
    key + " = "@ + decimal(n) + "\n"@
}

/// The comment block that opens the rendered configuration.
pub open spec fn header_text() -> Seq<char> {
    "# Porture Configuration File\n"@ + "# TCP/UDP Port Forwarding Tool\n"@ + "# \n"@
        + "# This configuration was automatically generated.\n"@
        + "# Please edit it to suit your needs.\n"@ + "# \n"@
        + "# For more examples and documentation, visit:\n"@
        + "# https://github.com/AptS-1547/porture\n\n"@
}

/// The lines of a `[global]` table below its first comment: the settings
/// that are present, the buffer size under a comment of its own.
pub open spec fn global_entries_text(global: Option<GlobalConfigView>) -> Seq<char> {
    match global {
        Some(g) => (match g.log_level {
            Some(level) => string_entry("log_level"@, level),
            None => Seq::<char>::empty(),
        }) + "# Buffer size for data transfer (in bytes)\n"@ + (match g.buffer_size {
            Some(size) => number_entry("buffer_size"@, size as nat),
            None => Seq::<char>::empty(),
        }),
        None => Seq::<char>::empty(),
    }
}

/// The `[global]` section, closed by an empty line.
pub open spec fn global_text(global: Option<GlobalConfigView>) -> Seq<char> {
    "# Global settings\n"@ + "[global]\n"@ + "# Log level: error, warn, info, debug, trace\n"@
        + global_entries_text(global) + "\n"@
}

/// The lines that a TCP and a UDP rule share: both endpoints with their
/// comments, then the name where there is one.
pub open spec fn endpoints_text(
    bind_addr: Seq<char>,
    bind_port: u16,
    target_addr: Seq<char>,
    target_port: u16,
    name: Option<Seq<char>>,
) -> Seq<char> {
    "# Local address to bind to (use \"0.0.0.0\" for all interfaces)\n"@ + string_entry(
        "bind_addr"@,
        bind_addr,
    ) + "# Local port to bind to\n"@ + number_entry("bind_port"@, bind_port as nat)
        + "# Target address to forward to\n"@ + string_entry("target_addr"@, target_addr)
        + "# Target port to forward to\n"@ + number_entry("target_port"@, target_port as nat) + (
    match name {
        Some(n) => "# Optional: rule name for logging\n"@ + string_entry("name"@, n),
        None => Seq::<char>::empty(),
    })
}

/// One `[[tcp]]` table, closed by an empty line.
pub open spec fn tcp_rule_text(rule: TcpRuleView) -> Seq<char> {
    "[[tcp]]\n"@ + endpoints_text(
        rule.bind_addr,
        rule.bind_port,
        rule.target_addr,
        rule.target_port,
        rule.name,
    ) + "\n"@
}

/// One `[[udp]]` table, closed by an empty line. The timeout's comment is
/// there whether or not the rule names a timeout.
pub open spec fn udp_rule_text(rule: UdpRuleView) -> Seq<char> {
    "[[udp]]\n"@ + endpoints_text(
        rule.bind_addr,
        rule.bind_port,
        rule.target_addr,
        rule.target_port,
        rule.name,
    ) + "# UDP session timeout in seconds\n"@ + (match rule.timeout {
        Some(t) => number_entry("timeout"@, t as nat),
        None => Seq::<char>::empty(),
    }) + "\n"@
}

/// The tables of a list of TCP rules, in the order of the list.
pub open spec fn tcp_rules_text(rules: Seq<TcpRuleView>) -> Seq<char>
    decreases rules.len(),
{
    if rules.len() == 0 {
        Seq::<char>::empty()
    } else {
        tcp_rules_text(rules.drop_last()) + tcp_rule_text(rules.last())
    }
}

/// The tables of a list of UDP rules, in the order of the list.
pub open spec fn udp_rules_text(rules: Seq<UdpRuleView>) -> Seq<char>
    decreases rules.len(),
{
    if rules.len() == 0 {
        Seq::<char>::empty()
    } else {
        udp_rules_text(rules.drop_last()) + udp_rule_text(rules.last())
    }
}

/// The TCP section: nothing where the configuration has no TCP list, else a
/// comment and the tables (none for an empty list).
pub open spec fn tcp_section_text(rules: Option<Seq<TcpRuleView>>) -> Seq<char> {
    match rules {
        Some(r) => "# TCP forwarding rules\n"@ + tcp_rules_text(r),
        None => Seq::<char>::empty(),
    }
}

/// The UDP section, built as the TCP section is.
pub open spec fn udp_section_text(rules: Option<Seq<UdpRuleView>>) -> Seq<char> {
    match rules {
        Some(r) => "# UDP forwarding rules\n"@ + udp_rules_text(r),
        None => Seq::<char>::empty(),
    }
}

/// The whole rendered configuration: header, global section, TCP section,
/// UDP section.
pub open spec fn toml_text(config: ConfigView) -> Seq<char> {
    header_text() + global_text(config.global) + tcp_section_text(config.tcp) + udp_section_text(
        config.udp,
    )
}

fn push_string_entry(out: &mut String, key: &str, value: &str)
    ensures
        final(out)@ == old(out)@ + string_entry(key@, value@),
{
    out.append(key);
    out.append(" = \"");
    out.append(value);
    out.append("\"\n");
}

fn push_number_entry(out: &mut String, key: &str, n: u64)
    ensures
        final(out)@ == old(out)@ + number_entry(key@, n as nat),
{
    out.append(key);
    out.append(" = ");
    push_decimal(out, n);
    out.append("\n");
    assert(out@ =~= old(out)@ + number_entry(key@, n as nat));
}

fn push_header(out: &mut String)
    ensures
        final(out)@ == old(out)@ + header_text(),
{
    out.append("# Porture Configuration File\n");
    out.append("# TCP/UDP Port Forwarding Tool\n");
    out.append("# \n");
    out.append("# This configuration was automatically generated.\n");
    out.append("# Please edit it to suit your needs.\n");
    out.append("# \n");
    out.append("# For more examples and documentation, visit:\n");
    out.append("# https://github.com/AptS-1547/porture\n\n");
}

fn push_global(out: &mut String, global: &Option<GlobalConfig>)
    ensures
        final(out)@ == old(out)@ + global_text(global_view(*global)),
{
    let ghost view = global_view(*global);
    out.append("# Global settings\n");
    out.append("[global]\n");
    out.append("# Log level: error, warn, info, debug, trace\n");
    let ghost before = out@;
    match global {
        Some(g) => {
            match &g.log_level {
                Some(level) => {
                    push_string_entry(out, "log_level", level.as_str());
                },
                None => {},
            }
            out.append("# Buffer size for data transfer (in bytes)\n");
            match g.buffer_size {
                Some(size) => {
                    push_number_entry(out, "buffer_size", size as u64);
                },
                None => {},
            }
        },
        None => {},
    }
    assert(out@ =~= before + global_entries_text(view));
    out.append("\n");
    assert(out@ =~= old(out)@ + global_text(view));
}

fn push_endpoints(
    out: &mut String,
    bind_addr: &String,
    bind_port: u16,
    target_addr: &String,
    target_port: u16,
    name: &Option<String>,
)
    ensures
        final(out)@ == old(out)@ + endpoints_text(
            bind_addr@,
            bind_port,
            target_addr@,
            target_port,
            opt_text(*name),
        ),
{
    out.append("# Local address to bind to (use \"0.0.0.0\" for all interfaces)\n");
    push_string_entry(out, "bind_addr", bind_addr.as_str());
    out.append("# Local port to bind to\n");
    push_number_entry(out, "bind_port", bind_port as u64);
    out.append("# Target address to forward to\n");
    push_string_entry(out, "target_addr", target_addr.as_str());
    out.append("# Target port to forward to\n");
    push_number_entry(out, "target_port", target_port as u64);
    match name {
        Some(n) => {
            out.append("# Optional: rule name for logging\n");
            push_string_entry(out, "name", n.as_str());
        },
        None => {},
    }
    assert(out@ =~= old(out)@ + endpoints_text(
        bind_addr@,
        bind_port,
        target_addr@,
        target_port,
        opt_text(*name),
    ));
}

fn push_tcp_rule(out: &mut String, rule: &TcpRule)
    ensures
        final(out)@ == old(out)@ + tcp_rule_text(rule@),
{
    out.append("[[tcp]]\n");
    push_endpoints(
        out,
        &rule.bind_addr,
        rule.bind_port,
        &rule.target_addr,
        rule.target_port,
        &rule.name,
    );
    out.append("\n");
    assert(out@ =~= old(out)@ + tcp_rule_text(rule@));
}

fn push_udp_rule(out: &mut String, rule: &UdpRule)
    ensures
        final(out)@ == old(out)@ + udp_rule_text(rule@),
{
    out.append("[[udp]]\n");
    push_endpoints(
        out,
        &rule.bind_addr,
        rule.bind_port,
        &rule.target_addr,
        rule.target_port,
        &rule.name,
    );
    out.append("# UDP session timeout in seconds\n");
    match rule.timeout {
        Some(t) => {
            push_number_entry(out, "timeout", t);
        },
        None => {},
    }
    out.append("\n");
}

fn push_tcp_section(out: &mut String, rules: &Option<Vec<TcpRule>>)
    ensures
        final(out)@ == old(out)@ + tcp_section_text(tcp_list_view(*rules)),
{
    match rules {
        Some(list) => {
            out.append("# TCP forwarding rules\n");
            let ghost start = out@;
            let ghost views = tcp_rule_views(list@);
            let mut i: usize = 0;
            while i < list.len()
                invariant
                    i <= list.len(),
                    views == tcp_rule_views(list@),
                    out@ == start + tcp_rules_text(views.take(i as int)),
                decreases list.len() - i,
            {
                push_tcp_rule(out, &list[i]);
                proof {
                    let next = views.take(i as int + 1);
                    assert(next.drop_last() =~= views.take(i as int));
                }
                i = i + 1;
            }
            assert(views.take(i as int) =~= views);
            assert(out@ =~= old(out)@ + tcp_section_text(Some(views)));
        },
        None => {},
    }
}

fn push_udp_section(out: &mut String, rules: &Option<Vec<UdpRule>>)
    ensures
        final(out)@ == old(out)@ + udp_section_text(udp_list_view(*rules)),
{
    match rules {
        Some(list) => {
            out.append("# UDP forwarding rules\n");
            let ghost start = out@;
            let ghost views = udp_rule_views(list@);
            let mut i: usize = 0;
            while i < list.len()
                invariant
                    i <= list.len(),
                    views == udp_rule_views(list@),
                    out@ == start + udp_rules_text(views.take(i as int)),
                decreases list.len() - i,
            {
                push_udp_rule(out, &list[i]);
                proof {
                    let next = views.take(i as int + 1);
                    assert(next.drop_last() =~= views.take(i as int));
                    assert(next.last() == list@[i as int]@);
                }
                i = i + 1;
            }
            assert(views.take(i as int) =~= views);
            assert(out@ =~= old(out)@ + udp_section_text(Some(views)));
        },
        None => {
            assert(out@ =~= old(out)@ + Seq::<char>::empty());
        },
    }
}

impl Config {
    /// Renders the configuration as TOML text with explanatory comments.
    pub fn to_toml_with_comments(&self) -> (content: String)
        ensures
            content@ == toml_text(self@),
    {
        let mut content = String::new();
        push_header(&mut content);
        push_global(&mut content, &self.global);
        push_tcp_section(&mut content, &self.tcp);
        push_udp_section(&mut content, &self.udp);
        content
    }
}

/// The value of the configuration that is written where none exists: log
/// level `info`, the default buffer size, two TCP rules and one UDP rule,
/// all bound to the loopback address.
pub open spec fn default_config_view() -> ConfigView {
    ConfigView {
        global: Some(
            GlobalConfigView { log_level: Some("info"@), buffer_size: Some(DEFAULT_BUFFER_SIZE) },
        ),
        tcp: Some(
            seq![
                TcpRuleView {
                    bind_addr: "127.0.0.1"@,
                    bind_port: 8080,
                    target_addr: "127.0.0.1"@,
                    target_port: 80,
                    name: Some("web_proxy_example"@),
                },
                TcpRuleView {
                    bind_addr: "127.0.0.1"@,
                    bind_port: 2222,
                    target_addr: "127.0.0.1"@,
                    target_port: 22,
                    name: Some("ssh_proxy_example"@),
                },
            ],
        ),
        udp: Some(
            seq![
                UdpRuleView {
                    bind_addr: "127.0.0.1"@,
                    bind_port: 5353,
                    target_addr: "8.8.8.8"@,
                    target_port: 53,
                    name: Some("dns_proxy_example"@),
                    timeout: Some(DEFAULT_UDP_TIMEOUT_SECS),
                },
            ],
        ),
    }
}

impl Config {
    /// The configuration with example rules that is written where none
    /// exists.
    pub fn create_default_config() -> (config: Config)
        ensures
            config@ == default_config_view(),
    {
        let mut tcp: Vec<TcpRule> = Vec::new();
        tcp.push(
            TcpRule {
                bind_addr: String::from_str("127.0.0.1"),
                bind_port: 8080,
                target_addr: String::from_str("127.0.0.1"),
                target_port: 80,
                name: Some(String::from_str("web_proxy_example")),
            },
        );
        tcp.push(
            TcpRule {
                bind_addr: String::from_str("127.0.0.1"),
                bind_port: 2222,
                target_addr: String::from_str("127.0.0.1"),
                target_port: 22,
                name: Some(String::from_str("ssh_proxy_example")),
            },
        );
        let mut udp: Vec<UdpRule> = Vec::new();
        udp.push(
            UdpRule {
                bind_addr: String::from_str("127.0.0.1"),
                bind_port: 5353,
                target_addr: String::from_str("8.8.8.8"),
                target_port: 53,
                name: Some(String::from_str("dns_proxy_example")),
                timeout: Some(DEFAULT_UDP_TIMEOUT_SECS),
            },
        );
        let config = Config {
            global: Some(
                GlobalConfig {
                    log_level: Some(String::from_str("info")),
                    buffer_size: Some(DEFAULT_BUFFER_SIZE),
                },
            ),
            tcp: Some(tcp),
            udp: Some(udp),
        };
        proof {
            assert(config@.tcp->0 =~= default_config_view().tcp->0);
            assert(config@.udp->0 =~= default_config_view().udp->0);
        }
        config
    }
}

impl ConfigView {
    /// The size of the transfer buffers: the configured one, or the
    /// default.
    pub open spec fn buffer_size(self) -> usize {
        match self.global {
            Some(g) => match g.buffer_size {
                Some(size) => size,
                None => DEFAULT_BUFFER_SIZE,
            },
            None => DEFAULT_BUFFER_SIZE,
        }
    }

    /// The log level: the requested one, else the configured one, else
    /// `info`.
    pub open spec fn log_level(self, requested: Option<Seq<char>>) -> Seq<char> {
        match requested {
            Some(level) => level,
            None => match self.global {
                Some(g) => match g.log_level {
                    Some(level) => level,
                    None => "info"@,
                },
                None => "info"@,
            },
        }
    }
}

/// The text of an optional string slice.
pub open spec fn opt_str_text(s: Option<&str>) -> Option<Seq<char>> {
    match s {
        Some(t) => Some(t@),
        None => None,
    }
}

impl Config {
    /// The size, in bytes, of the buffers that all rules transfer through:
    /// the configured one, or the default.
    pub fn buffer_size(&self) -> (size: usize)
        ensures
            size == self@.buffer_size(),
    {
        match &self.global {
            Some(g) => match g.buffer_size {
                Some(size) => size,
                None => DEFAULT_BUFFER_SIZE,
            },
            None => DEFAULT_BUFFER_SIZE,
        }
    }

    /// The log level to run with: the requested one, else the configured
    /// one, else `info`.
    pub fn log_level<'a>(&'a self, requested: Option<&'a str>) -> (level: &'a str)
        ensures
            level@ == self@.log_level(opt_str_text(requested)),
    {
        match requested {
            Some(level) => level,
            None => match &self.global {
                Some(g) => match &g.log_level {
                    Some(level) => level.as_str(),
                    None => "info",
                },
                None => "info",
            },
        }
    }
}

/// The name under which a rule is reported where it has none of its own:
/// the protocol, then both endpoints as `address:port`, joined by `_to_`.
pub open spec fn endpoints_name(
    protocol: Seq<char>,
    bind_addr: Seq<char>,
    bind_port: u16,
    target_addr: Seq<char>,
    target_port: u16,
) -> Seq<char> {
    protocol + "_"@ + bind_addr + ":"@ + decimal(bind_port as nat) + "_to_"@ + target_addr + ":"@
        + decimal(target_port as nat)
}

fn build_endpoints_name(
    protocol: &str,
    bind_addr: &String,
    bind_port: u16,
    target_addr: &String,
    target_port: u16,
) -> (name: String)
    ensures
        name@ == endpoints_name(protocol@, bind_addr@, bind_port, target_addr@, target_port),
{
    let mut name = String::new();
    name.append(protocol);
    name.append("_");
    name.append(bind_addr.as_str());
    name.append(":");
    push_decimal(&mut name, bind_port as u64);
    name.append("_to_");
    name.append(target_addr.as_str());
    name.append(":");
    push_decimal(&mut name, target_port as u64);
    name
}

impl TcpRuleView {
    /// The rule's own name, or the one made of its endpoints.
    pub open spec fn rule_name(self) -> Seq<char> {
        match self.name {
            Some(n) => n,
            None => endpoints_name(
                "tcp"@,
                self.bind_addr,
                self.bind_port,
                self.target_addr,
                self.target_port,
            ),
        }
    }
}

impl UdpRuleView {
    /// The rule's own name, or the one made of its endpoints.
    pub open spec fn rule_name(self) -> Seq<char> {
        match self.name {
            Some(n) => n,
            None => endpoints_name(
                "udp"@,
                self.bind_addr,
                self.bind_port,
                self.target_addr,
                self.target_port,
            ),
        }
    }

    /// The idle timeout of the rule's sessions, in seconds.
    pub open spec fn timeout_seconds(self) -> u64 {
        match self.timeout {
            Some(t) => t,
            None => DEFAULT_UDP_TIMEOUT_SECS,
        }
    }
}

impl TcpRule {
    /// The name under which the rule is reported.
    pub fn rule_name(&self) -> (name: String)
        ensures
            name@ == self@.rule_name(),
    {
        match &self.name {
            Some(n) => n.clone(),
            None => build_endpoints_name(
                "tcp",
                &self.bind_addr,
                self.bind_port,
                &self.target_addr,
                self.target_port,
            ),
        }
    }
}

impl UdpRule {
    /// The name under which the rule is reported.
    pub fn rule_name(&self) -> (name: String)
        ensures
            name@ == self@.rule_name(),
    {
        match &self.name {
            Some(n) => n.clone(),
            None => build_endpoints_name(
                "udp",
                &self.bind_addr,
                self.bind_port,
                &self.target_addr,
                self.target_port,
            ),
        }
    }

    /// The idle timeout of the rule's sessions, in seconds: the configured
    /// one, or the default.
    pub fn timeout_seconds(&self) -> (secs: u64)
        ensures
            secs == self@.timeout_seconds(),
    {
        match self.timeout {
            Some(t) => t,
            None => DEFAULT_UDP_TIMEOUT_SECS,
        }
    }
}

/// Why a rule cannot be used: which of its two addresses is no internet
/// address.
#[derive(Debug, Clone, Copy, PartialEq, Eq, Structural)]
pub enum RuleError {
    InvalidBindAddress,
    InvalidTargetAddress,
}

impl RuleError {
    /// The words in which the error is reported.
    pub fn message(&self) -> (text: String)
        ensures
            text@ == "invalid IP address syntax"@,
    {
        String::from_str("invalid IP address syntax")
    }
}

/// The endpoint that an address text and a port name, or `error` where the
/// text is no internet address.
pub open spec fn endpoint_of(text: Seq<char>, port: u16, error: RuleError) -> Result<
    SocketAddress,
    RuleError,
> {
    match ip_of_text(text) {
        Some(ip) => Ok(SocketAddress::of(ip, port)),
        None => Err(error),
    }
}

/// Both endpoints of a rule, the local one first, or what is wrong with the
/// rule where one of its addresses is no internet address. Nothing is
/// bound or dialled for a rule before both are known.
pub open spec fn endpoints_of(
    bind_addr: Seq<char>,
    bind_port: u16,
    target_addr: Seq<char>,
    target_port: u16,
) -> Result<(SocketAddress, SocketAddress), RuleError> {
    match endpoint_of(bind_addr, bind_port, RuleError::InvalidBindAddress) {
        Err(e) => Err(e),
        Ok(bind) => match endpoint_of(target_addr, target_port, RuleError::InvalidTargetAddress) {
            Err(e) => Err(e),
            Ok(target) => Ok((bind, target)),
        },
    }
}

/// What is wrong with a pair of address texts: the bind address is looked
/// at first.
pub open spec fn endpoints_error(bind_addr: Seq<char>, target_addr: Seq<char>) -> Option<
    RuleError,
> {
    if ip_of_text(bind_addr) is None {
        Some(RuleError::InvalidBindAddress)
    } else if ip_of_text(target_addr) is None {
        Some(RuleError::InvalidTargetAddress)
    } else {
        None
    }
}

impl TcpRuleView {
    /// Both endpoints of the rule, or what is wrong with it.
    pub open spec fn endpoints(self) -> Result<(SocketAddress, SocketAddress), RuleError> {
        endpoints_of(self.bind_addr, self.bind_port, self.target_addr, self.target_port)
    }

    /// The local endpoint that the rule binds.
    pub open spec fn bind_socket_addr(self) -> Result<SocketAddress, RuleError> {
        endpoint_of(self.bind_addr, self.bind_port, RuleError::InvalidBindAddress)
    }

    /// The remote endpoint that the rule forwards to.
    pub open spec fn target_socket_addr(self) -> Result<SocketAddress, RuleError> {
        endpoint_of(self.target_addr, self.target_port, RuleError::InvalidTargetAddress)
    }

    /// What is wrong with the rule, if anything.
    pub open spec fn error(self) -> Option<RuleError> {
        endpoints_error(self.bind_addr, self.target_addr)
    }
}

impl UdpRuleView {
    /// Both endpoints of the rule, or what is wrong with it.
    pub open spec fn endpoints(self) -> Result<(SocketAddress, SocketAddress), RuleError> {
        endpoints_of(self.bind_addr, self.bind_port, self.target_addr, self.target_port)
    }

    /// The local endpoint that the rule binds.
    pub open spec fn bind_socket_addr(self) -> Result<SocketAddress, RuleError> {
        endpoint_of(self.bind_addr, self.bind_port, RuleError::InvalidBindAddress)
    }

    /// The remote endpoint that the rule forwards to.
    pub open spec fn target_socket_addr(self) -> Result<SocketAddress, RuleError> {
        endpoint_of(self.target_addr, self.target_port, RuleError::InvalidTargetAddress)
    }

    /// What is wrong with the rule, if anything.
    pub open spec fn error(self) -> Option<RuleError> {
        endpoints_error(self.bind_addr, self.target_addr)
    }
}

/// A rule without an error has both its endpoints: each is the address
/// that its text writes, at the port that the rule gives.
pub proof fn lemma_valid_tcp_rule_has_endpoints(rule: TcpRuleView)
    requires
        rule.error() is None,
    ensures
        rule.bind_socket_addr() == Ok::<SocketAddress, RuleError>(
            SocketAddress::of(ip_of_text(rule.bind_addr).unwrap(), rule.bind_port),
        ),
        rule.target_socket_addr() == Ok::<SocketAddress, RuleError>(
            SocketAddress::of(ip_of_text(rule.target_addr).unwrap(), rule.target_port),
        ),
        rule.bind_socket_addr().unwrap().spec_port() == rule.bind_port,
        rule.target_socket_addr().unwrap().spec_port() == rule.target_port,
{
}

/// A rule without an error has both its endpoints: each is the address
/// that its text writes, at the port that the rule gives.
pub proof fn lemma_valid_udp_rule_has_endpoints(rule: UdpRuleView)
    requires
        rule.error() is None,
    ensures
        rule.bind_socket_addr() == Ok::<SocketAddress, RuleError>(
            SocketAddress::of(ip_of_text(rule.bind_addr).unwrap(), rule.bind_port),
        ),
        rule.target_socket_addr() == Ok::<SocketAddress, RuleError>(
            SocketAddress::of(ip_of_text(rule.target_addr).unwrap(), rule.target_port),
        ),
        rule.bind_socket_addr().unwrap().spec_port() == rule.bind_port,
        rule.target_socket_addr().unwrap().spec_port() == rule.target_port,
{
}

/// A rule with an error lacks the endpoint that the error names, so that
/// nothing can be bound or dialled for it.
pub proof fn lemma_invalid_tcp_rule_has_no_endpoint(rule: TcpRuleView)
    requires
        rule.error() is Some,
    ensures
        rule.error() == Some(RuleError::InvalidBindAddress) <==> rule.bind_socket_addr() is Err,
        rule.error() == Some(RuleError::InvalidTargetAddress) ==> rule.target_socket_addr() is Err,
{
}

/// A rule with an error lacks the endpoint that the error names, so that
/// nothing can be bound or sent to for it.
pub proof fn lemma_invalid_udp_rule_has_no_endpoint(rule: UdpRuleView)
    requires
        rule.error() is Some,
    ensures
        rule.error() == Some(RuleError::InvalidBindAddress) <==> rule.bind_socket_addr() is Err,
        rule.error() == Some(RuleError::InvalidTargetAddress) ==> rule.target_socket_addr() is Err,
{
}

/// The first error in a list of findings, one finding for each rule.
pub open spec fn first_error(findings: Seq<Option<RuleError>>) -> Option<RuleError>
    decreases findings.len(),
{
    if findings.len() == 0 {
        None
    } else {
        match first_error(findings.drop_last()) {
            Some(e) => Some(e),
            None => findings.last(),
        }
    }
}

/// What is wrong with each rule of an optional list of TCP rules, in order.
pub open spec fn tcp_findings(rules: Option<Seq<TcpRuleView>>) -> Seq<Option<RuleError>> {
    match rules {
        Some(r) => Seq::new(r.len(), |i: int| r[i].error()),
        None => Seq::empty(),
    }
}

/// What is wrong with each rule of an optional list of UDP rules, in order.
pub open spec fn udp_findings(rules: Option<Seq<UdpRuleView>>) -> Seq<Option<RuleError>> {
    match rules {
        Some(r) => Seq::new(r.len(), |i: int| r[i].error()),
        None => Seq::empty(),
    }
}

impl ConfigView {
    /// What is wrong with each rule, the TCP rules before the UDP rules.
    pub open spec fn findings(self) -> Seq<Option<RuleError>> {
        tcp_findings(self.tcp) + udp_findings(self.udp)
    }

    /// What is wrong with the configuration: the error of its first rule
    /// that has one.
    pub open spec fn error(self) -> Option<RuleError> {
        first_error(self.findings())
    }
}

/// The result that reports an optional error.
pub open spec fn as_result(error: Option<RuleError>) -> Result<(), RuleError> {
    match error {
        Some(e) => Err(e),
        None => Ok(()),
    }
}

fn parse_endpoint(text: &String, port: u16, error: RuleError) -> (r: Result<
    SocketAddress,
    RuleError,
>)
    ensures
        r == endpoint_of(text@, port, error),
{
    match parse_ip(text.as_str()) {
        Some(ip) => Ok(SocketAddress::new(ip, port)),
        None => Err(error),
    }
}

fn parse_endpoints(
    bind_addr: &String,
    bind_port: u16,
    target_addr: &String,
    target_port: u16,
) -> (r: Result<(SocketAddress, SocketAddress), RuleError>)
    ensures
        r == endpoints_of(bind_addr@, bind_port, target_addr@, target_port),
{
    let bind = match parse_endpoint(bind_addr, bind_port, RuleError::InvalidBindAddress) {
        Ok(addr) => addr,
        Err(e) => {
            return Err(e);
        },
    };
    match parse_endpoint(target_addr, target_port, RuleError::InvalidTargetAddress) {
        Ok(target) => Ok((bind, target)),
        Err(e) => Err(e),
    }
}

fn check_endpoints(bind_addr: &String, target_addr: &String) -> (r: Result<(), RuleError>)
    ensures
        r == as_result(endpoints_error(bind_addr@, target_addr@)),
{
    if parse_ip(bind_addr.as_str()).is_none() {
        return Err(RuleError::InvalidBindAddress);
    }
    if parse_ip(target_addr.as_str()).is_none() {
        return Err(RuleError::InvalidTargetAddress);
    }
    Ok(())
}

impl TcpRule {
    /// Both endpoints of the rule, the local one first: what a forwarder
    /// needs before it opens any socket. Where an address is no internet
    /// address, the error of the rule, and no endpoint at all.
    pub fn endpoints(&self) -> (r: Result<(SocketAddress, SocketAddress), RuleError>)
        ensures
            r == self@.endpoints(),
            r is Ok <==> self@.error() is None,
            r matches Err(e) ==> self@.error() == Some(e),
    {
        parse_endpoints(&self.bind_addr, self.bind_port, &self.target_addr, self.target_port)
    }

    /// The local endpoint that the rule binds, where its bind address is
    /// an internet address.
    pub fn bind_socket_addr(&self) -> (r: Result<SocketAddress, RuleError>)
        ensures
            r == self@.bind_socket_addr(),
    {
        parse_endpoint(&self.bind_addr, self.bind_port, RuleError::InvalidBindAddress)
    }

    /// The remote endpoint that the rule forwards to, where its target
    /// address is an internet address.
    pub fn target_socket_addr(&self) -> (r: Result<SocketAddress, RuleError>)
        ensures
            r == self@.target_socket_addr(),
    {
        parse_endpoint(&self.target_addr, self.target_port, RuleError::InvalidTargetAddress)
    }

    /// Accepts the rule where both its addresses are internet addresses.
    pub fn validate(&self) -> (r: Result<(), RuleError>)
        ensures
            r == as_result(self@.error()),
    {
        check_endpoints(&self.bind_addr, &self.target_addr)
    }
}

impl UdpRule {
    /// Both endpoints of the rule, the local one first: what a forwarder
    /// needs before it opens any socket. Where an address is no internet
    /// address, the error of the rule, and no endpoint at all.
    pub fn endpoints(&self) -> (r: Result<(SocketAddress, SocketAddress), RuleError>)
        ensures
            r == self@.endpoints(),
            r is Ok <==> self@.error() is None,
            r matches Err(e) ==> self@.error() == Some(e),
    {
        parse_endpoints(&self.bind_addr, self.bind_port, &self.target_addr, self.target_port)
    }

    /// The local endpoint that the rule binds, where its bind address is
    /// an internet address.
    pub fn bind_socket_addr(&self) -> (r: Result<SocketAddress, RuleError>)
        ensures
            r == self@.bind_socket_addr(),
    {
        parse_endpoint(&self.bind_addr, self.bind_port, RuleError::InvalidBindAddress)
    }

    /// The remote endpoint that the rule forwards to, where its target
    /// address is an internet address.
    pub fn target_socket_addr(&self) -> (r: Result<SocketAddress, RuleError>)
        ensures
            r == self@.target_socket_addr(),
    {
        parse_endpoint(&self.target_addr, self.target_port, RuleError::InvalidTargetAddress)
    }

    /// Accepts the rule where both its addresses are internet addresses.
    pub fn validate(&self) -> (r: Result<(), RuleError>)
        ensures
            r == as_result(self@.error()),
    {
        check_endpoints(&self.bind_addr, &self.target_addr)
    }
}

/// An error among the first `n` findings is the error of the whole list.
proof fn lemma_first_error_stays(findings: Seq<Option<RuleError>>, n: int)
    requires
        0 <= n <= findings.len(),
        first_error(findings.take(n)) is Some,
    ensures
        first_error(findings) == first_error(findings.take(n)),
    decreases findings.len() - n,
{
    if n == findings.len() {
        assert(findings.take(n) =~= findings);
    } else {
        assert(findings.drop_last().take(n) =~= findings.take(n));
        lemma_first_error_stays(findings.drop_last(), n);
    }
}

/// A list of findings has no first error exactly where it has no error at
/// all.
pub proof fn lemma_first_error_none(findings: Seq<Option<RuleError>>)
    ensures
        first_error(findings) is None <==> forall|i: int|
            0 <= i < findings.len() ==> #[trigger] findings[i] is None,
    decreases findings.len(),
{
    if findings.len() > 0 {
        let front = findings.drop_last();
        lemma_first_error_none(front);
        if first_error(findings) is None {
            assert forall|i: int| 0 <= i < findings.len() implies #[trigger] findings[i]
                is None by {
                if i < front.len() {
                    assert(front[i] == findings[i]);
                }
            }
        } else if first_error(front) is Some {
            let j = choose|j: int| 0 <= j < front.len() && #[trigger] front[j] is Some;
            assert(findings[j] == front[j]);
        }
    }
}

/// The first error of two lists of findings, one after the other, is that
/// of the first list, or else that of the second.
proof fn lemma_first_error_concat(
    front: Seq<Option<RuleError>>,
    back: Seq<Option<RuleError>>,
)
    ensures
        first_error(front + back) == (match first_error(front) {
            Some(e) => Some(e),
            None => first_error(back),
        }),
    decreases back.len(),
{
    if back.len() == 0 {
        assert(front + back =~= front);
    } else {
        assert((front + back).drop_last() =~= front + back.drop_last());
        lemma_first_error_concat(front, back.drop_last());
    }
}

/// A configuration has no error exactly where none of its rules has one:
/// every address of every rule is then an internet address.
pub proof fn lemma_config_valid(config: ConfigView)
    ensures
        config.error() is None <==> (forall|i: int|
            0 <= i < tcp_findings(config.tcp).len() ==> #[trigger] tcp_findings(config.tcp)[i]
                is None) && (forall|i: int|
            0 <= i < udp_findings(config.udp).len() ==> #[trigger] udp_findings(config.udp)[i]
                is None),
{
    lemma_first_error_concat(tcp_findings(config.tcp), udp_findings(config.udp));
    lemma_first_error_none(tcp_findings(config.tcp));
    lemma_first_error_none(udp_findings(config.udp));
}

/// The error of the first TCP rule that has one.
fn first_tcp_error(rules: &Vec<TcpRule>) -> (r: Option<RuleError>)
    ensures
        r == first_error(tcp_findings(Some(tcp_rule_views(rules@)))),
{
    let ghost findings = tcp_findings(Some(tcp_rule_views(rules@)));
    let mut i: usize = 0;
    while i < rules.len()
        invariant
            i <= rules.len(),
            findings == tcp_findings(Some(tcp_rule_views(rules@))),
            first_error(findings.take(i as int)) is None,
        decreases rules.len() - i,
    {
        let checked = rules[i].validate();
        proof {
            let next = findings.take(i as int + 1);
            assert(next.drop_last() =~= findings.take(i as int));
            assert(next.last() == rules@[i as int]@.error());
        }
        match checked {
            Err(e) => {
                proof {
                    lemma_first_error_stays(findings, i as int + 1);
                }
                return Some(e);
            },
            Ok(_) => {},
        }
        i = i + 1;
    }
    assert(findings.take(i as int) =~= findings);
    None
}

/// The error of the first UDP rule that has one.
fn first_udp_error(rules: &Vec<UdpRule>) -> (r: Option<RuleError>)
    ensures
        r == first_error(udp_findings(Some(udp_rule_views(rules@)))),
{
    let ghost findings = udp_findings(Some(udp_rule_views(rules@)));
    let mut i: usize = 0;
    while i < rules.len()
        invariant
            i <= rules.len(),
            findings == udp_findings(Some(udp_rule_views(rules@))),
            first_error(findings.take(i as int)) is None,
        decreases rules.len() - i,
    {
        let checked = rules[i].validate();
        proof {
            let next = findings.take(i as int + 1);
            assert(next.drop_last() =~= findings.take(i as int));
            assert(next.last() == rules@[i as int]@.error());
        }
        match checked {
            Err(e) => {
                proof {
                    lemma_first_error_stays(findings, i as int + 1);
                }
                return Some(e);
            },
            Ok(_) => {},
        }
        i = i + 1;
    }
    assert(findings.take(i as int) =~= findings);
    None
}

/// The verdict on a rule is what is wrong with that rule alone: whatever
/// the other rules are, a rule without an error has the verdict `None`.
pub proof fn lemma_findings_are_per_rule(config: ConfigView)
    ensures
        config.findings().len() == tcp_findings(config.tcp).len() + udp_findings(
            config.udp,
        ).len(),
        config.tcp matches Some(rules) ==> forall|i: int|
            0 <= i < rules.len() ==> config.findings()[i] == (#[trigger] rules[i]).error(),
        config.udp matches Some(rules) ==> forall|j: int|
            0 <= j < rules.len() ==> config.findings()[tcp_findings(config.tcp).len() + j] == (
            #[trigger] rules[j]).error(),
{
}

/// The verdict that a rule's check amounts to.
fn verdict(checked: Result<(), RuleError>) -> (r: Option<RuleError>)
    ensures
        r is None <==> checked is Ok,
        r matches Some(e) ==> checked == Err::<(), RuleError>(e),
{
    match checked {
        Ok(_) => None,
        Err(e) => Some(e),
    }
}

/// What is wrong with each rule of a list of TCP rules, in order.
fn tcp_rule_findings(rules: &Vec<TcpRule>) -> (r: Vec<Option<RuleError>>)
    ensures
        r@ == tcp_findings(Some(tcp_rule_views(rules@))),
{
    let ghost findings = tcp_findings(Some(tcp_rule_views(rules@)));
    let mut out: Vec<Option<RuleError>> = Vec::new();
    let mut i: usize = 0;
    while i < rules.len()
        invariant
            i <= rules.len(),
            findings == tcp_findings(Some(tcp_rule_views(rules@))),
            out@ == findings.take(i as int),
        decreases rules.len() - i,
    {
        let found = verdict(rules[i].validate());
        assert(findings[i as int] == rules@[i as int]@.error());
        out.push(found);
        assert(out@ =~= findings.take(i as int + 1));
        i = i + 1;
    }
    assert(findings.take(i as int) =~= findings);
    out
}

/// What is wrong with each rule of a list of UDP rules, in order.
fn udp_rule_findings(rules: &Vec<UdpRule>) -> (r: Vec<Option<RuleError>>)
    ensures
        r@ == udp_findings(Some(udp_rule_views(rules@))),
{
    let ghost findings = udp_findings(Some(udp_rule_views(rules@)));
    let mut out: Vec<Option<RuleError>> = Vec::new();
    let mut i: usize = 0;
    while i < rules.len()
        invariant
            i <= rules.len(),
            findings == udp_findings(Some(udp_rule_views(rules@))),
            out@ == findings.take(i as int),
        decreases rules.len() - i,
    {
        let found = verdict(rules[i].validate());
        assert(findings[i as int] == rules@[i as int]@.error());
        out.push(found);
        assert(out@ =~= findings.take(i as int + 1));
        i = i + 1;
    }
    assert(findings.take(i as int) =~= findings);
    out
}

impl Config {
    /// The verdict on each rule by itself, the TCP rules before the UDP
    /// rules, each in the order of its list: `None` for a rule that can be
    /// started, else what is wrong with it. A rule with an error keeps no
    /// other rule from being started.
    pub fn findings(&self) -> (r: Vec<Option<RuleError>>)
        ensures
            r@ == self@.findings(),
    {
        let mut all = match &self.tcp {
            Some(rules) => tcp_rule_findings(rules),
            None => Vec::new(),
        };
        let mut udp = match &self.udp {
            Some(rules) => udp_rule_findings(rules),
            None => Vec::new(),
        };
        all.append(&mut udp);
        assert(all@ =~= self@.findings());
        all
    }
}

impl Config {
    /// Accepts the configuration where every rule is accepted; else
    /// reports the error of the first rule that has one, the TCP rules
    /// before the UDP rules.
    pub fn validate(&self) -> (r: Result<(), RuleError>)
        ensures
            r == as_result(self@.error()),
    {
        proof {
            lemma_first_error_concat(tcp_findings(self@.tcp), udp_findings(self@.udp));
        }
        let tcp_error = match &self.tcp {
            Some(rules) => first_tcp_error(rules),
            None => None,
        };
        match tcp_error {
            Some(e) => Err(e),
            None => {
                let udp_error = match &self.udp {
                    Some(rules) => first_udp_error(rules),
                    None => None,
                };
                match udp_error {
                    Some(e) => Err(e),
                    None => Ok(()),
                }
            },
        }
    }
}

} // verus!
