//! Results of the network probes, and what is worked out from the answers of
//! the network: which ports are open, which addresses a name has, how a series
//! of probes went.

use crate::error::{RtoolsError, RtoolsResult};
use vstd::prelude::*;
use vstd::string::StringExecFns;

verus! {

/// How one attempt to reach a host went.
#[derive(Debug)]
pub struct ConnectivityResult {
    pub host: String,
    pub port: Option<u16>,
    pub is_reachable: bool,
    pub response_time_ms: Option<u128>,
    pub error_message: Option<String>,
    pub ip_addresses: Vec<String>,
}

impl ConnectivityResult {
    /// The result before anything was tried: not reachable, nothing known.
    pub fn new(host: String, port: Option<u16>) -> (result: ConnectivityResult)
        ensures
            result.host@ == host@,
            result.port == port,
            !result.is_reachable,
            result.response_time_ms is None,
            result.error_message is None,
            result.ip_addresses@.len() == 0,
    {
        ConnectivityResult {
            host,
            port,
            is_reachable: false,
            response_time_ms: None,
            error_message: None,
            ip_addresses: Vec::new(),
        }
    }
}

/// The model of a [`ConnectivityResult`].
pub struct Probe {
    pub host: Seq<char>,
    pub port: Option<u16>,
    pub is_reachable: bool,
    pub response_time_ms: Option<u128>,
    pub error_message: Option<Seq<char>>,
    pub ip_addresses: Seq<Seq<char>>,
}

impl View for ConnectivityResult {
    type V = Probe;

    open spec fn view(&self) -> Probe {
        Probe {
            host: self.host@,
            port: self.port,
            is_reachable: self.is_reachable,
            response_time_ms: self.response_time_ms,
            error_message: match self.error_message {
                Some(text) => Some(text@),
                None => None,
            },
            ip_addresses: texts(self.ip_addresses@),
        }
    }
}

/// How one attempt to connect to an address ended.
#[derive(Debug)]
pub enum Attempt {
    /// Connected, after so many milliseconds since the probe began.
    Connected(u128),
    /// Failed, for the reason given.
    Failed(String),
    TimedOut,
}

/// The model of an [`Attempt`].
pub enum AttemptView {
    Connected(u128),
    Failed(Seq<char>),
    TimedOut,
}

impl View for Attempt {
    type V = AttemptView;

    open spec fn view(&self) -> AttemptView {
        match self {
            Attempt::Connected(ms) => AttemptView::Connected(*ms),
            Attempt::Failed(reason) => AttemptView::Failed(reason@),
            Attempt::TimedOut => AttemptView::TimedOut,
        }
    }
}

impl Probe {
    /// The probe after the attempt on the address `ip`. The address is noted.
    /// A connection makes the host reachable and sets the response time; a
    /// failure or a timeout leaves a message.
    pub open spec fn after_attempt(self, ip: Seq<char>, attempt: AttemptView) -> Probe {
        let noted = Probe { ip_addresses: self.ip_addresses.push(ip), ..self };
        match attempt {
            AttemptView::Connected(ms) => Probe {
                is_reachable: true,
                response_time_ms: Some(ms),
                ..noted
            },
            AttemptView::Failed(reason) => Probe {
                error_message: Some("连接失败: "@ + reason),
                ..noted
            },
            AttemptView::TimedOut => Probe { error_message: Some("连接超时"@), ..noted },
        }
    }

    /// The probe after the name could not be resolved, for the reason given.
    pub open spec fn after_failed_lookup(self, reason: Seq<char>) -> Probe {
        Probe { error_message: Some("DNS解析失败: "@ + reason), ..self }
    }
}

impl ConnectivityResult {
    /// Takes note that the name of the host could not be resolved.
    pub fn lookup_failed(&mut self, reason: &str)
        ensures
            final(self)@ == old(self)@.after_failed_lookup(reason@),
    {
        let mut message = String::from_str("DNS解析失败: ");
        message.append(reason);
        self.error_message = Some(message);
    }

    /// Takes note of an attempt to connect to the address `ip`. The result
    /// says whether the probe is over: it is once a connection was made.
    pub fn record_attempt(&mut self, ip: String, attempt: Attempt) -> (done: bool)
        ensures
            final(self)@ == old(self)@.after_attempt(ip@, attempt@),
            done == (attempt@ is Connected),
    {
        assert(texts(self.ip_addresses@.push(ip)) == texts(self.ip_addresses@).push(ip@));
        self.ip_addresses.push(ip);
        match attempt {
            Attempt::Connected(ms) => {
                self.is_reachable = true;
                self.response_time_ms = Some(ms);
                true
            },
            Attempt::Failed(reason) => {
                let mut message = String::from_str("连接失败: ");
                message.append(reason.as_str());
                self.error_message = Some(message);
                false
            },
            Attempt::TimedOut => {
                self.error_message = Some(String::from_str("连接超时"));
                false
            },
        }
    }
}

/// Which ports of a host were found open and which closed.
#[derive(Debug)]
pub struct PortScanResult {
    pub host: String,
    pub open_ports: Vec<u16>,
    pub closed_ports: Vec<u16>,
    pub scan_time_ms: u128,
    pub total_ports: usize,
}

/// The ports from `start` on whose answer in `answers` is `open`, in rising
/// order. `answers[i]` is the answer of port `start + i`.
pub open spec fn ports_answering(start: int, answers: Seq<bool>, open: bool) -> Seq<u16>
    decreases answers.len(),
{
    if answers.len() == 0 {
        Seq::empty()
    } else if answers.last() == open {
        ports_answering(start, answers.drop_last(), open).push(
            (start + answers.len() - 1) as u16,
        )
    } else {
        ports_answering(start, answers.drop_last(), open)
    }
}

impl PortScanResult {
    /// The result before any port was tried.
    pub fn new(host: String) -> (result: PortScanResult)
        ensures
            result.host@ == host@,
            result.open_ports@.len() == 0,
            result.closed_ports@.len() == 0,
            result.scan_time_ms == 0,
            result.total_ports == 0,
    {
        PortScanResult {
            host,
            open_ports: Vec::new(),
            closed_ports: Vec::new(),
            scan_time_ms: 0,
            total_ports: 0,
        }
    }

    /// The result of a scan of the ports from `start_port` on: `reachable[i]`
    /// says whether port `start_port + i` answered.
    pub fn from_answers(
        host: String,
        start_port: u16,
        reachable: &Vec<bool>,
        scan_time_ms: u128,
    ) -> (result: PortScanResult)
        requires
            start_port + reachable.len() <= 65536,
        ensures
            result.host@ == host@,
            result.total_ports == reachable.len(),
            result.scan_time_ms == scan_time_ms,
            result.open_ports@ == ports_answering(start_port as int, reachable@, true),
            result.closed_ports@ == ports_answering(start_port as int, reachable@, false),
    {
        let mut result = PortScanResult::new(host);
        result.total_ports = reachable.len();
        result.scan_time_ms = scan_time_ms;
        let mut open_ports: Vec<u16> = Vec::new();
        let mut closed_ports: Vec<u16> = Vec::new();
        let mut i: usize = 0;
        while i < reachable.len()
            invariant
                i <= reachable.len(),
                start_port + reachable.len() <= 65536,
                open_ports@ == ports_answering(start_port as int, reachable@.take(i as int), true),
                closed_ports@ == ports_answering(
                    start_port as int,
                    reachable@.take(i as int),
                    false,
                ),
            decreases reachable.len() - i,
        {
            proof {
                assert(reachable@.take(i + 1).drop_last() == reachable@.take(i as int));
                assert(reachable@.take(i + 1).last() == reachable@[i as int]);
            }
            let port: u16 = (start_port as usize + i) as u16;
            if reachable[i] {
                open_ports.push(port);
            } else {
                closed_ports.push(port);
            }
            i += 1;
        }
        assert(reachable@.take(i as int) == reachable@);
        result.open_ports = open_ports;
        result.closed_ports = closed_ports;
        result
    }
}

/// The number of ports from `start_port` to `end_port`, both counted.
pub fn port_count(start_port: u16, end_port: u16) -> (n: usize)
    requires
        start_port <= end_port,
    ensures
        n == end_port - start_port + 1,
{
    (end_port - start_port) as usize + 1
}

/// Every port of a scan is either open or closed.
pub proof fn lemma_ports_answering(start: int, answers: Seq<bool>)
    ensures
        ports_answering(start, answers, true).len() + ports_answering(start, answers, false).len()
            == answers.len(),
    decreases answers.len(),
{
    if answers.len() > 0 {
        lemma_ports_answering(start, answers.drop_last());
    }
}

/// The addresses that a name stands for.
#[derive(Debug)]
pub struct DnsResult {
    pub domain: String,
    pub ip_addresses: Vec<String>,
    pub query_time_ms: u128,
    pub record_type: String,
}

/// The texts of a list of strings.
pub open spec fn texts(list: Seq<String>) -> Seq<Seq<char>> {
    list.map_values(|s: String| s@)
}

/// `known` with `address` behind it, unless it is there already.
pub open spec fn with_address(known: Seq<Seq<char>>, address: Seq<char>) -> Seq<Seq<char>> {
    if known.contains(address) {
        known
    } else {
        known.push(address)
    }
}

impl DnsResult {
    /// The result before any answer.
    pub fn new(domain: String, record_type: String) -> (result: DnsResult)
        ensures
            result.domain@ == domain@,
            result.record_type@ == record_type@,
            result.ip_addresses@.len() == 0,
            result.query_time_ms == 0,
    {
        DnsResult { domain, ip_addresses: Vec::new(), query_time_ms: 0, record_type }
    }

    /// Notes `address` as one of the name, unless it is noted already.
    pub fn add_address(&mut self, address: String)
        ensures
            texts(final(self).ip_addresses@) == with_address(
                texts(old(self).ip_addresses@),
                address@,
            ),
            final(self).domain == old(self).domain,
            final(self).record_type == old(self).record_type,
            final(self).query_time_ms == old(self).query_time_ms,
    {
        let ghost known = texts(self.ip_addresses@);
        let mut i: usize = 0;
        while i < self.ip_addresses.len()
            invariant
                i <= self.ip_addresses@.len(),
                known == texts(self.ip_addresses@),
                *self == *old(self),
                forall|k: int| 0 <= k < i ==> known[k] != address@,
            decreases self.ip_addresses@.len() - i,
        {
            if self.ip_addresses[i] == address {
                assert(known[i as int] == address@);
                return;
            }
            i += 1;
        }
        assert(!known.contains(address@));
        assert(texts(self.ip_addresses@.push(address)) == known.push(address@));
        self.ip_addresses.push(address);
    }
}

impl DnsResult {
    /// Whether no address is known yet, so that the name is to be asked for
    /// once more.
    pub fn needs_more(&self) -> (b: bool)
        ensures
            b == (self.ip_addresses@.len() == 0),
    {
        self.ip_addresses.len() == 0
    }

    /// Ends the query after `elapsed_ms`. A query that found no address is an
    /// error that names the domain.
    pub fn finish(self, elapsed_ms: u128) -> (result: RtoolsResult<DnsResult>)
        ensures
            match result {
                Ok(found) => {
                    &&& self.ip_addresses@.len() > 0
                    &&& found.ip_addresses == self.ip_addresses
                    &&& found.domain == self.domain
                    &&& found.record_type == self.record_type
                    &&& found.query_time_ms == elapsed_ms
                },
                Err(RtoolsError::NetworkError(message)) => self.ip_addresses@.len() == 0
                    && message@ == "无法解析域名: "@ + self.domain@,
                Err(_) => false,
            },
    {
        if self.ip_addresses.len() == 0 {
            let mut message = String::from_str("无法解析域名: ");
            message.append(self.domain.as_str());
            return Err(RtoolsError::NetworkError(message));
        }
        let mut found = self;
        found.query_time_ms = elapsed_ms;
        Ok(found)
    }
}

/// How a series of probes went.
#[derive(Debug, Clone, Copy, PartialEq, Eq, Structural)]
pub struct PingSummary {
    pub sent: usize,
    pub received: usize,
    pub lost: usize,
    /// The mean response time of the probes that were answered.
    pub average_ms: Option<u128>,
}

/// The number of probes among `probes` that reached the host.
pub open spec fn reached(probes: Seq<Probe>) -> nat
    decreases probes.len(),
{
    if probes.len() == 0 {
        0
    } else if probes.last().is_reachable {
        reached(probes.drop_last()) + 1
    } else {
        reached(probes.drop_last())
    }
}

/// The response times of `probes`, added up.
pub open spec fn time_spent(probes: Seq<Probe>) -> nat
    decreases probes.len(),
{
    if probes.len() == 0 {
        0
    } else {
        time_spent(probes.drop_last()) + match probes.last().response_time_ms {
            Some(ms) => ms as nat,
            None => 0nat,
        }
    }
}

/// The models of a list of results.
pub open spec fn probes_of(results: Seq<ConnectivityResult>) -> Seq<Probe> {
    results.map_values(|r: ConnectivityResult| r@)
}

/// No more probes reach the host than there are, and the first `n` spend no
/// more time than all.
pub proof fn lemma_probes_prefix(probes: Seq<Probe>, n: int)
    requires
        0 <= n <= probes.len(),
    ensures
        reached(probes.take(n)) <= n,
        time_spent(probes.take(n)) <= time_spent(probes),
    decreases probes.len() - n,
{
    if n < probes.len() {
        lemma_probes_prefix(probes, n + 1);
        assert(probes.take(n + 1).drop_last() == probes.take(n));
    } else {
        assert(probes.take(n) == probes);
        lemma_reached_len(probes);
    }
    lemma_reached_len(probes.take(n));
}

/// No more probes reach the host than there are.
pub proof fn lemma_reached_len(probes: Seq<Probe>)
    ensures
        reached(probes) <= probes.len(),
    decreases probes.len(),
{
    if probes.len() > 0 {
        lemma_reached_len(probes.drop_last());
    }
}

/// Sums up a series of probes: how many were sent, answered and lost, and the
/// mean response time of those answered.
pub fn summarize(results: &Vec<ConnectivityResult>) -> (summary: PingSummary)
    requires
        time_spent(probes_of(results@)) <= u128::MAX,
    ensures
        summary.sent == results.len(),
        summary.received == reached(probes_of(results@)),
        summary.lost == summary.sent - summary.received,
        summary.average_ms == if summary.received > 0 {
            Some((time_spent(probes_of(results@)) / summary.received as nat) as u128)
        } else {
            None
        },
{
    let ghost probes = probes_of(results@);
    let mut received: usize = 0;
    let mut spent: u128 = 0;
    let mut k: usize = 0;
    while k < results.len()
        invariant
            k <= results.len(),
            probes == probes_of(results@),
            time_spent(probes) <= u128::MAX,
            received == reached(probes.take(k as int)),
            spent == time_spent(probes.take(k as int)),
        decreases results.len() - k,
    {
        proof {
            assert(probes.take(k + 1).drop_last() == probes.take(k as int));
            assert(probes.take(k + 1).last() == results@[k as int]@);
            lemma_probes_prefix(probes, k + 1);
            lemma_probes_prefix(probes, k as int);
        }
        if results[k].is_reachable {
            received = received + 1;
        }
        if let Some(ms) = results[k].response_time_ms {
            spent = spent + ms;
        }
        k += 1;
    }
    assert(probes.take(k as int) == probes);
    proof {
        lemma_reached_len(probes);
    }
    let average_ms: Option<u128> = if received > 0 {
        Some(spent / received as u128)
    } else {
        None
    };
    PingSummary { sent: results.len(), received, lost: results.len() - received, average_ms }
}

/// Whether a series of `count` probes pauses after probe `i`, counted from 0:
/// it does between two probes.
pub fn pauses_after(i: usize, count: usize) -> (b: bool)
    requires
        i < count,
    ensures
        b == (i + 1 < count),
{
    i < count - 1
}

/// The name of the service that usually listens on `port`.
pub open spec fn service_of(port: u16) -> Seq<char> {
    if port == 21 {
        "FTP"@
    } else if port == 22 {
        "SSH"@
    } else if port == 23 {
        "Telnet"@
    } else if port == 25 {
        "SMTP"@
    } else if port == 53 {
        "DNS"@
    } else if port == 80 {
        "HTTP"@
    } else if port == 110 {
        "POP3"@
    } else if port == 143 {
        "IMAP"@
    } else if port == 443 {
        "HTTPS"@
    } else if port == 993 {
        "IMAPS"@
    } else if port == 995 {
        "POP3S"@
    } else if port == 3306 {
        "MySQL"@
    } else if port == 5432 {
        "PostgreSQL"@
    } else if port == 6379 {
        "Redis"@
    } else if port == 8080 {
        "HTTP-Alt"@
    } else if port == 8443 {
        "HTTPS-Alt"@
    } else {
        "Unknown"@
    }
}

/// The name of the service that usually listens on `port`.
pub fn get_service_name(port: u16) -> (name: &'static str)
    ensures
        name@ == service_of(port),
{
    match port {
        21 => "FTP",
        22 => "SSH",
        23 => "Telnet",
        25 => "SMTP",
        53 => "DNS",
        80 => "HTTP",
        110 => "POP3",
        143 => "IMAP",
        443 => "HTTPS",
        993 => "IMAPS",
        995 => "POP3S",
        3306 => "MySQL",
        5432 => "PostgreSQL",
        6379 => "Redis",
        8080 => "HTTP-Alt",
        8443 => "HTTPS-Alt",
        _ => "Unknown",
    }
}

} // verus!
