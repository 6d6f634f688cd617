//! What is monitored: applications, endpoints, connections, counters, samples.

use crate::ip::IpAddr;
use crate::text::{chars_of, same, text_of, trim_chars, trimmed};
use vstd::prelude::*;

verus! {

/// Transport protocol of a flow or connection.
#[derive(Debug, Clone, Copy, PartialEq, Eq, Structural, Hash)]
pub enum Protocol {
    Tcp,
    Udp,
}

/// Direction of traffic relative to this host.
#[derive(Debug, Clone, Copy, PartialEq, Eq, Structural, Hash)]
pub enum Direction {
    Inbound,
    Outbound,
}

/// The kind of network adapter that a flow's local address is bound to.
#[derive(Debug, Clone, Copy, PartialEq, Eq, Structural, Hash, PartialOrd, Ord)]
pub enum AdapterKind {
    Ethernet,
    Wifi,
    Vpn,
    Loopback,
    Other,
}

/// Coarse state of a TCP connection. UDP is always active.
#[derive(Debug, Clone, Copy, PartialEq, Eq, Structural)]
pub enum ConnState {
    Listen,
    Active,
    Closing,
}

/// A remote endpoint that a flow talks to.
#[derive(Debug, Clone, Copy, PartialEq, Eq, Structural, Hash)]
pub struct Endpoint {
    pub addr: IpAddr,
    pub port: u16,
    pub protocol: Protocol,
}

/// Cumulative byte counters.
#[derive(Debug, Clone, Copy, PartialEq, Eq, Structural)]
pub struct ByteCounts {
    pub sent: u64,
    pub recv: u64,
}

/// The sum of two counters, which stops at the largest value.
pub open spec fn capped_sum(a: nat, b: nat) -> nat {
    if a + b > u64::MAX {
        u64::MAX as nat
    } else {
        a + b
    }
}

impl Default for ByteCounts {
    fn default() -> (r: ByteCounts)
        ensures
            r.sent == 0,
            r.recv == 0,
    {
        ByteCounts { sent: 0, recv: 0 }
    }
}

impl ByteCounts {
    /// Adds `other` to both counters. Neither wraps around.
    pub fn add(&mut self, other: ByteCounts)
        ensures
            final(self).sent == capped_sum(old(self).sent as nat, other.sent as nat),
            final(self).recv == capped_sum(old(self).recv as nat, other.recv as nat),
    {
        self.sent = self.sent.saturating_add(other.sent);
        self.recv = self.recv.saturating_add(other.recv);
    }

    /// Bytes in both directions.
    pub fn total(&self) -> (t: u64)
        ensures
            t == capped_sum(self.sent as nat, self.recv as nat),
    {
        self.sent.saturating_add(self.recv)
    }
}

impl AdapterKind {
    /// The name of a kind.
    pub open spec fn name(self) -> Seq<char> {
        match self {
            AdapterKind::Ethernet => "ethernet"@,
            AdapterKind::Wifi => "wifi"@,
            AdapterKind::Vpn => "vpn"@,
            AdapterKind::Loopback => "loopback"@,
            AdapterKind::Other => "other"@,
        }
    }

    /// The name under which a kind is stored and sent.
    pub fn as_str(self) -> (s: &'static str)
        ensures
            s@ == self.name(),
    {
        match self {
            AdapterKind::Ethernet => "ethernet",
            AdapterKind::Wifi => "wifi",
            AdapterKind::Vpn => "vpn",
            AdapterKind::Loopback => "loopback",
            AdapterKind::Other => "other",
        }
    }

    /// The kind of a name.
    pub fn parse(s: &str) -> (k: Option<AdapterKind>)
        ensures
            match k {
                Some(k) => s@ == k.name(),
                None => forall|k: AdapterKind| s@ != #[trigger] k.name(),
            },
    {
        proof {
            lemma_adapter_names();
        }
        if same(s, "ethernet") {
            Some(AdapterKind::Ethernet)
        } else if same(s, "wifi") {
            Some(AdapterKind::Wifi)
        } else if same(s, "vpn") {
            Some(AdapterKind::Vpn)
        } else if same(s, "loopback") {
            Some(AdapterKind::Loopback)
        } else if same(s, "other") {
            Some(AdapterKind::Other)
        } else {
            None
        }
    }
}

proof fn lemma_adapter_names()
    ensures
        forall|a: AdapterKind, b: AdapterKind| #[trigger] a.name() == #[trigger] b.name() ==> a == b,
{
    reveal_strlit("ethernet");
    reveal_strlit("wifi");
    reveal_strlit("vpn");
    reveal_strlit("loopback");
    reveal_strlit("other");
    assert("ethernet"@[0] == 'e' && "wifi"@[0] == 'w' && "vpn"@[0] == 'v' && "loopback"@[0] == 'l'
        && "other"@[0] == 'o');
}

/// No two adapter kinds share a name, so a kind is found again by its name.
pub proof fn law_adapter_names_identify(a: AdapterKind, b: AdapterKind)
    ensures
        a.name() == b.name() <==> a == b,
{
    lemma_adapter_names();
}

/// Stable identity of an application image.
#[derive(Debug, Hash)]
pub struct AppId(pub String);

impl View for AppId {
    type V = Seq<char>;

    open spec fn view(&self) -> Seq<char> {
        self.0@
    }
}

impl Clone for AppId {
    fn clone(&self) -> (r: AppId)
        ensures
            r == *self,
    {
        AppId(self.0.clone())
    }
}

impl PartialEq for AppId {
    fn eq(&self, other: &AppId) -> (r: bool) {
        self.0 == other.0
    }
}

impl vstd::std_specs::cmp::PartialEqSpecImpl for AppId {
    open spec fn obeys_eq_spec() -> bool {
        true
    }

    open spec fn eq_spec(&self, other: &AppId) -> bool {
        self@ == other@
    }
}

impl Eq for AppId {

}

impl crate::assoc::Key for AppId {
    type Id = Seq<char>;

    open spec fn id(&self) -> Seq<char> {
        self@
    }

    fn same(&self, other: &Self) -> (r: bool) {
        self.0 == other.0
    }
}

/// `str::to_lowercase`'s result.
pub uninterp spec fn lowercase(s: Seq<char>) -> Seq<char>;

/// `str::to_lowercase` gives the lower-case form of its argument, which depends
/// on the argument alone. What that form is, is Unicode's to say.
pub assume_specification[ str::to_lowercase ](s: &str) -> (r: String)
    ensures
        r@ == lowercase(s@),
;

/// Where the last component of a path starts, with both kinds of slashes.
pub open spec fn last_component(s: Seq<char>) -> nat
    decreases s.len(),
{
    if s.len() == 0 || s.last() == '\\' || s.last() == '/' {
        s.len()
    } else {
        last_component(s.drop_last())
    }
}

impl AppId {
    /// The identity of an image path on a host whose file names keep their case.
    pub fn from_path(path: &str) -> (id: AppId)
        ensures
            id@ == trimmed(path@),
    {
        let c = chars_of(path);
        AppId(text_of(trim_chars(c.as_slice())))
    }

    /// The identity of an image path on a host whose file names ignore case.
    pub fn from_caseless_path(path: &str) -> (id: AppId)
        ensures
            id@ == lowercase(trimmed(path@)),
    {
        let c = chars_of(path);
        let t = text_of(trim_chars(c.as_slice()));
        AppId(t.as_str().to_lowercase())
    }

    /// The identity's text.
    pub fn as_str(&self) -> (s: &str)
        ensures
            s@ == self@,
    {
        self.0.as_str()
    }

    /// What is shown of an identity: the text after the last slash, or all of it
    /// where nothing follows.
    pub open spec fn shown(&self) -> Seq<char> {
        let from = last_component(self@) as int;
        if from < self@.len() {
            self@.skip(from)
        } else {
            self@
        }
    }

    /// The last component of the path, for display.
    pub fn file_name(&self) -> (s: &str)
        ensures
            s@ == self.shown(),
    {
        let c = chars_of(self.0.as_str());
        let mut n: usize = c.len();
        assert(c@.take(n as int) =~= c@);
        while n > 0 && c[n - 1] != '\\' && c[n - 1] != '/'
            invariant
                n <= c@.len(),
                last_component(c@.take(n as int)) == last_component(c@),
            decreases n,
        {
            assert(c@.take(n as int).drop_last() =~= c@.take(n - 1));
            n -= 1;
        }
        if n < c.len() {
            let s = self.0.as_str().substring_char(n, c.len());
            assert(s@ =~= self@.skip(n as int));
            s
        } else {
            self.0.as_str()
        }
    }
}

/// One open connection of a process.
#[derive(Debug, Clone, PartialEq, Eq)]
pub struct Conn {
    pub remote: Endpoint,
    /// The host name that the process resolved the endpoint from, where known.
    pub host: Option<String>,
    pub local_port: u16,
    pub direction: Direction,
    pub state: ConnState,
}

/// One running process of an application.
#[derive(Debug, Clone, PartialEq, Eq)]
pub struct ProcSample {
    pub pid: u32,
    /// The service that the process hosts, where it hosts one.
    pub service: Option<String>,
    pub rate_sent: u64,
    pub rate_recv: u64,
    pub total: ByteCounts,
    pub online: bool,
    pub conns: Vec<Conn>,
}

/// One application in a sample: the sum over its processes, and the processes.
#[derive(Debug, Clone, PartialEq, Eq)]
pub struct AppSample {
    pub app: AppId,
    /// A friendly name, where one is known.
    pub name: Option<String>,
    /// Bytes per second over the sample's window.
    pub rate_sent: u64,
    pub rate_recv: u64,
    /// Counters since the session began.
    pub total: ByteCounts,
    /// Open connections over all processes.
    pub connections: u32,
    /// Whether a process is active now; false in the grace time after the last
    /// one ended.
    pub online: bool,
    pub processes: Vec<ProcSample>,
}

/// One adapter kind in a sample.
#[derive(Debug, Clone, Copy, PartialEq, Eq, Structural)]
pub struct AdapterSample {
    pub kind: AdapterKind,
    pub rate_sent: u64,
    pub rate_recv: u64,
    pub total: ByteCounts,
}

/// One sample: every application that is tracked, at one time.
#[derive(Debug, Clone, PartialEq, Eq)]
pub struct StatsTick {
    /// Milliseconds since the Unix epoch.
    pub at_ms: u64,
    pub total_rate_sent: u64,
    pub total_rate_recv: u64,
    pub apps: Vec<AppSample>,
    /// Traffic by adapter kind, for the kinds that were seen.
    pub adapters: Vec<AdapterSample>,
}

/// A live connection with the application that owns it.
#[derive(Debug, Clone, PartialEq, Eq)]
pub struct LiveConnection {
    pub app: AppId,
    pub local_port: u16,
    pub remote: Endpoint,
    pub direction: Direction,
    pub state: ConnState,
}

/// A sum that does not fit is the largest there is, and one that fits is exact.
pub proof fn law_sums_are_capped(a: u64, b: u64)
    ensures
        a + b <= u64::MAX ==> capped_sum(a as nat, b as nat) == a + b,
        a + b > u64::MAX ==> capped_sum(a as nat, b as nat) == u64::MAX,
{
}

/// A program is shown by what follows the last slash of its path, of either kind,
/// and by the whole path where nothing does.
pub proof fn law_programs_are_shown_by_their_file(id: AppId, folder: Seq<char>, file: Seq<char>)
    requires
        id@ == folder + file,
        folder.len() > 0 ==> folder.last() == '/' || folder.last() == '\\',
        !file.contains('/'),
        !file.contains('\\'),
    ensures
        id.shown() == (if file.len() > 0 {
            file
        } else {
            id@
        }),
{
    lemma_last_component(folder, file);
    assert(id@.skip(folder.len() as int) =~= file);
}

proof fn lemma_last_component(folder: Seq<char>, file: Seq<char>)
    requires
        folder.len() > 0 ==> folder.last() == '/' || folder.last() == '\\',
        !file.contains('/'),
        !file.contains('\\'),
    ensures
        last_component(folder + file) == folder.len(),
    decreases file.len(),
{
    let s = folder + file;
    if file.len() > 0 {
        let f = file.drop_last();
        assert(file.contains(file.last()));
        assert forall|c: char| f.contains(c) implies file.contains(c) by {
            let i = choose|i: int| 0 <= i < f.len() && f[i] == c;
            assert(file[i] == c);
        }
        assert(s.drop_last() =~= folder + f);
        lemma_last_component(folder, f);
    } else {
        assert(s =~= folder);
    }
}

} // verus!
