//! Guard against requests to hosts that are not public: loopback, private
//! ranges, link-local addresses and the cloud metadata endpoint.

use crate::strmap::StrSet;
use crate::text::{ascii_only, join2, join3, lower_ascii};
use crate::trusted::{lowercase, to_lower};
use vstd::prelude::*;

verus! {

/// Environment variable with the operator's extra blocklist: comma-separated
/// addresses and host names.
pub const EXTRA_BLOCKLIST_ENV: &'static str = "NETWORK_PLUGIN_EXTRA_BLOCKED_HOSTS";

/// An IP address as the number that its bytes write down, most significant
/// byte first.
#[derive(Debug, Clone, Copy, PartialEq, Eq, Structural)]
pub enum Ip {
    V4(u32),
    V6(u128),
}

impl Ip {
    /// The IPv4 address `a.b.c.d`.
    pub fn v4(a: u8, b: u8, c: u8, d: u8) -> (r: Ip)
        ensures
            r == Ip::V4((a * 0x100_0000 + b * 0x1_0000 + c * 0x100 + d) as u32),
    {
        Ip::V4(a as u32 * 0x100_0000 + b as u32 * 0x1_0000 + c as u32 * 0x100 + d as u32)
    }
}

/// Whether an address must never be reached: for IPv4 `127.0.0.0/8`,
/// `10.0.0.0/8`, `172.16.0.0/12`, `192.168.0.0/16`, `169.254.0.0/16`,
/// `224.0.0.0/4` and `255.255.255.255`; for IPv6 `::1`, `fc00::/7`,
/// `fe80::/10` and `ff00::/8`. An IPv4 address that an IPv6 one embeds is not
/// looked at.
pub open spec fn blocked_range(ip: Ip) -> bool {
    match ip {
        Ip::V4(n) => {
            ||| 0x7f00_0000 <= n <= 0x7fff_ffff
            ||| 0x0a00_0000 <= n <= 0x0aff_ffff
            ||| 0xac10_0000 <= n <= 0xac1f_ffff
            ||| 0xc0a8_0000 <= n <= 0xc0a8_ffff
            ||| 0xa9fe_0000 <= n <= 0xa9fe_ffff
            ||| 0xe000_0000 <= n <= 0xefff_ffff
            ||| n == 0xffff_ffff
        },
        Ip::V6(n) => {
            ||| n == 1
            ||| 0xfc00_0000_0000_0000_0000_0000_0000_0000u128 <= n
                <= 0xfdff_ffff_ffff_ffff_ffff_ffff_ffff_ffffu128
            ||| 0xfe80_0000_0000_0000_0000_0000_0000_0000u128 <= n
                <= 0xfebf_ffff_ffff_ffff_ffff_ffff_ffff_ffffu128
            ||| 0xff00_0000_0000_0000_0000_0000_0000_0000u128 <= n
        },
    }
}

/// By its four numbers, an IPv4 address is out of bounds where it is loopback,
/// private, link-local, multicast or the broadcast address, and nowhere else.
pub proof fn lemma_blocked_by_octets(a: u8, b: u8, c: u8, d: u8)
    ensures
        blocked_range(Ip::V4((a * 0x100_0000 + b * 0x1_0000 + c * 0x100 + d) as u32)) <==> {
            ||| a == 127
            ||| a == 10
            ||| a == 172 && 16 <= b <= 31
            ||| a == 192 && b == 168
            ||| a == 169 && b == 254
            ||| 224 <= a <= 239
            ||| a == 255 && b == 255 && c == 255 && d == 255
        },
{
}

/// By its first sixteen bits, an IPv6 address is out of bounds where it is unique
/// local, link-local or multicast, or else the loopback address, and nowhere else.
pub proof fn lemma_blocked_by_first_group(first: u16, rest: u128)
    requires
        rest < 0x1_0000_0000_0000_0000_0000_0000_0000u128,
    ensures
        blocked_range(
            Ip::V6((first * 0x1_0000_0000_0000_0000_0000_0000_0000u128 + rest) as u128),
        ) <==> {
            ||| 0xfc00 <= first <= 0xfdff
            ||| 0xfe80 <= first <= 0xfebf
            ||| 0xff00 <= first
            ||| first == 0 && rest == 1
        },
{
}

/// Decides whether `ip` must never be reached.
pub fn is_blocked_ip(ip: Ip) -> (r: bool)
    ensures
        r == blocked_range(ip),
{
    match ip {
        Ip::V4(n) => (0x7f00_0000 <= n && n <= 0x7fff_ffff) || (0x0a00_0000 <= n && n
            <= 0x0aff_ffff) || (0xac10_0000 <= n && n <= 0xac1f_ffff) || (0xc0a8_0000 <= n && n
            <= 0xc0a8_ffff) || (0xa9fe_0000 <= n && n <= 0xa9fe_ffff) || (0xe000_0000 <= n && n
            <= 0xefff_ffff) || n == 0xffff_ffff,
        Ip::V6(n) => n == 1 || (0xfc00_0000_0000_0000_0000_0000_0000_0000u128 <= n && n
            <= 0xfdff_ffff_ffff_ffff_ffff_ffff_ffff_ffffu128) || (
        0xfe80_0000_0000_0000_0000_0000_0000_0000u128 <= n && n
            <= 0xfebf_ffff_ffff_ffff_ffff_ffff_ffff_ffffu128)
            || 0xff00_0000_0000_0000_0000_0000_0000_0000u128 <= n,
    }
}

/// One entry of an address list, with the address it writes down if it does.
#[derive(Debug)]
pub struct HostEntry {
    pub text: String,
    pub ip: Option<Ip>,
}

/// Whether some entry writes down `ip`.
pub open spec fn names_ip(entries: Seq<HostEntry>, ip: Ip) -> bool {
    exists|i: int| 0 <= i < entries.len() && (#[trigger] entries[i]).ip == Some(ip)
}

/// Whether some entry is a host name that reads `host` in lower case.
pub open spec fn names_host(entries: Seq<HostEntry>, host: Seq<char>) -> bool {
    exists|i: int|
        0 <= i < entries.len() && (#[trigger] entries[i]).ip is None && lowercase(
            entries[i].text@,
        ) == host
}

/// Whether the ASCII names among the entries read in lower case as their
/// letters do.
pub open spec fn ascii_names_lowered(entries: Seq<HostEntry>) -> bool {
    forall|i: int|
        0 <= i < entries.len() && (#[trigger] entries[i]).ip is None && ascii_only(
            entries[i].text@,
        ) ==> lowercase(entries[i].text@) == lower_ascii(entries[i].text@)
}

/// A list of addresses and of host names, the names in lower case.
#[derive(Debug, PartialEq, Eq)]
pub struct HostList {
    ips: Vec<Ip>,
    hosts: StrSet,
}

impl HostList {
    /// The addresses on the list.
    pub closed spec fn ips(&self) -> Set<Ip> {
        self.ips@.to_set()
    }

    /// The host names on the list, in lower case.
    pub closed spec fn hosts(&self) -> Set<Seq<char>> {
        self.hosts@
    }

    /// The empty list.
    pub fn new() -> (r: HostList)
        ensures
            r.ips() == Set::<Ip>::empty(),
            r.hosts() == Set::<Seq<char>>::empty(),
    {
        let r = HostList { ips: Vec::new(), hosts: StrSet::new() };
        r
    }

    /// The list of the given entries: those that write down an address by
    /// their address, the others by their name in lower case.
    pub fn of(entries: &Vec<HostEntry>) -> (r: HostList)
        ensures
            forall|ip: Ip| r.ips().contains(ip) <==> names_ip(entries@, ip),
            forall|h: Seq<char>| r.hosts().contains(h) <==> names_host(entries@, h),
            ascii_names_lowered(entries@),
    {
        let mut ips: Vec<Ip> = Vec::new();
        let mut hosts = StrSet::new();
        let mut i: usize = 0;
        while i < entries.len()
            invariant
                i <= entries.len(),
                ascii_names_lowered(entries@.take(i as int)),
                forall|ip: Ip|
                    ips@.contains(ip) <==> exists|j: int|
                        0 <= j < i && (#[trigger] entries@[j]).ip == Some(ip),
                forall|h: Seq<char>|
                    hosts@.contains(h) <==> exists|j: int|
                        0 <= j < i && (#[trigger] entries@[j]).ip is None && lowercase(
                            entries@[j].text@,
                        ) == h,
            decreases entries.len() - i,
        {
            let ghost ips_before = ips@;
            let ghost hosts_before = hosts@;
            match entries[i].ip {
                Some(ip) => {
                    ips.push(ip);
                    assert forall|x: Ip| ips@.contains(x) <==> ips_before.contains(x) || x == ip by {
                        if ips_before.contains(x) {
                            let k = ips_before.index_of(x);
                            assert(ips@[k] == x);
                        }
                        assert(ips@[ips_before.len() as int] == ip);
                    }
                },
                None => {
                    hosts.insert(to_lower(entries[i].text.as_str()));
                },
            }
            assert forall|x: Ip|
                ips@.contains(x) <==> exists|j: int|
                    0 <= j < i + 1 && (#[trigger] entries@[j]).ip == Some(x) by {
                if entries@[i as int].ip == Some(x) {
                    assert(ips@.contains(x));
                }
                if ips_before.contains(x) {
                    let j = choose|j: int| 0 <= j < i && (#[trigger] entries@[j]).ip == Some(x);
                    assert(entries@[j].ip == Some(x));
                }
            }
            assert forall|h: Seq<char>|
                hosts@.contains(h) <==> exists|j: int|
                    0 <= j < i + 1 && (#[trigger] entries@[j]).ip is None && lowercase(
                        entries@[j].text@,
                    ) == h by {
                if entries@[i as int].ip is None && lowercase(entries@[i as int].text@) == h {
                    assert(hosts@.contains(h));
                }
                if hosts_before.contains(h) {
                    let j = choose|j: int|
                        0 <= j < i && (#[trigger] entries@[j]).ip is None && lowercase(
                            entries@[j].text@,
                        ) == h;
                    assert(entries@[j].ip is None);
                }
            }
            assert(ascii_names_lowered(entries@.take(i + 1))) by {
                let before = entries@.take(i as int);
                let after = entries@.take(i + 1);
                assert(forall|k: int| 0 <= k < i ==> #[trigger] after[k] == before[k]);
            }
            i += 1;
        }
        assert(entries@.take(entries@.len() as int) =~= entries@);
        let r = HostList { ips, hosts };
        assert forall|ip: Ip| r.ips().contains(ip) <==> names_ip(entries@, ip) by {
            assert(r.ips().contains(ip) <==> ips@.contains(ip));
        }
        r
    }

    /// Whether `ip` is on the list.
    pub fn has_ip(&self, ip: Ip) -> (r: bool)
        ensures
            r == self.ips().contains(ip),
    {
        let mut i: usize = 0;
        while i < self.ips.len()
            invariant
                i <= self.ips.len(),
                forall|j: int| 0 <= j < i ==> self.ips@[j] != ip,
            decreases self.ips.len() - i,
        {
            if self.ips[i] == ip {
                return true;
            }
            i += 1;
        }
        false
    }

    /// Whether the host name `lower`, already in lower case, is on the list.
    pub fn has_lower_host(&self, lower: &str) -> (r: bool)
        ensures
            r == self.hosts().contains(lower@),
    {
        self.hosts.contains(lower)
    }

    /// Whether `host`, in whatever case, is on the list.
    pub fn has_host(&self, host: &str) -> (r: bool)
        ensures
            r == self.hosts().contains(lowercase(host@)),
            ascii_only(host@) ==> lowercase(host@) == lower_ascii(host@),
    {
        self.has_lower_host(to_lower(host).as_str())
    }

    /// Whether nothing is on the list.
    pub fn is_empty(&self) -> (r: bool)
        ensures
            r == (self.ips() == Set::<Ip>::empty() && self.hosts() == Set::<Seq<char>>::empty()),
    {
        if self.ips.len() == 0 {
            assert(self.ips() =~= Set::empty());
        } else {
            assert(self.ips().contains(self.ips@[0]));
        }
        self.ips.len() == 0 && self.hosts.is_empty()
    }
}

/// The operator's extension of the built-in blocked ranges.
#[derive(Debug, PartialEq, Eq)]
pub struct Blocklist {
    pub list: HostList,
}

impl Default for Blocklist {
    /// Blocks nothing extra.
    fn default() -> (r: Blocklist)
        ensures
            r.list.ips() == Set::<Ip>::empty(),
            r.list.hosts() == Set::<Seq<char>>::empty(),
    {
        Blocklist { list: HostList::new() }
    }
}

impl Blocklist {
    /// The blocklist of the given entries.
    pub fn parse(entries: &Vec<HostEntry>) -> (r: Blocklist)
        ensures
            forall|ip: Ip| r.list.ips().contains(ip) <==> names_ip(entries@, ip),
            forall|h: Seq<char>| r.list.hosts().contains(h) <==> names_host(entries@, h),
            ascii_names_lowered(entries@),
    {
        Blocklist { list: HostList::of(entries) }
    }

    /// Whether the operator blocks the address.
    pub fn blocks_ip(&self, ip: Ip) -> (r: bool)
        ensures
            r == self.list.ips().contains(ip),
    {
        self.list.has_ip(ip)
    }

    /// Whether the operator blocks the host name, in whatever case.
    pub fn blocks_host(&self, host: &str) -> (r: bool)
        ensures
            r == self.list.hosts().contains(lowercase(host@)),
            ascii_only(host@) ==> lowercase(host@) == lower_ascii(host@),
    {
        self.list.has_host(host)
    }
}

/// When not empty, the only hosts and addresses that may be reached.
#[derive(Debug, PartialEq, Eq)]
pub struct Allowlist {
    pub list: HostList,
}

impl Default for Allowlist {
    /// No restriction beyond the built-in ranges.
    fn default() -> (r: Allowlist)
        ensures
            r.list.ips() == Set::<Ip>::empty(),
            r.list.hosts() == Set::<Seq<char>>::empty(),
    {
        Allowlist { list: HostList::new() }
    }
}

impl Allowlist {
    /// The allowlist of the given entries.
    pub fn parse(entries: &Vec<HostEntry>) -> (r: Allowlist)
        ensures
            forall|ip: Ip| r.list.ips().contains(ip) <==> names_ip(entries@, ip),
            forall|h: Seq<char>| r.list.hosts().contains(h) <==> names_host(entries@, h),
            ascii_names_lowered(entries@),
    {
        Allowlist { list: HostList::of(entries) }
    }

    /// Whether nothing is listed.
    pub fn is_empty(&self) -> (r: bool)
        ensures
            r == allows_all(*self),
    {
        self.list.is_empty()
    }
}

/// Whether the allowlist leaves the built-in ranges in charge.
pub open spec fn allows_all(allow: Allowlist) -> bool {
    allow.list.ips() == Set::<Ip>::empty() && allow.list.hosts() == Set::<Seq<char>>::empty()
}

/// Whether policy lets a request for the host `lower` (in lower case) connect
/// to `ip`: never to an address that the operator blocks; with an allowlist
/// only where it names the host or the address; without one only outside the
/// built-in blocked ranges.
pub open spec fn permits(lower: Seq<char>, ip: Ip, block: Blocklist, allow: Allowlist) -> bool {
    &&& !block.list.ips().contains(ip)
    &&& if allows_all(allow) {
        !blocked_range(ip)
    } else {
        allow.list.hosts().contains(lower) || allow.list.ips().contains(ip)
    }
}

/// Decides [`permits`].
pub fn address_permitted(lower: &str, ip: Ip, block: &Blocklist, allow: &Allowlist) -> (r: bool)
    ensures
        r == permits(lower@, ip, *block, *allow),
        block.list.ips().contains(ip) ==> !r,
        allow.list.ips().is_empty() && allow.list.hosts().is_empty() && !block.list.ips().contains(
            ip,
        ) ==> r == !blocked_range(ip),
        !(allow.list.ips().is_empty() && allow.list.hosts().is_empty())
            && !block.list.ips().contains(ip) ==> r == (allow.list.hosts().contains(lower@)
            || allow.list.ips().contains(ip)),
{
    proof {
        assert(allow.list.ips().is_empty() <==> allow.list.ips() =~= Set::empty());
        assert(allow.list.hosts().is_empty() <==> allow.list.hosts() =~= Set::empty());
    }
    if block.blocks_ip(ip) {
        return false;
    }
    if allow.is_empty() {
        !is_blocked_ip(ip)
    } else {
        allow.list.has_lower_host(lower) || allow.list.has_ip(ip)
    }
}

/// The addresses of `addrs` that policy permits, in order.
pub open spec fn permitted(
    lower: Seq<char>,
    addrs: Seq<Ip>,
    block: Blocklist,
    allow: Allowlist,
) -> Seq<Ip> {
    addrs.filter(|ip: Ip| permits(lower, ip, block, allow))
}

/// The addresses that a request for the host `lower` (in lower case) may
/// connect to.
pub fn filter_allowed_addrs(
    lower: &str,
    addrs: &Vec<Ip>,
    block: &Blocklist,
    allow: &Allowlist,
) -> (r: Vec<Ip>)
    ensures
        r@ == permitted(lower@, addrs@, *block, *allow),
{
    let ghost keep = |ip: Ip| permits(lower@, ip, *block, *allow);
    let mut out: Vec<Ip> = Vec::new();
    let mut i: usize = 0;
    assert(addrs@.take(0) =~= Seq::empty());
    proof {
        reveal(Seq::filter);
    }
    while i < addrs.len()
        invariant
            i <= addrs.len(),
            keep == |ip: Ip| permits(lower@, ip, *block, *allow),
            out@ == addrs@.take(i as int).filter(keep),
        decreases addrs.len() - i,
    {
        proof {
            addrs@.take(i as int).lemma_filter_push(addrs@[i as int], keep);
            assert(addrs@.take(i as int).push(addrs@[i as int]) =~= addrs@.take(i + 1));
        }
        if address_permitted(lower, addrs[i], block, allow) {
            out.push(addrs[i]);
        }
        i += 1;
    }
    assert(addrs@.take(addrs@.len() as int) =~= addrs@);
    out
}

/// What is wrong with reaching `host`, whose name reads `lower` in lower case
/// and resolves as `resolved` says, if anything.
pub open spec fn host_error(
    host: Seq<char>,
    lower: Seq<char>,
    resolved: Result<Seq<Ip>, Seq<char>>,
    block: Blocklist,
    allow: Allowlist,
) -> Option<Seq<char>> {
    if block.list.hosts().contains(lower) {
        Some("host "@ + host + " is blocked by operator blocklist"@)
    } else {
        match resolved {
            Err(e) => Some("failed to resolve host "@ + host + ": "@ + e),
            Ok(addrs) => if permitted(lower, addrs, block, allow).len() == 0 {
                Some("all resolved IPs for "@ + host + " are blocked by SSRF policy"@)
            } else {
                None
            },
        }
    }
}

/// Addresses that a name resolved to, by their contents.
pub open spec fn resolution(r: Result<Vec<Ip>, String>) -> Result<Seq<Ip>, Seq<char>> {
    match r {
        Ok(v) => Ok(v@),
        Err(e) => Err(e@),
    }
}

/// The addresses to connect to for `host`, or why there is none. `lower` is
/// the host in lower case.
pub fn reachable_addrs(
    host: &str,
    lower: &str,
    resolved: &Result<Vec<Ip>, String>,
    block: &Blocklist,
    allow: &Allowlist,
) -> (r: Result<Vec<Ip>, String>)
    ensures
        match r {
            Ok(v) => host_error(host@, lower@, resolution(*resolved), *block, *allow) is None
                && v@ == permitted(lower@, resolution(*resolved)->Ok_0, *block, *allow),
            Err(e) => host_error(host@, lower@, resolution(*resolved), *block, *allow) == Some(e@),
        },
{
    if block.list.has_lower_host(lower) {
        return Err(join3("host ", host, " is blocked by operator blocklist"));
    }
    match resolved {
        Err(e) => {
            let at = join2("failed to resolve host ", host);
            Err(join3(at.as_str(), ": ", e.as_str()))
        },
        Ok(addrs) => {
            let allowed = filter_allowed_addrs(lower, addrs, block, allow);
            if allowed.len() == 0 {
                return Err(
                    join3("all resolved IPs for ", host, " are blocked by SSRF policy"),
                );
            }
            Ok(allowed)
        },
    }
}

/// Whether policy permits reaching `host` at all, given how it resolves.
pub fn check_host_reachable(
    host: &str,
    resolved: &Result<Vec<Ip>, String>,
    block: &Blocklist,
    allow: &Allowlist,
) -> (r: Result<(), String>)
    ensures
        match r {
            Ok(_) => host_error(host@, lowercase(host@), resolution(*resolved), *block, *allow)
                is None,
            Err(e) => host_error(host@, lowercase(host@), resolution(*resolved), *block, *allow)
                == Some(e@),
        },
        ascii_only(host@) ==> lowercase(host@) == lower_ascii(host@),
{
    let lower = to_lower(host);
    match reachable_addrs(host, lower.as_str(), resolved, block, allow) {
        Ok(_) => Ok(()),
        Err(e) => Err(e),
    }
}

/// Gate for a host that is an address itself: name resolution never sees it.
/// `literal` is the address that `host` writes down, if it does.
pub fn check_literal_ip_host(
    host: &str,
    literal: Option<Ip>,
    block: &Blocklist,
    allow: &Allowlist,
) -> (r: Result<(), String>)
    ensures
        match r {
            Ok(_) => literal is Some ==> permits(lowercase(host@), literal->0, *block, *allow),
            Err(e) => literal is Some && !permits(lowercase(host@), literal->0, *block, *allow)
                && e@ == "address "@ + host@ + " is blocked by SSRF policy"@,
        },
{
    match literal {
        None => Ok(()),
        Some(ip) => if address_permitted(to_lower(host).as_str(), ip, block, allow) {
            Ok(())
        } else {
            Err(join3("address ", host, " is blocked by SSRF policy"))
        },
    }
}

/// Every address handed out for a connection is permitted and was resolved.
pub proof fn lemma_permitted_addrs(
    lower: Seq<char>,
    addrs: Seq<Ip>,
    block: Blocklist,
    allow: Allowlist,
)
    ensures
        forall|i: int|
            0 <= i < permitted(lower, addrs, block, allow).len() ==> permits(
                lower,
                #[trigger] permitted(lower, addrs, block, allow)[i],
                block,
                allow,
            ) && addrs.contains(permitted(lower, addrs, block, allow)[i]),
{
    let keep = |ip: Ip| permits(lower, ip, block, allow);
    assert forall|i: int| 0 <= i < addrs.filter(keep).len() implies permits(
        lower,
        #[trigger] addrs.filter(keep)[i],
        block,
        allow,
    ) && addrs.contains(addrs.filter(keep)[i]) by {
        addrs.lemma_filter_pred(keep, i);
        addrs.lemma_filter_contains_rev(keep, addrs.filter(keep)[i]);
    }
}

/// An address may be reached exactly where the operator does not block it and, with
/// an allowlist, the list names it or the host, without one, it is outside the
/// built-in ranges. Of the addresses that a name resolves to, all of these are
/// handed out.
pub proof fn lemma_what_may_be_reached(
    lower: Seq<char>,
    ip: Ip,
    addrs: Seq<Ip>,
    block: Blocklist,
    allow: Allowlist,
)
    ensures
        allow.list.ips().is_empty() && allow.list.hosts().is_empty() ==> (permits(
            lower,
            ip,
            block,
            allow,
        ) <==> !block.list.ips().contains(ip) && !blocked_range(ip)),
        !(allow.list.ips().is_empty() && allow.list.hosts().is_empty()) ==> (permits(
            lower,
            ip,
            block,
            allow,
        ) <==> !block.list.ips().contains(ip) && (allow.list.hosts().contains(lower)
            || allow.list.ips().contains(ip))),
        addrs.contains(ip) && permits(lower, ip, block, allow) ==> permitted(
            lower,
            addrs,
            block,
            allow,
        ).contains(ip),
{
    assert(allow.list.ips().is_empty() <==> allow.list.ips() =~= Set::empty());
    assert(allow.list.hosts().is_empty() <==> allow.list.hosts() =~= Set::empty());
    let keep = |x: Ip| permits(lower, x, block, allow);
    if addrs.contains(ip) && keep(ip) {
        let i = addrs.index_of(ip);
        addrs.lemma_filter_contains(keep, i);
    }
}

/// A host is out of reach where the operator blocks its name, where it does not
/// resolve, and where none of its addresses may be reached; otherwise it is not.
pub proof fn lemma_which_hosts_are_out_of_reach(
    host: Seq<char>,
    lower: Seq<char>,
    resolved: Result<Seq<Ip>, Seq<char>>,
    block: Blocklist,
    allow: Allowlist,
)
    ensures
        host_error(host, lower, resolved, block, allow) is None <==> {
            &&& !block.list.hosts().contains(lower)
            &&& resolved is Ok
            &&& exists|i: int|
                0 <= i < resolved->Ok_0.len() && permits(
                    lower,
                    #[trigger] resolved->Ok_0[i],
                    block,
                    allow,
                )
        },
{
    if resolved is Ok {
        let addrs = resolved->Ok_0;
        lemma_permitted_addrs(lower, addrs, block, allow);
        let kept = permitted(lower, addrs, block, allow);
        if kept.len() > 0 {
            let i = addrs.index_of(kept[0]);
            assert(permits(lower, addrs[i], block, allow));
        }
        if exists|i: int| 0 <= i < addrs.len() && permits(lower, #[trigger] addrs[i], block, allow) {
            let i = choose|i: int|
                0 <= i < addrs.len() && permits(lower, #[trigger] addrs[i], block, allow);
            lemma_what_may_be_reached(lower, addrs[i], addrs, block, allow);
        }
    }
}

/// Without an allowlist no address of a blocked range is ever permitted,
/// whatever the host is called and whatever the operator blocks besides.
pub proof fn lemma_blocked_ranges_unreachable(
    lower: Seq<char>,
    ip: Ip,
    block: Blocklist,
    allow: Allowlist,
)
    requires
        allows_all(allow),
        blocked_range(ip),
    ensures
        !permits(lower, ip, block, allow),
{
}

/// What the operator blocks stays blocked, allowlisted or not.
pub proof fn lemma_blocklist_wins(
    host: Seq<char>,
    lower: Seq<char>,
    ip: Ip,
    resolved: Result<Seq<Ip>, Seq<char>>,
    block: Blocklist,
    allow: Allowlist,
)
    ensures
        block.list.ips().contains(ip) ==> !permits(lower, ip, block, allow),
        block.list.hosts().contains(lower) ==> host_error(host, lower, resolved, block, allow)
            is Some,
{
}

/// A list names the addresses that its entries write down, and the other entries as host
/// names in lower case, whatever stands before them.
pub proof fn lemma_what_a_list_names(
    entries: Seq<HostEntry>,
    entry: HostEntry,
    ip: Ip,
    host: Seq<char>,
)
    ensures
        !names_ip(Seq::empty(), ip),
        !names_host(Seq::empty(), host),
        names_ip(entries.push(entry), ip) <==> names_ip(entries, ip) || entry.ip == Some(ip),
        names_host(entries.push(entry), host) <==> names_host(entries, host) || entry.ip is None
            && lowercase(entry.text@) == host,
{
    let all = entries.push(entry);
    assert(all[entries.len() as int] == entry);
    if names_ip(entries, ip) {
        let i = choose|i: int| 0 <= i < entries.len() && (#[trigger] entries[i]).ip == Some(ip);
        assert(all[i].ip == Some(ip));
    }
    if names_ip(all, ip) {
        let i = choose|i: int| 0 <= i < all.len() && (#[trigger] all[i]).ip == Some(ip);
        if i < entries.len() {
            assert(entries[i].ip == Some(ip));
        }
    }
    if names_host(entries, host) {
        let i = choose|i: int|
            0 <= i < entries.len() && (#[trigger] entries[i]).ip is None && lowercase(
                entries[i].text@,
            ) == host;
        assert(all[i] == entries[i]);
    }
    if names_host(all, host) {
        let i = choose|i: int|
            0 <= i < all.len() && (#[trigger] all[i]).ip is None && lowercase(all[i].text@) == host;
        if i < entries.len() {
            assert(entries[i] == all[i]);
        }
    }
}

} // verus!
