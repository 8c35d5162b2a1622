//! Service-discovery naming and peer bookkeeping.
//!
//! Nodes advertise themselves under a role-typed service name and claim
//! sequential instance names like `capture-01`. The multicast transport
//! itself runs outside the library; the naming rules, the
//! instance-number claim, and the address preference order are here.

use vstd::prelude::*;
use crate::text::{
    all_digits, dec2_str, dec_str, dec_value, prefix_before, starts_with_seq, str_parse_u32,
    str_starts_with, take_before, u32_dec, u32_dec2,
};

verus! {

/// The role a node plays on the network.
#[derive(Clone, Copy, PartialEq, Eq, Structural, Debug)]
pub enum ServiceRole {
    Capture,
    Processing,
    Web,
}

impl ServiceRole {
    /// Service-type string including the domain.
    pub fn service_type(&self) -> (r: &'static str)
        ensures
            *self == ServiceRole::Capture ==> r@ == "_gaia-capture._tcp.local."@,
            *self == ServiceRole::Processing ==> r@ == "_gaia-processing._tcp.local."@,
            *self == ServiceRole::Web ==> r@ == "_gaia-web._tcp.local."@,
    {
        match self {
            ServiceRole::Capture => "_gaia-capture._tcp.local.",
            ServiceRole::Processing => "_gaia-processing._tcp.local.",
            ServiceRole::Web => "_gaia-web._tcp.local.",
        }
    }

    /// Human-readable prefix used in instance names.
    pub fn prefix(&self) -> (r: &'static str)
        ensures
            *self == ServiceRole::Capture ==> r@ == "capture"@,
            *self == ServiceRole::Processing ==> r@ == "processing"@,
            *self == ServiceRole::Web ==> r@ == "web"@,
    {
        match self {
            ServiceRole::Capture => "capture",
            ServiceRole::Processing => "processing",
            ServiceRole::Web => "web",
        }
    }
}

/// An advertised address, as plain values.
pub enum PeerAddr {
    /// Four dotted-quad octets.
    V4(u8, u8, u8, u8),
    /// Canonical textual form of an IPv6 address.
    V6(String),
}

/// The address is IPv4.
pub open spec fn is_v4(a: PeerAddr) -> bool {
    a is V4
}

/// The address is a loopback address.
pub open spec fn is_loopback(a: PeerAddr) -> bool {
    match a {
        PeerAddr::V4(x, _, _, _) => x == 127,
        PeerAddr::V6(t) => t@ == "::1"@,
    }
}

impl PeerAddr {
    /// Value copy.
    pub fn duplicate(&self) -> (r: PeerAddr)
        ensures
            r == *self,
    {
        match self {
            PeerAddr::V4(a, b, c, d) => PeerAddr::V4(*a, *b, *c, *d),
            PeerAddr::V6(t) => PeerAddr::V6(t.clone()),
        }
    }

    /// Executable IPv4 test.
    pub fn ipv4(&self) -> (r: bool)
        ensures
            r == is_v4(*self),
    {
        match self {
            PeerAddr::V4(_, _, _, _) => true,
            PeerAddr::V6(_) => false,
        }
    }

    /// Executable loopback test.
    pub fn loopback(&self) -> (r: bool)
        ensures
            r == is_loopback(*self),
    {
        match self {
            PeerAddr::V4(a, _, _, _) => *a == 127,
            PeerAddr::V6(t) => crate::text::str_eq(t.as_str(), "::1"),
        }
    }
}

/// A capture node learned from discovery.
pub struct Peer {
    /// Instance name, e.g. `capture-01`.
    pub instance_name: String,
    /// All advertised addresses.
    pub addresses: Vec<PeerAddr>,
    /// Listening port.
    pub port: u16,
}

/// The HTTP base URL text for one address and port.
pub open spec fn url_of(a: PeerAddr, port: u16) -> Seq<char> {
    match a {
        PeerAddr::V4(x, y, z, w) => "http://"@ + dec_str(x as nat) + seq!['.']
            + dec_str(y as nat) + seq!['.'] + dec_str(z as nat) + seq!['.'] + dec_str(w as nat)
            + seq![':'] + dec_str(port as nat),
        PeerAddr::V6(t) => "http://["@ + t@ + "]:"@ + dec_str(port as nat),
    }
}

/// Index of the first IPv4 address, or -1.
pub open spec fn first_v4_index(addrs: Seq<PeerAddr>) -> int
    decreases addrs.len(),
{
    if addrs.len() == 0 {
        -1
    } else if addrs.first() is V4 {
        0
    } else {
        let t = first_v4_index(addrs.drop_first());
        if t < 0 {
            -1
        } else {
            t + 1
        }
    }
}

/// The address `http_url` renders: the first IPv4 one, or the first of
/// any kind.
pub open spec fn preferred_addr(addrs: Seq<PeerAddr>) -> PeerAddr {
    let fi = first_v4_index(addrs);
    if fi >= 0 {
        addrs[fi]
    } else {
        addrs[0]
    }
}

impl Peer {
    /// HTTP base URL for this peer, preferring IPv4; absent when no
    /// address was advertised.
    pub fn http_url(&self) -> (r: Option<String>)
        ensures
            r is Some <==> self.addresses@.len() > 0,
            r matches Some(u) ==> u@ == url_of(preferred_addr(self.addresses@), self.port),
    {
        let n = self.addresses.len();
        let mut i: usize = 0;
        let mut pick: Option<usize> = None;
        while i < n
            invariant
                0 <= i <= n,
                n == self.addresses@.len(),
                pick matches Some(k) ==> k < n && is_v4(self.addresses@[k as int])
                    && (forall|j: int| 0 <= j < k ==> !is_v4(self.addresses@[j])),
                pick is None ==> (forall|j: int| 0 <= j < i ==> !is_v4(self.addresses@[j])),
            decreases n - i,
        {
            if pick.is_none() && self.addresses[i].ipv4() {
                pick = Some(i);
                proof {
                    lemma_first_v4_props(self.addresses@);
                }
                i = n;
            } else {
                i = i + 1;
            }
        }
        proof {
            lemma_first_v4_props(self.addresses@);
        }
        let chosen: usize = match pick {
            Some(k) => k,
            None => {
                if n == 0 {
                    return None;
                }
                0
            }
        };
        proof {
            let fi = first_v4_index(self.addresses@);
            match pick {
                Some(k) => {
                    assert(fi == k) by {
                        if fi < k as int {
                            assert(!is_v4(self.addresses@[fi]));
                        } else if fi > k as int || fi < 0 {
                            assert(!is_v4(self.addresses@[k as int]));
                        }
                    }
                }
                None => {
                    assert(fi == -1) by {
                        if fi >= 0 {
                            assert(!is_v4(self.addresses@[fi]));
                        }
                    }
                }
            }
        }
        let mut out: String;
        match &self.addresses[chosen] {
            PeerAddr::V4(a, b, c, d) => {
                out = String::from_str("http://");
                let sa = u32_dec(*a as u32);
                out.append(sa.as_str());
                out.append(".");
                let sb = u32_dec(*b as u32);
                out.append(sb.as_str());
                out.append(".");
                let sc = u32_dec(*c as u32);
                out.append(sc.as_str());
                out.append(".");
                let sd = u32_dec(*d as u32);
                out.append(sd.as_str());
                out.append(":");
                let sp = u32_dec(self.port as u32);
                out.append(sp.as_str());
                proof {
                    reveal_strlit(".");
                    reveal_strlit(":");
                    assert(out@ =~= url_of(preferred_addr(self.addresses@), self.port));
                }
            }
            PeerAddr::V6(t) => {
                out = String::from_str("http://[");
                out.append(t.as_str());
                out.append("]:");
                let sp = u32_dec(self.port as u32);
                out.append(sp.as_str());
                proof {
                    assert(out@ =~= url_of(preferred_addr(self.addresses@), self.port));
                }
            }
        }
        Some(out)
    }

    /// The advertised non-loopback addresses, IPv4 first, each group
    /// in its original order.
    pub fn non_loopback_addresses(&self) -> (r: Vec<PeerAddr>)
        ensures
            r@ == keep_addrs(self.addresses@, true) + keep_addrs(self.addresses@, false),
    {
        let mut v4: Vec<PeerAddr> = Vec::new();
        let mut v6: Vec<PeerAddr> = Vec::new();
        let n = self.addresses.len();
        let mut i: usize = 0;
        proof {
            assert(self.addresses@.take(0) =~= Seq::<PeerAddr>::empty());
            assert(keep_addrs(Seq::<PeerAddr>::empty(), true) == Seq::<PeerAddr>::empty());
            assert(keep_addrs(Seq::<PeerAddr>::empty(), false) == Seq::<PeerAddr>::empty());
            assert(v4@ =~= keep_addrs(self.addresses@.take(0), true));
            assert(v6@ =~= keep_addrs(self.addresses@.take(0), false));
        }
        while i < n
            invariant
                0 <= i <= n,
                n == self.addresses@.len(),
                v4@ == keep_addrs(self.addresses@.take(i as int), true),
                v6@ == keep_addrs(self.addresses@.take(i as int), false),
            decreases n - i,
        {
            proof {
                lemma_keep_addrs_snoc(self.addresses@, i as int, true);
                lemma_keep_addrs_snoc(self.addresses@, i as int, false);
            }
            let a = &self.addresses[i];
            if !a.loopback() {
                if a.ipv4() {
                    let ghost before = v4@;
                    v4.push(a.duplicate());
                    proof {
                        assert(v4@ =~= before.push(self.addresses@[i as int]));
                        assert(v4@ =~= keep_addrs(self.addresses@.take(i + 1), true));
                        assert(v6@ =~= keep_addrs(self.addresses@.take(i + 1), false));
                    }
                } else {
                    let ghost before = v6@;
                    v6.push(a.duplicate());
                    proof {
                        assert(v6@ =~= before.push(self.addresses@[i as int]));
                        assert(v6@ =~= keep_addrs(self.addresses@.take(i + 1), false));
                        assert(v4@ =~= keep_addrs(self.addresses@.take(i + 1), true));
                    }
                }
            } else {
                proof {
                    assert(v4@ =~= keep_addrs(self.addresses@.take(i + 1), true));
                    assert(v6@ =~= keep_addrs(self.addresses@.take(i + 1), false));
                }
            }
            i = i + 1;
        }
        proof {
            assert(self.addresses@.take(n as int) =~= self.addresses@);
        }
        let mut j: usize = 0;
        let m = v6.len();
        let ghost target = keep_addrs(self.addresses@, true) + keep_addrs(
            self.addresses@,
            false,
        );
        while j < m
            invariant
                0 <= j <= m,
                m == v6@.len(),
                v6@ == keep_addrs(self.addresses@, false),
                v4@ == keep_addrs(self.addresses@, true) + v6@.take(j as int),
            decreases m - j,
        {
            let ghost before = v4@;
            let a = &v6[j];
            v4.push(a.duplicate());
            proof {
                assert(v6@.take(j + 1) =~= v6@.take(j as int).push(v6@[j as int]));
                assert(v4@ =~= keep_addrs(self.addresses@, true) + v6@.take(j + 1));
            }
            j = j + 1;
        }
        proof {
            assert(v6@.take(m as int) =~= v6@);
        }
        v4
    }
}

/// The non-loopback addresses of one kind, in order.
pub open spec fn keep_addrs(addrs: Seq<PeerAddr>, want_v4: bool) -> Seq<PeerAddr>
    decreases addrs.len(),
{
    if addrs.len() == 0 {
        Seq::empty()
    } else {
        let head: Seq<PeerAddr> = if !is_loopback(addrs.first()) && is_v4(addrs.first())
            == want_v4 {
            seq![addrs.first()]
        } else {
            Seq::empty()
        };
        head + keep_addrs(addrs.drop_first(), want_v4)
    }
}

proof fn lemma_keep_addrs_snoc(addrs: Seq<PeerAddr>, i: int, want_v4: bool)
    requires
        0 <= i < addrs.len(),
    ensures
        keep_addrs(addrs.take(i + 1), want_v4) == keep_addrs(addrs.take(i), want_v4)
            + (if !is_loopback(addrs[i]) && is_v4(addrs[i]) == want_v4 {
                seq![addrs[i]]
            } else {
                Seq::<PeerAddr>::empty()
            }),
    decreases i,
{
    let added = if !is_loopback(addrs[i]) && is_v4(addrs[i]) == want_v4 {
        seq![addrs[i]]
    } else {
        Seq::<PeerAddr>::empty()
    };
    if i == 0 {
        assert(addrs.take(1)[0] == addrs[0]);
        assert(addrs.take(1).first() == addrs[0]);
        assert(addrs.take(1).drop_first() =~= Seq::<PeerAddr>::empty());
        assert(keep_addrs(Seq::<PeerAddr>::empty(), want_v4) == Seq::<PeerAddr>::empty());
        assert(addrs.take(0).len() == 0);
        assert(keep_addrs(addrs.take(1), want_v4) =~= keep_addrs(addrs.take(0), want_v4)
            + added);
    } else {
        let tail = addrs.drop_first();
        lemma_keep_addrs_snoc(tail, i - 1, want_v4);
        let head = if !is_loopback(addrs[0]) && is_v4(addrs[0]) == want_v4 {
            seq![addrs[0]]
        } else {
            Seq::<PeerAddr>::empty()
        };
        assert(addrs.take(i + 1).first() == addrs[0]);
        assert(addrs.take(i).first() == addrs[0]);
        assert(tail[i - 1] == addrs[i]);
        assert(addrs.take(i + 1).drop_first() =~= tail.take(i));
        assert(addrs.take(i).drop_first() =~= tail.take(i - 1));
        assert(keep_addrs(addrs.take(i + 1), want_v4) == head + keep_addrs(
            tail.take(i),
            want_v4,
        ));
        assert(keep_addrs(addrs.take(i), want_v4) == head + keep_addrs(
            tail.take(i - 1),
            want_v4,
        ));
        assert(keep_addrs(tail.take(i), want_v4) == keep_addrs(tail.take(i - 1), want_v4)
            + added);
        assert(head + (keep_addrs(tail.take(i - 1), want_v4) + added) =~= (head + keep_addrs(
            tail.take(i - 1),
            want_v4,
        )) + added);
    }
}

proof fn lemma_first_v4_props(addrs: Seq<PeerAddr>)
    ensures
        first_v4_index(addrs) >= -1,
        first_v4_index(addrs) == -1 ==> (forall|j: int| 0 <= j < addrs.len()
            ==> !is_v4(addrs[j])),
        first_v4_index(addrs) >= 0 ==> 0 <= first_v4_index(addrs) < addrs.len()
            && is_v4(addrs[first_v4_index(addrs)])
            && (forall|j: int| 0 <= j < first_v4_index(addrs) ==> !is_v4(addrs[j])),
    decreases addrs.len(),
{
    if addrs.len() > 0 && !(addrs.first() is V4) {
        lemma_first_v4_props(addrs.drop_first());
        let t = first_v4_index(addrs.drop_first());
        if t >= 0 {
            assert(addrs[t + 1] == addrs.drop_first()[t]);
            assert forall|j: int| 0 <= j < t + 1 implies !is_v4(addrs[j]) by {
                if j >= 1 {
                    assert(addrs[j] == addrs.drop_first()[j - 1]);
                }
            }
        } else {
            assert forall|j: int| 0 <= j < addrs.len() implies !is_v4(addrs[j]) by {
                if j >= 1 {
                    assert(addrs[j] == addrs.drop_first()[j - 1]);
                }
            }
        }
    }
}

// ── instance naming ──────────────────────────────────────────────────

/// The sequence number carried by a fullname of the given role: the
/// part before the first `.` must be `<prefix>-<digits>`.
pub open spec fn instance_number_spec(fullname: Seq<char>, prefix: Seq<char>) -> Option<u32> {
    let inst = prefix_before(fullname, '.');
    if starts_with_seq(inst, prefix) {
        let rest = inst.skip(prefix.len() as int);
        if rest.len() >= 1 && rest[0] == '-' {
            let digits = rest.skip(1);
            if digits.len() >= 1 && all_digits(digits) && dec_value(digits) <= u32::MAX {
                Some(dec_value(digits) as u32)
            } else {
                None
            }
        } else {
            None
        }
    } else {
        None
    }
}

/// Extract the instance number from a fullname like
/// `capture-03._gaia-capture._tcp.local.`.
pub fn parse_instance_number(fullname: &str, prefix: &str) -> (r: Option<u32>)
    ensures
        r == instance_number_spec(fullname@, prefix@),
{
    let inst = take_before(fullname, '.');
    if !str_starts_with(inst, prefix) {
        return None;
    }
    let il = inst.unicode_len();
    let pl = prefix.unicode_len();
    let rest = inst.substring_char(pl, il);
    proof {
        assert(rest@ =~= prefix_before(fullname@, '.').skip(prefix@.len() as int));
    }
    let rl = rest.unicode_len();
    if rl == 0 || rest.get_char(0) != '-' {
        return None;
    }
    let digits = rest.substring_char(1, rl);
    proof {
        assert(digits@ =~= rest@.skip(1));
    }
    str_parse_u32(digits)
}

/// The short instance name of a fullname: everything before the first
/// `.`, or the whole name.
pub fn extract_instance_name(fullname: &str) -> (r: String)
    ensures
        r@ == prefix_before(fullname@, '.'),
{
    String::from_str(take_before(fullname, '.'))
}

/// Membership of a number in a claimed-number list.
fn contains_u32(v: &Vec<u32>, x: u32) -> (r: bool)
    ensures
        r == v@.contains(x),
{
    let n = v.len();
    let mut i: usize = 0;
    while i < n
        invariant
            0 <= i <= n,
            n == v@.len(),
            forall|j: int| 0 <= j < i ==> v@[j] != x,
        decreases n - i,
    {
        if v[i] == x {
            return true;
        }
        i = i + 1;
    }
    proof {
        assert(!v@.contains(x)) by {
            if v@.contains(x) {
                let j = choose|j: int| 0 <= j < v@.len() && v@[j] == x;
                assert(v@[j] != x);
            }
        }
    }
    false
}

/// The set of values from 1 to `n` has exactly `n` elements.
proof fn lemma_u32_range_card(n: u32)
    ensures
        Set::new(|k: u32| 1 <= k && k <= n).finite(),
        Set::new(|k: u32| 1 <= k && k <= n).len() == n,
    decreases n,
{
    let s = Set::new(|k: u32| 1 <= k && k <= n);
    if n == 0 {
        assert(s =~= Set::<u32>::empty());
    } else {
        lemma_u32_range_card((n - 1) as u32);
        let prev = Set::new(|k: u32| 1 <= k && k <= n - 1);
        assert(s =~= prev.insert(n));
        assert(!prev.contains(n));
    }
}

/// The smallest positive sequence number not yet claimed.
pub fn next_available(used: &Vec<u32>) -> (r: u32)
    requires
        used@.len() < u32::MAX,
    ensures
        r >= 1,
        !used@.contains(r),
        forall|k: u32| 1 <= k < r ==> used@.contains(k),
{
    let mut n: u32 = 1;
    loop
        invariant
            1 <= n,
            n as int <= used@.len() + 1,
            used@.len() < u32::MAX,
            forall|k: u32| 1 <= k < n ==> used@.contains(k),
        decreases used@.len() + 1 - n,
    {
        if !contains_u32(used, n) {
            return n;
        }
        proof {
            let s = Set::new(|k: u32| 1 <= k && k <= n);
            lemma_u32_range_card(n);
            assert(s.subset_of(used@.to_set())) by {
                assert forall|k: u32| s.contains(k) implies used@.to_set().contains(k) by {
                    assert(used@.contains(k));
                }
            }
            used@.lemma_cardinality_of_set();
            broadcast use vstd::seq_lib::seq_to_set_is_finite;
            vstd::set_lib::lemma_len_subset(s, used@.to_set());
            assert(n as int <= used@.len());
        }
        n = n + 1;
    }
}

/// `<prefix>-<NN>`: the claimed instance name, two digits zero-padded.
pub fn format_instance(prefix: &str, num: u32) -> (r: String)
    ensures
        r@ == prefix@ + "-"@ + (if num < 100 {
            dec2_str(num as nat)
        } else {
            dec_str(num as nat)
        }),
{
    let mut out = String::from_str(prefix);
    out.append("-");
    if num < 100 {
        let d = u32_dec2(num);
        out.append(d.as_str());
    } else {
        let d = u32_dec(num);
        out.append(d.as_str());
    }
    out
}

} // verus!
