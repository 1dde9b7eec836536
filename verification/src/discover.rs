//! Finding rooms on the local network: the /24 networks of this machine's
//! addresses and the hosts to ask in each. IPv4 addresses are `u32`s, most
//! significant octet first.

use vstd::prelude::*;

verus! {

/// One address of a network interface, with the two flags that rule it out
/// of a scan.
#[derive(Debug, Clone, Copy, PartialEq, Eq, Structural)]
pub struct InterfaceAddr {
    pub ip: u32,
    pub loopback: bool,
    pub link_local: bool,
}

/// The /24 network of an address: its last octet set to 0.
pub open spec fn net24(ip: u32) -> u32 {
    (ip / 256 * 256) as u32
}

/// `s` without repetitions, each element kept where it first occurs.
pub open spec fn first_occurrences(s: Seq<u32>) -> Seq<u32>
    decreases s.len(),
{
    if s.len() == 0 {
        Seq::empty()
    } else {
        let prev = first_occurrences(s.drop_last());
        if prev.contains(s.last()) { prev } else { prev.push(s.last()) }
    }
}

/// The /24 networks of the interfaces that are neither loopback nor link-local.
pub open spec fn scan_nets(ifaces: Seq<InterfaceAddr>) -> Seq<u32>
    decreases ifaces.len(),
{
    if ifaces.len() == 0 {
        Seq::empty()
    } else {
        let prev = scan_nets(ifaces.drop_last());
        let a = ifaces.last();
        if a.loopback || a.link_local { prev } else { prev.push(net24(a.ip)) }
    }
}

proof fn lemma_net24(ip: u32)
    ensures
        ip / 256 * 256 <= ip,
        ip / 256 * 256 <= 0xFFFF_FF00,
        net24(ip) == ip / 256 * 256,
{
    assert(ip / 256 * 256 <= ip) by (nonlinear_arith);
    assert(ip / 256 <= 0xFF_FFFF) by (nonlinear_arith) requires ip <= 0xFFFF_FFFF;
    assert(ip / 256 * 256 <= 0xFFFF_FF00) by (nonlinear_arith) requires ip / 256 <= 0xFF_FFFF;
}

proof fn lemma_push_contains(s: Seq<u32>, v: u32, x: u32)
    ensures
        s.push(v).contains(x) <==> (s.contains(x) || v == x),
{
    if s.contains(x) {
        let k = choose|k: int| 0 <= k < s.len() && s[k] == x;
        assert(s.push(v)[k] == x);
    }
    if v == x {
        assert(s.push(v)[s.len() as int] == x);
    }
    if s.push(v).contains(x) {
        let k = choose|k: int| 0 <= k < s.push(v).len() && s.push(v)[k] == x;
        if k < s.len() {
            assert(s[k] == x);
        }
    }
}

proof fn lemma_first_occurrences_contains(s: Seq<u32>, x: u32)
    ensures
        first_occurrences(s).contains(x) <==> s.contains(x),
        first_occurrences(s).no_duplicates(),
    decreases s.len(),
{
    if s.len() > 0 {
        let t = s.drop_last();
        let l = s.last();
        lemma_first_occurrences_contains(t, x);
        lemma_first_occurrences_contains(t, l);
        assert(s =~= t.push(l));
        lemma_push_contains(t, l, x);
        let prev = first_occurrences(t);
        lemma_push_contains(prev, l, x);
        if !prev.contains(l) {
            assert(prev.push(l).no_duplicates()) by {
                assert forall|i: int, j: int| 0 <= i < prev.len() + 1 && 0 <= j < prev.len() + 1 && i != j
                    implies prev.push(l)[i] != prev.push(l)[j] by {
                    if i < prev.len() && j < prev.len() {
                    } else if i < prev.len() {
                        assert(prev.contains(prev[i]));
                    } else {
                        assert(prev.contains(prev[j]));
                    }
                }
            }
        }
    }
}

/// Every element of `first_occurrences(s)` occurs in `s`, every element of
/// `s` occurs in it, and it holds no element twice.
pub proof fn lemma_first_occurrences(s: Seq<u32>)
    ensures
        first_occurrences(s).no_duplicates(),
        forall|x: u32| first_occurrences(s).contains(x) <==> s.contains(x),
{
    lemma_first_occurrences_contains(s, 0);
    assert forall|x: u32| first_occurrences(s).contains(x) <==> s.contains(x) by {
        lemma_first_occurrences_contains(s, x);
    }
}

/// `s` without repetitions, each element kept where it first occurs.
pub fn unique_hosts(s: &Vec<u32>) -> (r: Vec<u32>)
    ensures
        r@ == first_occurrences(s@),
{
    let mut out: Vec<u32> = Vec::new();
    let mut i: usize = 0;
    while i < s.len()
        invariant
            i <= s@.len(),
            out@ == first_occurrences(s@.take(i as int)),
        decreases s@.len() - i,
    {
        let x = s[i];
        let mut seen = false;
        let mut j: usize = 0;
        while j < out.len()
            invariant
                j <= out@.len(),
                seen <==> out@.take(j as int).contains(x),
            decreases out@.len() - j,
        {
            if out[j] == x {
                seen = true;
            }
            proof {
                assert(out@.take(j as int + 1) =~= out@.take(j as int).push(out@[j as int]));
                lemma_push_contains(out@.take(j as int), out@[j as int], x);
            }
            j = j + 1;
        }
        proof {
            assert(out@.take(j as int) =~= out@);
            assert(s@.take(i as int + 1).drop_last() =~= s@.take(i as int));
            assert(s@.take(i as int + 1).last() == x);
        }
        if !seen {
            out.push(x);
        }
        i = i + 1;
    }
    proof { assert(s@.take(s@.len() as int) =~= s@); }
    out
}

/// The /24 networks to scan: those of the addresses that are neither
/// loopback nor link-local, each once, in the order of the interfaces.
pub fn local_subnets(ifaces: &Vec<InterfaceAddr>) -> (r: Vec<u32>)
    ensures
        r@ == first_occurrences(scan_nets(ifaces@)),
{
    let mut nets: Vec<u32> = Vec::new();
    let mut i: usize = 0;
    while i < ifaces.len()
        invariant
            i <= ifaces@.len(),
            nets@ == scan_nets(ifaces@.take(i as int)),
        decreases ifaces@.len() - i,
    {
        let a = ifaces[i];
        proof {
            assert(ifaces@.take(i as int + 1).drop_last() =~= ifaces@.take(i as int));
            assert(ifaces@.take(i as int + 1).last() == a);
        }
        proof { lemma_net24(a.ip); }
        if !a.loopback && !a.link_local {
            nets.push(a.ip / 256 * 256);
        }
        i = i + 1;
    }
    proof { assert(ifaces@.take(ifaces@.len() as int) =~= ifaces@); }
    unique_hosts(&nets)
}

/// The 254 hosts `.1` to `.254` of the /24 network of `net`.
pub fn subnet_hosts(net: u32) -> (r: Vec<u32>)
    ensures
        r@.len() == 254,
        forall|i: int| 0 <= i < 254 ==> #[trigger] r@[i] == net24(net) + i + 1,
{
    proof { lemma_net24(net); }
    let base = net / 256 * 256;
    let mut out: Vec<u32> = Vec::new();
    let mut last: u32 = 1;
    while last <= 254
        invariant
            1 <= last <= 255,
            base == net24(net),
            base + 255 <= u32::MAX,
            out@.len() == last - 1,
            forall|i: int| 0 <= i < out@.len() ==> #[trigger] out@[i] == base + i + 1,
        decreases 255 - last,
    {
        out.push(base + last);
        last = last + 1;
    }
    out
}

} // verus!
