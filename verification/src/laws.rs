//! The stated laws of the mutator: what every rewritten packet looks like,
//! when a packet passes through unchanged, and when it is refused.

use vstd::prelude::*;

use crate::checksum::{fold32, lemma_packet_checksum_write, packet_checksum, pseudo_sum};
use crate::mutate::{
    dhcp_mutate_spec, mutate_spec, ra_mutate_spec, SpecOutcome, ICMPV6_TYPE_RA,
    NEXT_HEADER_ICMPV6, NEXT_HEADER_UDP,
};
use crate::options::{
    be16_val, dhcp_combine, dhcp_scan, dns_option_bytes, mtu_option_bytes, ra_combine, ra_scan,
    rdnss_option_bytes, DHCP_OPTIONS_START, OPT_MTU, OPT_RDNSS, RA_OPTIONS_START,
};

verus! {

/// A Router Advertisement that carries no RDNSS option, when no MTU
/// override is requested, passes through unchanged: the caller re-injects
/// the original bytes.
pub proof fn lemma_ra_pass_through(s: Seq<u8>, ip: Seq<u8>)
    requires
        s.len() >= 46,
        s[6] == NEXT_HEADER_ICMPV6,
        s[40] == ICMPV6_TYPE_RA,
        ra_scan(s, RA_OPTIONS_START as int, false) matches Some(kl) && kl.1 is None,
    ensures
        mutate_spec(s, ip, None) == SpecOutcome::Unchanged,
{
}

/// A packet on the Router Advertisement path whose option chain is
/// malformed — truncated, or declaring a zero option length — is refused,
/// never rewritten: the caller must drop it.
pub proof fn lemma_ra_malformed_dropped(s: Seq<u8>, ip: Seq<u8>, mtu: Option<u32>)
    requires
        s.len() >= 7,
        s[6] == NEXT_HEADER_ICMPV6,
        ra_scan(s, RA_OPTIONS_START as int, mtu is Some) is None,
    ensures
        mutate_spec(s, ip, mtu) == SpecOutcome::NotApplicable,
{
}

/// A packet on the DHCPv6 path whose option chain is malformed is refused,
/// never rewritten: the caller must drop it.
pub proof fn lemma_dhcp_malformed_dropped(s: Seq<u8>, ip: Seq<u8>, mtu: Option<u32>)
    requires
        s.len() >= 7,
        s[6] == NEXT_HEADER_UDP,
        dhcp_scan(s, DHCP_OPTIONS_START as int) is None,
    ensures
        mutate_spec(s, ip, mtu) == SpecOutcome::NotApplicable,
{
}

/// An option whose declared length reaches past the end of the packet
/// fails the scan of the whole chain.
pub proof fn lemma_ra_scan_truncated(s: Seq<u8>, i: int, drop_mtu: bool)
    requires
        0 <= i,
        i + 2 <= s.len(),
        i != s.len(),
        8 * s[i + 1] == 0 || i + 8 * s[i + 1] > s.len(),
    ensures
        ra_scan(s, i, drop_mtu) is None,
{
}

/// An option whose declared length reaches past the end of the packet
/// fails the scan of the whole DHCPv6 chain.
pub proof fn lemma_dhcp_scan_truncated(s: Seq<u8>, i: int)
    requires
        0 <= i,
        i + 4 <= s.len(),
        i != s.len(),
        i + 4 + s[i + 2] * 0x100 + s[i + 3] > s.len(),
    ensures
        dhcp_scan(s, i) is None,
{
}

/// The shape of every rewritten Router Advertisement: the retained options
/// stand behind the 56-byte prefix in their original order, then the fresh
/// MTU option when an override was requested, then the fresh RDNSS option
/// carrying the preserved lifetime and the replacement address when an
/// RDNSS option was found; the "other configuration" flag is set, the
/// payload-length field matches the new size, and the checksum validates
/// against the new content.
pub proof fn lemma_ra_rewrite_shape(s: Seq<u8>, ip: Seq<u8>, mtu: Option<u32>)
    requires
        ra_mutate_spec(s, ip, mtu) is Rewritten,
    ensures
        ({
            let (kept, lt) = ra_scan(s, RA_OPTIONS_START as int, mtu is Some)->Some_0;
            let mtu_bytes = match mtu {
                Some(m) => mtu_option_bytes(m),
                None => Seq::<u8>::empty(),
            };
            let dns_bytes = match lt {
                Some(l) => rdnss_option_bytes(l, ip),
                None => Seq::<u8>::empty(),
            };
            let out = ra_mutate_spec(s, ip, mtu)->Rewritten_0;
            &&& s.len() >= 56
            &&& out.len() == 56 + kept.len() + mtu_bytes.len() + dns_bytes.len()
            &&& out.subrange(56, 56 + kept.len() as int) == kept
            &&& out.subrange(
                56 + kept.len() as int,
                56 + kept.len() + mtu_bytes.len() as int,
            ) == mtu_bytes
            &&& out.subrange(out.len() - dns_bytes.len(), out.len() as int) == dns_bytes
            &&& out[45] == (s[45] | 0x40)
            &&& out[4] * 0x100 + out[5] == out.len() - 40
            &&& fold32(pseudo_sum(out)) == 0xFFFF
        }),
{
    let (kept, lt) = ra_scan(s, RA_OPTIONS_START as int, mtu is Some)->Some_0;
    let mtu_bytes = match mtu {
        Some(m) => mtu_option_bytes(m),
        None => Seq::<u8>::empty(),
    };
    let dns_bytes = match lt {
        Some(l) => rdnss_option_bytes(l, ip),
        None => Seq::<u8>::empty(),
    };
    let opts = kept + mtu_bytes + dns_bytes;
    let out = ra_mutate_spec(s, ip, mtu)->Rewritten_0;
    lemma_ra_scan_reaches(s, RA_OPTIONS_START as int, mtu is Some);
    let paylen: int = 16 + opts.len() as int;
    let zeroed = s.take(56).update(4, (paylen / 0x100) as u8).update(5, (paylen % 0x100) as u8)
        .update(42, 0u8).update(43, 0u8).update(45, s[45] | 0x40) + opts;
    let ck = packet_checksum(zeroed);
    assert(out == zeroed.update(42, ck[0]).update(43, ck[1]));
    assert(out.subrange(56, 56 + kept.len() as int) =~= kept);
    assert(out.subrange(56 + kept.len() as int, 56 + kept.len() + mtu_bytes.len() as int) =~= mtu_bytes);
    assert(out.subrange(out.len() - dns_bytes.len(), out.len() as int) =~= dns_bytes);
    assert(out[4] * 0x100 + out[5] == paylen) by {
        assert(out[4] == (paylen / 0x100) as u8 && out[5] == (paylen % 0x100) as u8);
        vstd::arithmetic::div_mod::lemma_fundamental_div_mod(paylen, 0x100);
        vstd::arithmetic::div_mod::lemma_mod_bound(paylen, 0x100);
        vstd::arithmetic::div_mod::lemma_div_is_ordered(0, paylen, 0x100);
        vstd::arithmetic::div_mod::lemma_div_is_ordered(paylen, 0xFFFF, 0x100);
    }
    lemma_packet_checksum_write(zeroed, 42);
}

/// The shape of every rewritten DHCPv6 Reply: the retained options stand
/// behind the 52-byte prefix in their original order, then one fresh
/// DNS-servers option of declared length 16 carrying the replacement
/// address; the UDP length field and the IPv6 payload-length field both
/// match the new size, and the checksum validates against the new content.
pub proof fn lemma_dhcp_rewrite_shape(s: Seq<u8>, ip: Seq<u8>)
    requires
        dhcp_mutate_spec(s, ip) is Rewritten,
    ensures
        ({
            let (kept, found) = dhcp_scan(s, DHCP_OPTIONS_START as int)->Some_0;
            let out = dhcp_mutate_spec(s, ip)->Rewritten_0;
            &&& s.len() >= 52
            &&& out.len() == 52 + kept.len() + dns_option_bytes(ip).len()
            &&& dns_option_bytes(ip).len() == 4 + ip.len()
            &&& out.subrange(52, 52 + kept.len() as int) == kept
            &&& out.subrange(out.len() - dns_option_bytes(ip).len(), out.len() as int)
                == dns_option_bytes(ip)
            &&& out[4] * 0x100 + out[5] == out.len() - 40
            &&& out[44] == out[4] && out[45] == out[5]
            &&& fold32(pseudo_sum(out)) == 0xFFFF
        }),
{
    let (kept, found) = dhcp_scan(s, DHCP_OPTIONS_START as int)->Some_0;
    let opts = kept + dns_option_bytes(ip);
    let out = dhcp_mutate_spec(s, ip)->Rewritten_0;
    lemma_dhcp_scan_reaches(s, DHCP_OPTIONS_START as int);
    let paylen: int = 12 + opts.len() as int;
    let zeroed = s.take(52).update(4, (paylen / 0x100) as u8).update(5, (paylen % 0x100) as u8)
        .update(44, (paylen / 0x100) as u8).update(45, (paylen % 0x100) as u8).update(46, 0u8)
        .update(47, 0u8) + opts;
    let ck = packet_checksum(zeroed);
    assert(out == zeroed.update(46, ck[0]).update(47, ck[1]));
    assert(out.subrange(52, 52 + kept.len() as int) =~= kept);
    assert(out.subrange(out.len() - dns_option_bytes(ip).len(), out.len() as int)
        =~= dns_option_bytes(ip));
    assert(out[4] * 0x100 + out[5] == paylen) by {
        assert(out[4] == (paylen / 0x100) as u8 && out[5] == (paylen % 0x100) as u8);
        vstd::arithmetic::div_mod::lemma_fundamental_div_mod(paylen, 0x100);
        vstd::arithmetic::div_mod::lemma_mod_bound(paylen, 0x100);
        vstd::arithmetic::div_mod::lemma_div_is_ordered(0, paylen, 0x100);
        vstd::arithmetic::div_mod::lemma_div_is_ordered(paylen, 0xFFFF, 0x100);
    }
    lemma_packet_checksum_write(zeroed, 46);
}

/// The options an original scan retained rescan as themselves: placed
/// behind any prefix `p` and in front of any tail `t`, a fresh scan from
/// the end of the prefix keeps every retained option, records no lifetime
/// from them, and goes on into the tail.
proof fn lemma_ra_kept_rescan(s: Seq<u8>, i: int, d: bool, p: Seq<u8>, t: Seq<u8>)
    requires
        ra_scan(s, i, d) is Some,
    ensures
        ({
            let (kept, lt) = ra_scan(s, i, d)->Some_0;
            ra_scan(p + kept + t, p.len() as int, false) == ra_combine(
                kept,
                None,
                ra_scan(p + kept + t, p.len() + kept.len() as int, false),
            )
        }),
    decreases s.len() - i,
{
    let (kept, lt) = ra_scan(s, i, d)->Some_0;
    let pp = p + kept + t;
    if i == s.len() {
        assert(kept =~= Seq::<u8>::empty());
        let r = ra_scan(pp, p.len() as int, false);
        match r {
            None => {},
            Some((k2, l2)) => {
                assert(Seq::<u8>::empty() + k2 =~= k2);
            },
        }
    } else {
        let len = 8 * (s[i + 1] as int);
        let rest = ra_scan(s, i + len, d);
        assert(rest is Some);
        let (k_r, l_r) = rest->Some_0;
        if s[i] == OPT_RDNSS || (d && s[i] == OPT_MTU) {
            assert(kept == k_r);
            lemma_ra_kept_rescan(s, i + len, d, p, t);
        } else {
            let chunk = s.subrange(i, i + len);
            assert(kept == chunk + k_r);
            let p2 = p + chunk;
            lemma_ra_kept_rescan(s, i + len, d, p2, t);
            assert(p2 + k_r + t =~= pp);
            let at = p.len() as int;
            assert(pp[at] == s[i] && pp[at + 1] == s[i + 1]);
            assert(at + len <= pp.len());
            assert(pp.subrange(at, at + len) =~= chunk);
            let r2 = ra_scan(pp, at + len, false);
            assert(ra_scan(pp, at, false) == match r2 {
                None => None::<(Seq<u8>, Option<u16>)>,
                Some((k2, l2)) => Some((pp.subrange(at, at + len) + k2, l2)),
            });
            let r3 = ra_scan(pp, p.len() + kept.len() as int, false);
            assert(p2.len() + k_r.len() == p.len() + kept.len());
            match r3 {
                None => {},
                Some((k3, l3)) => {
                    assert((chunk + k_r) + k3 =~= chunk + (k_r + k3));
                },
            }
        }
    }
}

/// The options an original DHCPv6 scan retained rescan as themselves:
/// placed behind any prefix and in front of any tail, a fresh scan from
/// the end of the prefix keeps every retained option, finds no DNS-servers
/// option among them, and goes on into the tail.
proof fn lemma_dhcp_kept_rescan(s: Seq<u8>, i: int, p: Seq<u8>, t: Seq<u8>)
    requires
        dhcp_scan(s, i) is Some,
    ensures
        ({
            let (kept, found) = dhcp_scan(s, i)->Some_0;
            dhcp_scan(p + kept + t, p.len() as int) == dhcp_combine(
                kept,
                false,
                dhcp_scan(p + kept + t, p.len() + kept.len() as int),
            )
        }),
    decreases s.len() - i,
{
    let (kept, found) = dhcp_scan(s, i)->Some_0;
    let pp = p + kept + t;
    if i == s.len() {
        assert(kept =~= Seq::<u8>::empty());
        let r = dhcp_scan(pp, p.len() as int);
        match r {
            None => {},
            Some((k2, f2)) => {
                assert(Seq::<u8>::empty() + k2 =~= k2);
            },
        }
    } else {
        let len = 4 + (s[i + 2] as int) * 0x100 + (s[i + 3] as int);
        let rest = dhcp_scan(s, i + len);
        assert(rest is Some);
        let (k_r, f_r) = rest->Some_0;
        if s[i] == 0 && s[i + 1] == crate::options::DHCP_OPT_DNS {
            assert(kept == k_r);
            lemma_dhcp_kept_rescan(s, i + len, p, t);
        } else {
            let chunk = s.subrange(i, i + len);
            assert(kept == chunk + k_r);
            let p2 = p + chunk;
            lemma_dhcp_kept_rescan(s, i + len, p2, t);
            assert(p2 + k_r + t =~= pp);
            let at = p.len() as int;
            assert(pp[at] == s[i] && pp[at + 1] == s[i + 1]);
            assert(pp[at + 2] == s[i + 2] && pp[at + 3] == s[i + 3]);
            assert(at + len <= pp.len());
            assert(pp.subrange(at, at + len) =~= chunk);
            let r2 = dhcp_scan(pp, at + len);
            assert(dhcp_scan(pp, at) == match r2 {
                None => None::<(Seq<u8>, bool)>,
                Some((k2, f2)) => Some((pp.subrange(at, at + len) + k2, f2)),
            });
            let r3 = dhcp_scan(pp, p.len() + kept.len() as int);
            assert(p2.len() + k_r.len() == p.len() + kept.len());
            match r3 {
                None => {},
                Some((k3, f3)) => {
                    assert((chunk + k_r) + k3 =~= chunk + (k_r + k3));
                },
            }
        }
    }
}

/// The rewritten Router Advertisement parses back: walking its option
/// chain finds exactly the retained options and the fresh MTU option, all
/// kept, and — when an RDNSS option had been found — exactly the one fresh
/// RDNSS option, whose recorded lifetime is the preserved one.
#[verifier::rlimit(100)]
pub proof fn lemma_ra_rewrite_reparse(s: Seq<u8>, ip: Seq<u8>, mtu: Option<u32>)
    requires
        ra_mutate_spec(s, ip, mtu) is Rewritten,
        ip.len() == 16,
    ensures
        ({
            let (kept, lt) = ra_scan(s, RA_OPTIONS_START as int, mtu is Some)->Some_0;
            let mtu_bytes = match mtu {
                Some(m) => mtu_option_bytes(m),
                None => Seq::<u8>::empty(),
            };
            let out = ra_mutate_spec(s, ip, mtu)->Rewritten_0;
            ra_scan(out, RA_OPTIONS_START as int, false) == Some(((kept + mtu_bytes), lt))
        }),
{
    let (kept, lt) = ra_scan(s, RA_OPTIONS_START as int, mtu is Some)->Some_0;
    let mtu_bytes = match mtu {
        Some(m) => mtu_option_bytes(m),
        None => Seq::<u8>::empty(),
    };
    let dns_bytes = match lt {
        Some(l) => rdnss_option_bytes(l, ip),
        None => Seq::<u8>::empty(),
    };
    let opts = kept + mtu_bytes + dns_bytes;
    let out = ra_mutate_spec(s, ip, mtu)->Rewritten_0;
    lemma_ra_scan_reaches(s, RA_OPTIONS_START as int, mtu is Some);
    let paylen: int = 16 + opts.len() as int;
    let zeroed = s.take(56).update(4, (paylen / 0x100) as u8).update(5, (paylen % 0x100) as u8)
        .update(42, 0u8).update(43, 0u8).update(45, s[45] | 0x40) + opts;
    let ck = packet_checksum(zeroed);
    assert(out == zeroed.update(42, ck[0]).update(43, ck[1]));
    let p = out.take(56);
    let tail = mtu_bytes + dns_bytes;
    assert(out =~= p + kept + tail);
    lemma_ra_kept_rescan(s, RA_OPTIONS_START as int, mtu is Some, p, tail);
    assert(ra_scan(out, 56, false) == ra_combine(
        kept,
        None,
        ra_scan(out, 56 + kept.len() as int, false),
    ));
    // walk the appended options by hand
    let m0 = 56 + kept.len() as int;
    let r0 = m0 + mtu_bytes.len() as int;
    assert(r0 + dns_bytes.len() == out.len());
    // the RDNSS option, when present, ends the chain
    if let Some(l) = lt {
        assert(out.subrange(r0, out.len() as int) =~= dns_bytes);
        assert(out[r0] == OPT_RDNSS && out[r0 + 1] == 3u8);
        assert(ra_scan(out, out.len() as int, false) == Some(
            (Seq::<u8>::empty(), None::<u16>),
        ));
        assert(out[r0 + 4] == (l / 0x100) as u8 && out[r0 + 5] == (l % 0x100) as u8);
        assert(be16_val(out[r0 + 4], out[r0 + 5]) == l) by {
            vstd::arithmetic::div_mod::lemma_fundamental_div_mod(l as int, 0x100);
            vstd::arithmetic::div_mod::lemma_mod_bound(l as int, 0x100);
            vstd::arithmetic::div_mod::lemma_div_is_ordered(0, l as int, 0x100);
            vstd::arithmetic::div_mod::lemma_div_is_ordered(l as int, 0xFFFF, 0x100);
        }
        assert(ra_scan(out, r0, false) == Some((Seq::<u8>::empty(), Some(l))));
    } else {
        assert(r0 == out.len());
        assert(ra_scan(out, r0, false) == Some((Seq::<u8>::empty(), None::<u16>)));
    }
    // the MTU option, when present, stands before it and is kept
    if let Some(m) = mtu {
        assert(out.subrange(m0, m0 + 8) =~= mtu_bytes);
        assert(out[m0] == OPT_MTU && out[m0 + 1] == 1u8);
        assert(m0 + 8 == r0);
        let r2 = ra_scan(out, r0, false);
        assert(ra_scan(out, m0, false) == match r2 {
            None => None::<(Seq<u8>, Option<u16>)>,
            Some((k2, l2)) => Some((out.subrange(m0, m0 + 8) + k2, l2)),
        });
        assert(mtu_bytes + Seq::<u8>::empty() =~= mtu_bytes);
    } else {
        assert(m0 == r0);
        assert(Seq::<u8>::empty() + Seq::<u8>::empty() =~= Seq::<u8>::empty());
    }
    match ra_scan(out, m0, false) {
        None => {},
        Some((k4, l4)) => {
            assert(kept + k4 =~= kept + mtu_bytes);
        },
    }
}

/// The rewritten DHCPv6 Reply parses back: walking its option chain finds
/// exactly the retained options, all kept — none of them carries DNS
/// servers — and the one fresh DNS-servers option.
pub proof fn lemma_dhcp_rewrite_reparse(s: Seq<u8>, ip: Seq<u8>)
    requires
        dhcp_mutate_spec(s, ip) is Rewritten,
        ip.len() == 16,
    ensures
        ({
            let (kept, found) = dhcp_scan(s, DHCP_OPTIONS_START as int)->Some_0;
            let out = dhcp_mutate_spec(s, ip)->Rewritten_0;
            dhcp_scan(out, DHCP_OPTIONS_START as int) == Some((kept, true))
        }),
{
    let (kept, found) = dhcp_scan(s, DHCP_OPTIONS_START as int)->Some_0;
    let opts = kept + dns_option_bytes(ip);
    let out = dhcp_mutate_spec(s, ip)->Rewritten_0;
    lemma_dhcp_scan_reaches(s, DHCP_OPTIONS_START as int);
    let paylen: int = 12 + opts.len() as int;
    let zeroed = s.take(52).update(4, (paylen / 0x100) as u8).update(5, (paylen % 0x100) as u8)
        .update(44, (paylen / 0x100) as u8).update(45, (paylen % 0x100) as u8).update(46, 0u8)
        .update(47, 0u8) + opts;
    let ck = packet_checksum(zeroed);
    assert(out == zeroed.update(46, ck[0]).update(47, ck[1]));
    let p = out.take(52);
    let tail = dns_option_bytes(ip);
    assert(out =~= p + kept + tail);
    lemma_dhcp_kept_rescan(s, DHCP_OPTIONS_START as int, p, tail);
    assert(dhcp_scan(out, 52) == dhcp_combine(kept, false, dhcp_scan(out, 52 + kept.len() as int)));
    let d0 = 52 + kept.len() as int;
    assert(d0 + 20 == out.len());
    assert(out.subrange(d0, out.len() as int) =~= tail);
    assert(out[d0] == 0u8 && out[d0 + 1] == crate::options::DHCP_OPT_DNS);
    assert(out[d0 + 2] == 0u8 && out[d0 + 3] == 16u8);
    assert(dhcp_scan(out, out.len() as int) == Some((Seq::<u8>::empty(), false)));
    assert(dhcp_scan(out, d0) == Some((Seq::<u8>::empty(), true)));
    assert(kept + Seq::<u8>::empty() =~= kept);
}

/// A successful scan means the packet reaches at least to the start of the
/// option region.
proof fn lemma_ra_scan_reaches(s: Seq<u8>, i: int, drop_mtu: bool)
    requires
        ra_scan(s, i, drop_mtu) is Some,
    ensures
        s.len() >= i,
{
}

/// A successful scan means the packet reaches at least to the start of the
/// option region.
proof fn lemma_dhcp_scan_reaches(s: Seq<u8>, i: int)
    requires
        dhcp_scan(s, i) is Some,
    ensures
        s.len() >= i,
{
}

} // verus!
