//! IPv6 addresses as plain octets, the global-scope test, and the selection
//! of a global address from an interface snapshot.

use vstd::prelude::*;

verus! {

/// An IPv6 address held as its 16 network-order octets.
#[derive(Clone, Copy, Debug, PartialEq, Eq)]
pub struct Ipv6Address {
    pub octets: [u8; 16],
}

impl View for Ipv6Address {
    type V = Seq<u8>;

    open spec fn view(&self) -> Seq<u8> {
        self.octets@
    }
}

impl Ipv6Address {
    /// Build an address from its eight 16-bit segments, as written in the
    /// usual colon notation.
    pub fn new(a: u16, b: u16, c: u16, d: u16, e: u16, f: u16, g: u16, h: u16) -> (r:
        Ipv6Address)
        ensures
            r@ == seq![
                (a / 0x100) as u8, (a % 0x100) as u8,
                (b / 0x100) as u8, (b % 0x100) as u8,
                (c / 0x100) as u8, (c % 0x100) as u8,
                (d / 0x100) as u8, (d % 0x100) as u8,
                (e / 0x100) as u8, (e % 0x100) as u8,
                (f / 0x100) as u8, (f % 0x100) as u8,
                (g / 0x100) as u8, (g % 0x100) as u8,
                (h / 0x100) as u8, (h % 0x100) as u8,
            ],
    {
        let octets: [u8; 16] = [
            (a / 0x100) as u8,
            (a % 0x100) as u8,
            (b / 0x100) as u8,
            (b % 0x100) as u8,
            (c / 0x100) as u8,
            (c % 0x100) as u8,
            (d / 0x100) as u8,
            (d % 0x100) as u8,
            (e / 0x100) as u8,
            (e % 0x100) as u8,
            (f / 0x100) as u8,
            (f % 0x100) as u8,
            (g / 0x100) as u8,
            (g % 0x100) as u8,
            (h / 0x100) as u8,
            (h % 0x100) as u8,
        ];
        let r = Ipv6Address { octets };
        proof {
            assert(r@ =~= seq![
                (a / 0x100) as u8, (a % 0x100) as u8,
                (b / 0x100) as u8, (b % 0x100) as u8,
                (c / 0x100) as u8, (c % 0x100) as u8,
                (d / 0x100) as u8, (d % 0x100) as u8,
                (e / 0x100) as u8, (e % 0x100) as u8,
                (f / 0x100) as u8, (f % 0x100) as u8,
                (g / 0x100) as u8, (g % 0x100) as u8,
                (h / 0x100) as u8, (h % 0x100) as u8,
            ]);
        }
        r
    }

    /// Build an address directly from its 16 octets.
    pub fn from_octets(octets: [u8; 16]) -> (r: Ipv6Address)
        ensures
            r@ == octets@,
    {
        Ipv6Address { octets }
    }

    /// Whether the address is globally routable.
    pub fn is_global(&self) -> (r: bool)
        ensures
            r == is_global_address(self@),
    {
        let o = &self.octets;
        if o[0] == 0xff {
            // multicast
            return false;
        }
        if o[0] == 0xfe && (o[1] & 0xc0) == 0x80 {
            // link-local
            return false;
        }
        if (o[0] & 0xfe) == 0xfc {
            // unique local
            return false;
        }
        if o[0] == 0x20 && o[1] == 0x01 && o[2] == 0x0d && o[3] == 0xb8 {
            // documentation
            return false;
        }
        let mut leading_zero: usize = 0;
        while leading_zero < 10 && o[leading_zero] == 0
            invariant
                0 <= leading_zero <= 10,
                forall|k: int| 0 <= k < leading_zero ==> o@[k] == 0,
            decreases 10 - leading_zero,
        {
            leading_zero = leading_zero + 1;
        }
        if leading_zero == 10 {
            if o[10] == 0xff && o[11] == 0xff {
                // mapped from IPv4
                return false;
            }
            if o[10] == 0 && o[11] == 0 && o[12] == 0 && o[13] == 0 && o[14] == 0 && (o[15] == 0
                || o[15] == 1) {
                // unspecified or loopback
                return false;
            }
        }
        proof {
            if leading_zero < 10 {
                assert(o@[leading_zero as int] != 0);
            }
        }
        true
    }
}

/// Whether 16 address octets denote a globally routable address: not
/// unspecified, loopback, multicast, link-local, unique-local, mapped from
/// IPv4, or in the documentation range.
pub open spec fn is_global_address(o: Seq<u8>) -> bool {
    &&& o[0] != 0xff
    &&& !(o[0] == 0xfe && (o[1] & 0xc0) == 0x80)
    &&& (o[0] & 0xfe) != 0xfc
    &&& !(o[0] == 0x20 && o[1] == 0x01 && o[2] == 0x0d && o[3] == 0xb8)
    &&& !((forall|k: int| 0 <= k < 10 ==> o[k] == 0) && o[10] == 0xff && o[11] == 0xff)
    &&& !((forall|k: int| 0 <= k < 10 ==> o[k] == 0) && o[10] == 0 && o[11] == 0 && o[12] == 0
        && o[13] == 0 && o[14] == 0 && (o[15] == 0 || o[15] == 1))
}

/// One local network interface in a snapshot: its name and the IPv6
/// addresses currently assigned to it, in enumeration order.
pub struct InterfaceInfo {
    pub name: String,
    pub addrs: Vec<Ipv6Address>,
}

/// The first globally routable address in `addrs`.
pub open spec fn first_global(addrs: Seq<Ipv6Address>) -> Option<Ipv6Address>
    decreases addrs.len(),
{
    if addrs.len() == 0 {
        None
    } else if is_global_address(addrs[0]@) {
        Some(addrs[0])
    } else {
        first_global(addrs.skip(1))
    }
}

/// The first globally routable address on the first interface named `want`
/// that carries one, walking the snapshot in order.
pub open spec fn first_global_on(ifaces: Seq<InterfaceInfo>, want: Seq<char>) -> Option<
    Ipv6Address,
>
    decreases ifaces.len(),
{
    if ifaces.len() == 0 {
        None
    } else if ifaces[0].name@ == want && first_global(ifaces[0].addrs@) is Some {
        first_global(ifaces[0].addrs@)
    } else {
        first_global_on(ifaces.skip(1), want)
    }
}

/// Select the address to advertise from an interface snapshot: the first
/// globally routable IPv6 address on the interface named `want`, or `None`
/// when no such address is assigned.
pub fn pick_global_address(ifaces: &Vec<InterfaceInfo>, want: &String) -> (r: Option<
    Ipv6Address,
>)
    ensures
        r == first_global_on(ifaces@, want@),
{
    let n = ifaces.len();
    let mut i: usize = 0;
    proof {
        assert(ifaces@.skip(0) =~= ifaces@);
    }
    while i < n
        invariant
            0 <= i <= n,
            n == ifaces@.len(),
            first_global_on(ifaces@, want@) == first_global_on(ifaces@.skip(i as int), want@),
        decreases n - i,
    {
        let ghost pre = ifaces@.skip(i as int);
        proof {
            assert(pre[0] == ifaces@[i as int]);
            assert(pre.skip(1) =~= ifaces@.skip(i as int + 1));
        }
        let iface = &ifaces[i];
        if iface.name == *want {
            let found = first_global_in(&iface.addrs);
            if found.is_some() {
                return found;
            }
        }
        i = i + 1;
    }
    proof {
        assert(ifaces@.skip(n as int) =~= Seq::<InterfaceInfo>::empty());
    }
    None
}

/// The first globally routable address in `addrs`, scanned front to back.
fn first_global_in(addrs: &Vec<Ipv6Address>) -> (r: Option<Ipv6Address>)
    ensures
        r == first_global(addrs@),
{
    let n = addrs.len();
    let mut i: usize = 0;
    proof {
        assert(addrs@.skip(0) =~= addrs@);
    }
    while i < n
        invariant
            0 <= i <= n,
            n == addrs@.len(),
            first_global(addrs@) == first_global(addrs@.skip(i as int)),
        decreases n - i,
    {
        let ghost pre = addrs@.skip(i as int);
        proof {
            assert(pre[0] == addrs@[i as int]);
            assert(pre.skip(1) =~= addrs@.skip(i as int + 1));
        }
        let a = addrs[i];
        if a.is_global() {
            return Some(a);
        }
        i = i + 1;
    }
    proof {
        assert(addrs@.skip(n as int) =~= Seq::<Ipv6Address>::empty());
    }
    None
}

} // verus!
