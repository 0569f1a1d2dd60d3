use crate::ip_locator::{ipv4_text, ipv6_text, toIPv4string, toIPv6string};
use crate::text::{dec_str, push_dec};
use vstd::prelude::*;
use vstd::string::StringExecFns;

verus! {

/// Invalid locator kind
pub const LOCATOR_KIND_INVALID: i32 = -1;

/// Invalid locator port
pub const LOCATOR_PORT_INVALID: u32 = 0;

/// Reserved locator kind
pub const LOCATOR_KIND_RESERVED: i32 = 0;

/// UDP over IPv4 locator kind
pub const LOCATOR_KIND_UDPv4: i32 = 1;

/// UDP over IPv6 locator kind
pub const LOCATOR_KIND_UDPv6: i32 = 2;

/// TCP over IPv4 kind
pub const LOCATOR_KIND_TCPv4: i32 = 4;

/// TCP over IPv6 locator kind
pub const LOCATOR_KIND_TCPv6: i32 = 8;

/// Shared memory locator kind
pub const LOCATOR_KIND_SHM: i32 = 16;

/// Whether the kind carries an IPv4 address.
pub open spec fn is_v4_kind(kind: i32) -> bool {
    kind == LOCATOR_KIND_UDPv4 || kind == LOCATOR_KIND_TCPv4
}

/// Whether the kind carries an IPv6 address.
pub open spec fn is_v6_kind(kind: i32) -> bool {
    kind == LOCATOR_KIND_UDPv6 || kind == LOCATOR_KIND_TCPv6
}

/// The name a kind is written with.
pub open spec fn kind_name(kind: i32) -> Seq<char> {
    if kind == LOCATOR_KIND_TCPv4 {
        seq!['T', 'C', 'P', 'v', '4']
    } else if kind == LOCATOR_KIND_UDPv4 {
        seq!['U', 'D', 'P', 'v', '4']
    } else if kind == LOCATOR_KIND_TCPv6 {
        seq!['T', 'C', 'P', 'v', '6']
    } else if kind == LOCATOR_KIND_UDPv6 {
        seq!['U', 'D', 'P', 'v', '6']
    } else if kind == LOCATOR_KIND_SHM {
        seq!['S', 'H', 'M']
    } else {
        seq!['I', 'n', 'v', 'a', 'l', 'i', 'd', '_', 'l', 'o', 'c', 'a', 't', 'o', 'r']
    }
}

/// Whether the kind is one that has a name.
pub open spec fn is_named_kind(kind: i32) -> bool {
    is_v4_kind(kind) || is_v6_kind(kind) || kind == LOCATOR_KIND_SHM
}

/// How the address is written: IPv4 or IPv6 text by the kind; for shared
/// memory `M` when the first byte is `M`; `_` otherwise.
pub open spec fn address_text(loc: Locator_t) -> Seq<char> {
    if is_v4_kind(loc.kind) {
        ipv4_text(loc.address@)
    } else if is_v6_kind(loc.kind) {
        ipv6_text(loc.address@)
    } else if loc.kind == LOCATOR_KIND_SHM && loc.address@[0] == 77 {
        seq!['M']
    } else {
        seq!['_']
    }
}

/// The text of a locator, `kind:[address]:port`; a kind without a name is
/// written with port 0.
pub open spec fn locator_text(loc: Locator_t) -> Seq<char> {
    kind_name(loc.kind) + seq![':', '['] + address_text(loc) + seq![']', ':'] + dec_str(
        if is_named_kind(loc.kind) {
            loc.port as nat
        } else {
            0
        },
    )
}

/// Where an endpoint can be reached: a transport kind, a port and a 16-byte
/// address (an IPv4 address sits in the last four bytes).
#[derive(Copy, Clone, Debug, PartialEq, Eq, PartialOrd, Ord, Hash)]
pub struct Locator_t {
    pub kind: i32,
    pub port: u32,
    pub address: [u8; 16],
}

impl Default for Locator_t {
    fn default() -> (r: Self)
        ensures
            r.kind == LOCATOR_KIND_UDPv4,
            r.port == 0,
            forall|i: int| 0 <= i < 16 ==> r.address@[i] == 0,
    {
        Locator_t { kind: LOCATOR_KIND_UDPv4, port: 0, address: [0u8; 16] }
    }
}

impl Locator_t {
    pub fn new(kind: i32, port: u32, address: [u8; 16]) -> (r: Self)
        ensures
            r.kind == kind,
            r.port == port,
            r.address == address,
    {
        Locator_t { kind, port, address }
    }

    /// A UDPv4 locator on `port` with a zero address.
    pub fn new_from_port(port: u32) -> (r: Self)
        ensures
            r.kind == LOCATOR_KIND_UDPv4,
            r.port == port,
            forall|i: int| 0 <= i < 16 ==> r.address@[i] == 0,
    {
        Locator_t { kind: LOCATOR_KIND_UDPv4, port, address: [0u8; 16] }
    }

    /// A locator of `kind` on `port` with a zero address.
    pub fn new_from_kind_port(kind: i32, port: u32) -> (r: Self)
        ensures
            r.kind == kind,
            r.port == port,
            forall|i: int| 0 <= i < 16 ==> r.address@[i] == 0,
    {
        Locator_t { kind, port, address: [0u8; 16] }
    }

    /// Takes the address of `other`; always returns true.
    pub fn set_address(&mut self, other: &Self) -> (r: bool)
        ensures
            r,
            final(self).address == other.address,
            final(self).kind == old(self).kind,
            final(self).port == old(self).port,
    {
        self.address = other.address;
        true
    }

    /// The address, for reading or writing in place.
    pub fn get_address(&mut self) -> (r: &mut [u8; 16])
        ensures
            *r == old(self).address,
            final(self).address == *final(r),
            final(self).kind == old(self).kind,
            final(self).port == old(self).port,
    {
        &mut self.address
    }

    /// One byte of the address.
    pub fn get_address_by_field(&self, field: usize) -> (r: u8)
        requires
            field < 16,
        ensures
            r == self.address@[field as int],
    {
        self.address[field]
    }

    /// Sets the address to all zeros.
    pub fn set_Invalid_Address(&mut self)
        ensures
            forall|i: int| 0 <= i < 16 ==> final(self).address@[i] == 0,
            final(self).kind == old(self).kind,
            final(self).port == old(self).port,
    {
        self.address = [0u8; 16];
    }

    /// The text of the locator, `kind:[address]:port`.
    pub fn to_string(&self) -> (r: String)
        ensures
            r@ == locator_text(*self),
    {
        let mut port = self.port;
        let kind: &str = if self.kind == LOCATOR_KIND_TCPv4 {
            proof {
                reveal_strlit("TCPv4");
            }
            "TCPv4"
        } else if self.kind == LOCATOR_KIND_UDPv4 {
            proof {
                reveal_strlit("UDPv4");
            }
            "UDPv4"
        } else if self.kind == LOCATOR_KIND_TCPv6 {
            proof {
                reveal_strlit("TCPv6");
            }
            "TCPv6"
        } else if self.kind == LOCATOR_KIND_UDPv6 {
            proof {
                reveal_strlit("UDPv6");
            }
            "UDPv6"
        } else if self.kind == LOCATOR_KIND_SHM {
            proof {
                reveal_strlit("SHM");
            }
            "SHM"
        } else {
            port = 0;
            proof {
                reveal_strlit("Invalid_locator");
            }
            "Invalid_locator"
        };
        proof {
            reveal_strlit("M");
            reveal_strlit("_");
            reveal_strlit(":[");
            reveal_strlit("]:");
        }
        let address: String = if self.kind == LOCATOR_KIND_UDPv4 || self.kind == LOCATOR_KIND_TCPv4 {
            toIPv4string(self)
        } else if self.kind == LOCATOR_KIND_UDPv6 || self.kind == LOCATOR_KIND_TCPv6 {
            toIPv6string(self)
        } else if self.kind == LOCATOR_KIND_SHM {
            if self.address[0] == 77u8 {
                "M".to_owned()
            } else {
                "_".to_owned()
            }
        } else {
            "_".to_owned()
        };
        let mut s = String::new();
        s.append(kind);
        s.append(":[");
        s.append(address.as_str());
        s.append("]:");
        push_dec(&mut s, port);
        proof {
            assert(s@ =~= locator_text(*self));
        }
        s
    }

    /// Makes the locator invalid: invalid kind, invalid port, zero address.
    pub fn set_invalid(&mut self)
        ensures
            final(self).kind == LOCATOR_KIND_INVALID,
            final(self).port == LOCATOR_PORT_INVALID,
            forall|i: int| 0 <= i < 16 ==> final(self).address@[i] == 0,
    {
        self.kind = LOCATOR_KIND_INVALID;
        self.port = LOCATOR_PORT_INVALID;
        self.set_Invalid_Address();
    }
}

/// Whether the address is set: for an IPv4 kind, one of its last four bytes
/// is non-zero; for an IPv6 kind, one of its bytes is; other kinds have none.
pub fn IsAddressDefined(loc: &Locator_t) -> (r: bool)
    ensures
        r == ((is_v4_kind(loc.kind) && exists|i: int| 12 <= i < 16 && loc.address@[i] != 0) || (
        is_v6_kind(loc.kind) && exists|i: int| 0 <= i < 16 && loc.address@[i] != 0)),
{
    if loc.kind == LOCATOR_KIND_UDPv4 || loc.kind == LOCATOR_KIND_TCPv4 {
        let mut i: usize = 12;
        while i < 16
            invariant
                12 <= i <= 16,
                is_v4_kind(loc.kind),
                forall|k: int| 12 <= k < i ==> loc.address@[k] == 0,
            decreases 16 - i,
        {
            if loc.address[i] != 0 {
                proof {
                    assert(loc.address@[i as int] != 0);
                }
                return true;
            }
            i += 1;
        }
    } else if loc.kind == LOCATOR_KIND_UDPv6 || loc.kind == LOCATOR_KIND_TCPv6 {
        let mut i: usize = 0;
        while i < 16
            invariant
                i <= 16,
                is_v6_kind(loc.kind),
                forall|k: int| 0 <= k < i ==> loc.address@[k] == 0,
            decreases 16 - i,
        {
            if loc.address[i] != 0 {
                proof {
                    assert(loc.address@[i as int] != 0);
                }
                return true;
            }
            i += 1;
        }
    }
    false
}

/// Whether the kind is not the invalid one (it is not negative).
pub fn IsLocatorValid(loc: &Locator_t) -> (r: bool)
    ensures
        r == (0 <= loc.kind),
{
    0 <= loc.kind
}

} // verus!
