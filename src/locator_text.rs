use crate::error::RtpsError;
use crate::ip_check::{char_range, chars_of, first_from, lemma_first_from, substring_of};
use crate::locator::{
    kind_name, LOCATOR_KIND_INVALID, LOCATOR_KIND_SHM, LOCATOR_KIND_TCPv4, LOCATOR_KIND_TCPv6,
    LOCATOR_KIND_UDPv4, LOCATOR_KIND_UDPv6,
};
use vstd::prelude::*;

verus! {

/// The kind a name stands for; the invalid kind for an unknown name.
pub open spec fn kind_of_name(name: Seq<char>) -> i32 {
    if name == kind_name(LOCATOR_KIND_SHM) {
        LOCATOR_KIND_SHM
    } else if name == kind_name(LOCATOR_KIND_TCPv4) {
        LOCATOR_KIND_TCPv4
    } else if name == kind_name(LOCATOR_KIND_TCPv6) {
        LOCATOR_KIND_TCPv6
    } else if name == kind_name(LOCATOR_KIND_UDPv4) {
        LOCATOR_KIND_UDPv4
    } else if name == kind_name(LOCATOR_KIND_UDPv6) {
        LOCATOR_KIND_UDPv6
    } else {
        LOCATOR_KIND_INVALID
    }
}

/// The index of the first `]:` at or after `i`; the length if there is none.
pub open spec fn port_mark_from(s: Seq<char>, i: int) -> int
    decreases s.len() - i,
{
    if i + 1 >= s.len() {
        s.len() as int
    } else if s[i] == ']' && s[i + 1] == ':' {
        i
    } else {
        port_mark_from(s, i + 1)
    }
}

/// The parts of a locator's text `kind:[address]:port`.
pub struct LocatorParts {
    pub kind: i32,
    pub address: String,
    /// The text after `]:`, when there is one.
    pub port: Option<String>,
}

/// Whether `parts` are those of the text `s`: the kind named before the
/// first `:`, the address from two past it up to the first `]`, and the
/// port after the first `]:`, if any.
pub open spec fn parts_of(s: Seq<char>, parts: LocatorParts) -> bool {
    let c = first_from(s, ':', 0);
    let b = first_from(s, ']', 0);
    let m = port_mark_from(s, 0);
    &&& parts.kind == kind_of_name(s.subrange(0, c))
    &&& parts.address@ == char_range(s, c + 2, b)
    &&& m < s.len() ==> (parts.port matches Some(p) && p@ == char_range(s, m + 2, s.len() as int))
    &&& m == s.len() ==> parts.port is None
}

/// The index of the first `c` in `chars` at or after `from`.
fn find_char(chars: &Vec<char>, c: char, from: usize) -> (r: usize)
    requires
        from <= chars@.len(),
    ensures
        r == first_from(chars@, c, from as int),
{
    let mut i = from;
    while i < chars.len() && chars[i] != c
        invariant
            from <= i <= chars@.len(),
            first_from(chars@, c, i as int) == first_from(chars@, c, from as int),
        decreases chars.len() - i,
    {
        i += 1;
    }
    i
}

/// The index of the first `]:` in `chars`.
fn find_port_mark(chars: &Vec<char>) -> (r: usize)
    ensures
        r == port_mark_from(chars@, 0),
{
    let mut i: usize = 0;
    while i < chars.len() && i + 1 < chars.len() && !(chars[i] == ']' && chars[i + 1] == ':')
        invariant
            i <= chars@.len(),
            port_mark_from(chars@, i as int) == port_mark_from(chars@, 0),
        decreases chars.len() - i,
    {
        i += 1;
    }
    if i >= chars.len() || i + 1 >= chars.len() {
        chars.len()
    } else {
        i
    }
}

/// Whether the characters of `a` are those of `w`.
fn same_chars(a: &Vec<char>, w: &str) -> (r: bool)
    ensures
        r == (a@ == w@),
{
    let b = chars_of(w);
    if a.len() != b.len() {
        return false;
    }
    let mut i: usize = 0;
    while i < a.len()
        invariant
            a@.len() == b@.len(),
            b@ == w@,
            i <= a@.len(),
            forall|k: int| 0 <= k < i ==> a@[k] == b@[k],
        decreases a.len() - i,
    {
        if a[i] != b[i] {
            return false;
        }
        i += 1;
    }
    proof {
        assert(a@ =~= b@);
    }
    true
}

/// The kind a name stands for.
fn kind_from_name(name: &Vec<char>) -> (r: i32)
    ensures
        r == kind_of_name(name@),
{
    proof {
        reveal_strlit("SHM");
        reveal_strlit("TCPv4");
        reveal_strlit("TCPv6");
        reveal_strlit("UDPv4");
        reveal_strlit("UDPv6");
        assert("SHM"@ =~= kind_name(LOCATOR_KIND_SHM));
        assert("TCPv4"@ =~= kind_name(LOCATOR_KIND_TCPv4));
        assert("TCPv6"@ =~= kind_name(LOCATOR_KIND_TCPv6));
        assert("UDPv4"@ =~= kind_name(LOCATOR_KIND_UDPv4));
        assert("UDPv6"@ =~= kind_name(LOCATOR_KIND_UDPv6));
    }
    if same_chars(name, "SHM") {
        LOCATOR_KIND_SHM
    } else if same_chars(name, "TCPv4") {
        LOCATOR_KIND_TCPv4
    } else if same_chars(name, "TCPv6") {
        LOCATOR_KIND_TCPv6
    } else if same_chars(name, "UDPv4") {
        LOCATOR_KIND_UDPv4
    } else if same_chars(name, "UDPv6") {
        LOCATOR_KIND_UDPv6
    } else {
        LOCATOR_KIND_INVALID
    }
}

/// Splits a locator's text `kind:[address]:port`: the kind is the text
/// before the first `:`, the address runs from two past it to the first `]`,
/// and the port is what follows the first `]:`. Fails when there is no `:`
/// or no `]`.
pub fn split_locator(s: &str) -> (r: Result<LocatorParts, RtpsError>)
    ensures
        first_from(s@, ':', 0) == s@.len() ==> (r matches Err(e) && e.details() == seq![
            'P',
            'a',
            'r',
            's',
            'e',
            ' ',
            'k',
            'i',
            'n',
            'd',
        ]),
        first_from(s@, ':', 0) < s@.len() && first_from(s@, ']', 0) == s@.len() ==> (r matches Err(
            e,
        ) && e.details() == seq!['G', 'e', 't', ' ', 'a', 'd', 'd', 'r', 'e', 's', 's']),
        first_from(s@, ':', 0) < s@.len() && first_from(s@, ']', 0) < s@.len() ==> (r matches Ok(
            parts,
        ) && parts_of(s@, parts)),
{
    let chars = chars_of(s);
    proof {
        lemma_first_from(s@, ':', 0);
        lemma_first_from(s@, ']', 0);
    }
    let c = find_char(&chars, ':', 0);
    if c == chars.len() {
        proof {
            reveal_strlit("Parse kind");
        }
        return Err(RtpsError::new("Parse kind"));
    }
    let kind_text = substring_of(s, 0, c);
    let kind_chars = chars_of(kind_text);
    proof {
        assert(vstd::math::min(0, s@.len() as int) == 0);
        assert(kind_chars@ =~= s@.subrange(0, c as int));
    }
    let kind = kind_from_name(&kind_chars);
    let b = find_char(&chars, ']', 0);
    if b == chars.len() {
        proof {
            reveal_strlit("Get address");
        }
        return Err(RtpsError::new("Get address"));
    }
    let address = substring_of(s, c.saturating_add(2), b).to_owned();
    let m = find_port_mark(&chars);
    let port = if m < chars.len() {
        Some(substring_of(s, m.saturating_add(2), chars.len()).to_owned())
    } else {
        None
    };
    Ok(LocatorParts { kind, address, port })
}

} // verus!
