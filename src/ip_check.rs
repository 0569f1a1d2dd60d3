use substring::Substring;
use vstd::prelude::*;
use vstd::std_specs::iter::IteratorSpec;

verus! {

broadcast use vstd::string::axiom_spec_iter, vstd::string::next_postcondition;

/// Whether `pattern` compiles as a regular expression of the `regex` crate.
pub uninterp spec fn regex_valid(pattern: Seq<char>) -> bool;

/// Whether the regular expression `pattern` matches somewhere in `text`, as
/// the `regex` crate decides it.
pub uninterp spec fn regex_match(pattern: Seq<char>, text: Seq<char>) -> bool;

/// Relies on regex's `Regex::new` and `Regex::is_match`: compiling succeeds or
/// not by the pattern alone, and whether it matches depends on the pattern
/// and the text alone.
#[verifier::external_body]
fn regex_is_match(pattern: &str, text: &str) -> (r: Option<bool>)
    ensures
        r is Some <==> regex_valid(pattern@),
        r matches Some(b) ==> b == regex_match(pattern@, text@),
{
    match regex::Regex::new(pattern) {
        Ok(re) => Some(re.is_match(text)),
        Err(_) => None,
    }
}

/// The characters of `s` from index `start` up to `end`, both clamped to its
/// length; none when `end <= start`.
pub open spec fn char_range(s: Seq<char>, start: int, end: int) -> Seq<char> {
    if end <= start {
        seq![]
    } else {
        s.subrange(vstd::math::min(start, s.len() as int), vstd::math::min(end, s.len() as int))
    }
}

/// Relies on substring's `Substring::substring`: the characters from index
/// `start` up to `end`, clamped to the length, empty when `end <= start`.
#[verifier::external_body]
pub(crate) fn substring_of(s: &str, start: usize, end: usize) -> (r: &str)
    ensures
        r@ == char_range(s@, start as int, end as int),
{
    s.substring(start, end)
}

/// The characters of `s`.
pub(crate) fn chars_of(s: &str) -> (r: Vec<char>)
    ensures
        r@ == s@,
{
    let mut it = s.chars();
    let mut out: Vec<char> = Vec::new();
    loop
        invariant
            out@ + it.remaining() == s@,
            it.decrease() is Some,
        ensures
            out@ == s@,
        decreases it.decrease()->0,
    {
        match it.next() {
            Some(c) => {
                out.push(c);
            },
            None => {
                break ;
            },
        }
    }
    out
}

/// Four dot-separated decimal numbers up to 255, each of one to three
/// digits.
pub const IPV4_PATTERN: &'static str = "^(?:(?:25[0-5]|2[0-4][0-9]|[01]?[0-9][0-9]?)\\.){3}(?:25[0-5]|2[0-4][0-9]|[01]?[0-9][0-9]?)$";

/// Up to four hexadecimal digits.
pub const IPV6_QUARTET_PATTERN: &'static str = "^(?:[A-Fa-f0-9]){0,4}$";

/// Whether `address` is an IPv4 address in dotted decimal.
pub fn isIPv4(address: &str) -> (r: bool)
    ensures
        r == (regex_valid(IPV4_PATTERN@) && regex_match(IPV4_PATTERN@, address@)),
{
    match regex_is_match(IPV4_PATTERN, address) {
        Some(b) => b,
        None => false,
    }
}

/// The number of `:` in `a`.
pub open spec fn colon_count(a: Seq<char>) -> nat
    decreases a.len(),
{
    if a.len() == 0 {
        0
    } else {
        colon_count(a.drop_last()) + if a.last() == ':' {
            1nat
        } else {
            0
        }
    }
}

/// Whether `::` starts at index `i`.
pub open spec fn double_colon_at(a: Seq<char>, i: int) -> bool {
    0 <= i && i + 1 < a.len() && a[i] == ':' && a[i + 1] == ':'
}

/// Whether `a[i..j]` is one of the `:`-separated pieces of `a`.
pub open spec fn is_piece(a: Seq<char>, i: int, j: int) -> bool {
    &&& 0 <= i <= j <= a.len()
    &&& i == 0 || a[i - 1] == ':'
    &&& j == a.len() || a[j] == ':'
    &&& forall|k: int| i <= k < j ==> a[k] != ':'
}

/// The index of the first `c` at or after `i`; the length if there is none.
pub open spec fn first_from(s: Seq<char>, c: char, i: int) -> int
    decreases s.len() - i,
{
    if i >= s.len() {
        s.len() as int
    } else if s[i] == c {
        i
    } else {
        first_from(s, c, i + 1)
    }
}

/// The part of an address before an interface suffix `%...`.
pub open spec fn without_zone(s: Seq<char>) -> Seq<char> {
    s.subrange(0, first_from(s, '%', 0))
}

/// The shape an IPv6 address must have: two to eight `:`, eight only next
/// to a `::` at either end, at most one `::`, no lone `:` at either end, and
/// every non-empty piece up to four hexadecimal digits.
pub open spec fn ipv6_shape(a: Seq<char>) -> bool {
    let n = colon_count(a);
    &&& 2 <= n <= 8
    &&& n == 8 ==> (a[0] == ':' || a[a.len() - 1] == ':')
    &&& !(exists|p: int, q: int| p < q && double_colon_at(a, p) && double_colon_at(a, q))
    &&& !(a[0] == ':' && a[1] != ':')
    &&& !(a[a.len() - 1] == ':' && a[a.len() - 2] != ':')
    &&& regex_valid(IPV6_QUARTET_PATTERN@)
    &&& forall|i: int, j: int|
        i < j && #[trigger] is_piece(a, i, j) ==> regex_match(
            IPV6_QUARTET_PATTERN@,
            a.subrange(i, j),
        )
}

pub proof fn lemma_first_from(s: Seq<char>, c: char, i: int)
    requires
        0 <= i <= s.len(),
    ensures
        i <= first_from(s, c, i) <= s.len(),
        first_from(s, c, i) < s.len() ==> s[first_from(s, c, i)] == c,
        forall|k: int| i <= k < first_from(s, c, i) ==> s[k] != c,
    decreases s.len() - i,
{
    if i < s.len() && s[i] != c {
        lemma_first_from(s, c, i + 1);
    }
}

proof fn lemma_colon_count_push(a: Seq<char>, i: int)
    requires
        0 <= i < a.len(),
    ensures
        colon_count(a.subrange(0, i + 1)) == colon_count(a.subrange(0, i)) + if a[i] == ':' {
            1nat
        } else {
            0
        },
{
    assert(a.subrange(0, i + 1).drop_last() =~= a.subrange(0, i));
}

proof fn lemma_colon_count_len(a: Seq<char>)
    ensures
        colon_count(a) <= a.len(),
    decreases a.len(),
{
    if a.len() > 0 {
        lemma_colon_count_len(a.drop_last());
    }
}

/// Whether `ipv6` is an IPv6 address (with an optional `%` interface
/// suffix) in the shape that `ipv6_shape` describes.
pub fn IPv6isCorrect(ipv6: &str) -> (r: bool)
    ensures
        r == ipv6_shape(without_zone(ipv6@)),
{
    let chars = chars_of(ipv6);
    let mut pos: usize = 0;
    proof {
        lemma_first_from(ipv6@, '%', 0);
    }
    while pos < chars.len() && chars[pos] != '%'
        invariant
            chars@ == ipv6@,
            pos <= chars.len(),
            pos <= first_from(ipv6@, '%', 0),
            first_from(ipv6@, '%', pos as int) == first_from(ipv6@, '%', 0),
        decreases chars.len() - pos,
    {
        proof {
            lemma_first_from(ipv6@, '%', pos + 1);
        }
        pos += 1;
    }
    let address = substring_of(ipv6, 0, pos);
    let a = chars_of(address);
    let ghost sa = a@;
    proof {
        assert(sa =~= without_zone(ipv6@));
    }
    let n = a.len();
    let mut count: usize = 0;
    let mut i: usize = 0;
    while i < n
        invariant
            a@ == sa,
            n == sa.len(),
            i <= n,
            count == colon_count(sa.subrange(0, i as int)),
            count <= i,
        decreases n - i,
    {
        proof {
            lemma_colon_count_push(sa, i as int);
        }
        if a[i] == ':' {
            count += 1;
        }
        i += 1;
    }
    proof {
        assert(sa.subrange(0, n as int) =~= sa);
    }
    if count < 2 || count > 8 {
        return false;
    }
    proof {
        lemma_colon_count_len(sa);
    }
    if count == 8 && a[0] != ':' && a[n - 1] != ':' {
        return false;
    }
    let mut found: bool = false;
    let mut first: usize = 0;
    i = 0;
    while i + 1 < n
        invariant
            a@ == sa,
            sa == without_zone(ipv6@),
            n == sa.len(),
            n >= 2,
            i + 1 <= n,
            found ==> first < i && double_colon_at(sa, first as int),
            forall|p: int, q: int|
                p < q < i && double_colon_at(sa, p) && double_colon_at(sa, q) ==> false,
            !found ==> forall|p: int| 0 <= p < i ==> !double_colon_at(sa, p),
        decreases n - i,
    {
        if a[i] == ':' && a[i + 1] == ':' {
            if found {
                proof {
                    assert(double_colon_at(sa, first as int) && double_colon_at(sa, i as int));
                    assert(!ipv6_shape(sa));
                }
                return false;
            }
            found = true;
            first = i;
        }
        i += 1;
    }
    proof {
        assert forall|p: int, q: int| p < q && double_colon_at(sa, p) && double_colon_at(
            sa,
            q,
        ) implies false by {
            assert(q < i);
        }
    }
    if a[0] == ':' && a[1] != ':' {
        return false;
    }
    if a[n - 1] == ':' && a[n - 2] != ':' {
        return false;
    }
    if regex_is_match(IPV6_QUARTET_PATTERN, address).is_none() {
        return false;
    }
    let mut start: usize = 0;
    i = 0;
    while i < n
        invariant
            a@ == sa,
            address@ == sa,
            sa == without_zone(ipv6@),
            n == sa.len(),
            start <= i <= n,
            start == 0 || sa[start - 1] == ':',
            forall|k: int| start <= k < i ==> sa[k] != ':',
            regex_valid(IPV6_QUARTET_PATTERN@),
            forall|p: int, q: int|
                p < q && q < i && #[trigger] is_piece(sa, p, q) ==> regex_match(
                    IPV6_QUARTET_PATTERN@,
                    sa.subrange(p, q),
                ),
        decreases n - i,
    {
        if a[i] == ':' {
            if !piece_ok(address, start, i) {
                proof {
                    assert(is_piece(sa, start as int, i as int));
                }
                return false;
            }
            proof {
                lemma_piece_start(sa, start as int, i as int);
            }
            start = i + 1;
        }
        i += 1;
    }
    if !piece_ok(address, start, n) {
        proof {
            assert(is_piece(sa, start as int, n as int));
        }
        return false;
    }
    proof {
        lemma_piece_start(sa, start as int, n as int);
    }
    true
}

/// A piece that ends at `q` starts at `start` when `start` follows a `:` (or
/// is 0) and no `:` lies between.
proof fn lemma_piece_start(sa: Seq<char>, start: int, q: int)
    requires
        0 <= start <= q <= sa.len(),
        start == 0 || sa[start - 1] == ':',
        forall|k: int| start <= k < q ==> sa[k] != ':',
    ensures
        forall|p: int| #[trigger] is_piece(sa, p, q) ==> p == start,
{
    assert forall|p: int| #[trigger] is_piece(sa, p, q) implies p == start by {
        if p < start {
            assert(sa[start - 1] == ':');
        }
        if p > start {
            assert(sa[p - 1] == ':');
        }
    }
}

/// Whether the piece `address[start..end]` is empty or matches the quartet
/// pattern.
fn piece_ok(address: &str, start: usize, end: usize) -> (r: bool)
    requires
        start <= end <= address@.len(),
        regex_valid(IPV6_QUARTET_PATTERN@),
    ensures
        r == (start == end || regex_match(
            IPV6_QUARTET_PATTERN@,
            address@.subrange(start as int, end as int),
        )),
{
    if start == end {
        return true;
    }
    let piece = substring_of(address, start, end);
    proof {
        assert(vstd::math::min(start as int, address@.len() as int) == start);
        assert(vstd::math::min(end as int, address@.len() as int) == end);
        assert(piece@ =~= address@.subrange(start as int, end as int));
    }
    match regex_is_match(IPV6_QUARTET_PATTERN, piece) {
        Some(b) => b,
        None => false,
    }
}

/// Whether `address` is an IPv6 address.
pub fn isIPv6(address: &str) -> (r: bool)
    ensures
        r == ipv6_shape(without_zone(address@)),
{
    IPv6isCorrect(address)
}

} // verus!
