//! IP and socket addresses, and the textual form of an IPv4 socket address.
use vstd::prelude::*;

verus! {

/// An IP address: four octets for IPv4, the 128-bit value for IPv6.
#[derive(Clone, Copy, Debug, PartialEq, Eq, Hash, Structural)]
pub enum IpAddress {
    V4(u8, u8, u8, u8),
    V6(u128),
}

/// An IP address together with a port.
#[derive(Clone, Copy, Debug, PartialEq, Eq, Hash, Structural)]
pub struct SocketAddress {
    pub ip: IpAddress,
    pub port: u16,
}

pub open spec fn is_digit(c: char) -> bool {
    '0' <= c && c <= '9'
}

pub open spec fn digit_value(c: char) -> nat {
    ((c as u32) - ('0' as u32)) as nat
}

/// The character of digit `d` (below 16): `0`-`9`, then `a`-`f`.
pub open spec fn radix_digit(d: nat) -> char {
    if d < 10 {
        (('0' as u32) + d) as char
    } else {
        (('a' as u32) + d - 10) as char
    }
}

/// Every character is a decimal digit.
pub open spec fn all_digits(d: Seq<char>) -> bool {
    forall|i: int| 0 <= i < d.len() ==> is_digit(#[trigger] d[i])
}

/// The number written by a string of decimal digits.
pub open spec fn digits_value(d: Seq<char>) -> nat
    decreases d.len(),
{
    if d.len() == 0 {
        0
    } else {
        digits_value(d.drop_last()) * 10 + digit_value(d.last())
    }
}

/// The shortest decimal form of `n`.
pub open spec fn decimal(n: nat) -> Seq<char>
    decreases n,
{
    if n < 10 {
        seq![radix_digit(n)]
    } else {
        decimal(n / 10).push(radix_digit(n % 10))
    }
}

/// The shortest lower-case hexadecimal form of `n`.
pub open spec fn hex(n: nat) -> Seq<char>
    decreases n,
{
    if n < 16 {
        seq![radix_digit(n)]
    } else {
        hex(n / 16).push(radix_digit(n % 16))
    }
}

/// The octets of an IPv4 address, most significant first (none for IPv6).
pub open spec fn v4_octets(ip: IpAddress) -> Seq<u8> {
    match ip {
        IpAddress::V4(a, b, c, d) => seq![a, b, c, d],
        IpAddress::V6(_) => Seq::empty(),
    }
}

/// The separator written after octet `k` in a socket address: dots between
/// octets, a colon before the port.
pub open spec fn separator(k: int) -> char {
    if k < 3 {
        '.'
    } else {
        ':'
    }
}

/// The first `k` octets of `os` in decimal, each followed by its separator.
pub open spec fn dotted_prefix(os: Seq<u8>, k: nat) -> Seq<char>
    decreases k,
{
    if k == 0 {
        Seq::empty()
    } else {
        dotted_prefix(os, (k - 1) as nat) + decimal(os[k - 1] as nat) + seq![separator(k - 1)]
    }
}

/// `s` is the textual form of the IPv4 socket address `a`: the four octets in
/// shortest decimal separated by dots, a colon, and the port as a non-empty run
/// of decimal digits (leading zeros are allowed in the port only).
pub open spec fn socket_text_of(s: Seq<char>, a: SocketAddress) -> bool {
    let head = dotted_prefix(v4_octets(a.ip), 4);
    &&& a.ip is V4
    &&& s.len() > head.len()
    &&& s.subrange(0, head.len() as int) == head
    &&& all_digits(s.subrange(head.len() as int, s.len() as int))
    &&& digits_value(s.subrange(head.len() as int, s.len() as int)) == a.port as nat
}

/// Group `k` (0 to 7) of an IPv6 address, most significant first.
pub open spec fn v6_group(bits: u128, k: nat) -> nat {
    ((bits >> (((7 - k) * 16) as u128)) & 0xffff) as nat
}

/// The eight groups of an IPv6 address, most significant first.
pub open spec fn v6_groups(bits: u128) -> Seq<nat> {
    Seq::new(8, |k: int| v6_group(bits, k as nat))
}

/// Groups in hexadecimal, joined by colons.
pub open spec fn hex_join(g: Seq<nat>) -> Seq<char>
    decreases g.len(),
{
    if g.len() == 0 {
        Seq::empty()
    } else if g.len() == 1 {
        hex(g[0])
    } else {
        hex_join(g.drop_last()) + seq![':'] + hex(g.last())
    }
}

/// The length of the run of zero groups that starts at `i`.
pub open spec fn zero_run(g: Seq<nat>, i: int) -> nat
    decreases g.len() - i,
{
    if 0 <= i < g.len() && g[i] == 0 {
        1 + zero_run(g, i + 1)
    } else {
        0
    }
}

/// The start of the longest run of zero groups among the starts below `k`,
/// the first of equally long runs.
pub open spec fn longest_zero_run(g: Seq<nat>, k: int) -> int
    decreases k,
{
    if k <= 1 {
        0
    } else {
        let b = longest_zero_run(g, k - 1);
        if zero_run(g, k - 1) > zero_run(g, b) {
            k - 1
        } else {
            b
        }
    }
}

/// The text of IPv6 groups: the longest run of two or more zero groups (the
/// first of equals) written as `::`, the other groups in hexadecimal joined
/// by colons.
pub open spec fn v6_text(g: Seq<nat>) -> Seq<char> {
    let s = longest_zero_run(g, g.len() as int);
    let l = zero_run(g, s);
    if l >= 2 {
        hex_join(g.subrange(0, s)) + seq![':', ':'] + hex_join(g.subrange(s + l, g.len() as int))
    } else {
        hex_join(g)
    }
}

/// The canonical text of a socket address: `a.b.c.d:port` for IPv4, and for
/// IPv6 the groups in brackets with the longest run of zero groups written as
/// `::`, as in `[2001:db8::1]:port`.
pub open spec fn socket_canonical(a: SocketAddress) -> Seq<char> {
    match a.ip {
        IpAddress::V4(..) => dotted_prefix(v4_octets(a.ip), 4) + decimal(a.port as nat),
        IpAddress::V6(bits) => seq!['['] + v6_text(v6_groups(bits)) + seq![']', ':'] + decimal(
            a.port as nat,
        ),
    }
}

/// Relies on `String::push`: the character is appended.
pub assume_specification[ String::push ](s: &mut String, ch: char)
    ensures
        final(s)@ == old(s)@.push(ch),
;

/// The canonical text of an IPv4 socket address is read back as that address.
pub proof fn lemma_canonical_text_parses(a: SocketAddress)
    requires
        a.ip is V4,
    ensures
        socket_text_of(socket_canonical(a), a),
{
    let head = dotted_prefix(v4_octets(a.ip), 4);
    let s = socket_canonical(a);
    lemma_decimal(a.port as nat);
    assert(s.subrange(0, head.len() as int) =~= head);
    assert(s.subrange(head.len() as int, s.len() as int) =~= decimal(a.port as nat));
}

proof fn lemma_radix_digit(d: nat)
    requires
        d < 10,
    ensures
        is_digit(radix_digit(d)),
        digit_value(radix_digit(d)) == d,
{
}

proof fn lemma_digit_round_trip(c: char)
    requires
        is_digit(c),
    ensures
        radix_digit(digit_value(c)) == c,
        digit_value(c) < 10,
{
}

proof fn lemma_single_digit_value(c: char)
    ensures
        digits_value(seq![c]) == digit_value(c),
{
    let t = seq![c];
    assert(t.drop_last() =~= Seq::<char>::empty());
    assert(t.last() == c);
    assert(digits_value(t.drop_last()) == 0);
    assert(digits_value(t) == digits_value(t.drop_last()) * 10 + digit_value(t.last()));
}

/// Facts about the shortest decimal form.
proof fn lemma_decimal(n: nat)
    ensures
        decimal(n).len() >= 1,
        all_digits(decimal(n)),
        digits_value(decimal(n)) == n,
        n < 10 ==> decimal(n).len() == 1,
        n < 100 ==> decimal(n).len() <= 2,
        n < 1000 ==> decimal(n).len() <= 3,
        decimal(n)[0] == '0' ==> n == 0,
    decreases n,
{
    if n < 10 {
        lemma_radix_digit(n);
        lemma_single_digit_value(radix_digit(n));
    } else {
        lemma_decimal(n / 10);
        lemma_radix_digit(n % 10);
        let t = decimal(n);
        let h = decimal(n / 10);
        assert(t.drop_last() =~= h);
        assert forall|i: int| 0 <= i < t.len() implies is_digit(#[trigger] t[i]) by {
            if i < t.len() - 1 {
                assert(t[i] == h[i]);
            }
        }
        assert(t[0] == h[0]);
    }
}

/// A digit string without a leading zero is the shortest form of its value.
proof fn lemma_canonical_digits(t: Seq<char>)
    requires
        t.len() >= 1,
        all_digits(t),
        t.len() == 1 || t[0] != '0',
    ensures
        decimal(digits_value(t)) == t,
        t.len() > 1 ==> digits_value(t) >= 10,
    decreases t.len(),
{
    if t.len() == 1 {
        assert(is_digit(t[0]));
        lemma_digit_round_trip(t[0]);
        lemma_single_digit_value(t[0]);
        assert(t =~= seq![t[0]]);
    } else {
        let h = t.drop_last();
        assert(is_digit(t.last()));
        assert(all_digits(h)) by {
            assert forall|i: int| 0 <= i < h.len() implies is_digit(#[trigger] h[i]) by {
                assert(h[i] == t[i]);
            }
        }
        assert(h[0] == t[0]);
        lemma_canonical_digits(h);
        let v = digits_value(h);
        if h.len() == 1 {
            lemma_single_digit_value(h[0]);
            assert(h =~= seq![h[0]]);
            assert(v >= 1);
        }
        lemma_digit_round_trip(t.last());
        let w = digits_value(t);
        assert(w == v * 10 + digit_value(t.last()));
        assert(w / 10 == v);
        assert(w % 10 == digit_value(t.last()));
        assert(decimal(w) == decimal(v).push(radix_digit(digit_value(t.last()))));
        assert(decimal(w) =~= t);
    }
}

/// The value of a prefix of a digit string is at most the value of the whole.
proof fn lemma_prefix_value_le(t: Seq<char>, i: int)
    requires
        0 <= i <= t.len(),
    ensures
        digits_value(t.subrange(0, i)) <= digits_value(t),
    decreases t.len() - i,
{
    if i < t.len() {
        lemma_prefix_value_le(t, i + 1);
        assert(t.subrange(0, i + 1).drop_last() =~= t.subrange(0, i));
    } else {
        assert(t.subrange(0, i) =~= t);
    }
}

proof fn lemma_dotted_agree(a: Seq<u8>, b: Seq<u8>, k: nat)
    requires
        k <= a.len(),
        k <= b.len(),
        forall|j: int| 0 <= j < k ==> a[j] == b[j],
    ensures
        dotted_prefix(a, k) == dotted_prefix(b, k),
    decreases k,
{
    if k > 0 {
        lemma_dotted_agree(a, b, (k - 1) as nat);
    }
}

proof fn lemma_dotted_extends(os: Seq<u8>, k: nat, m: nat)
    requires
        k <= m,
    ensures
        dotted_prefix(os, k).len() <= dotted_prefix(os, m).len(),
        dotted_prefix(os, m).subrange(0, dotted_prefix(os, k).len() as int) == dotted_prefix(os, k),
    decreases m,
{
    if k == m {
        assert(dotted_prefix(os, m).subrange(0, dotted_prefix(os, k).len() as int) =~= dotted_prefix(os, k));
    } else {
        lemma_dotted_extends(os, k, (m - 1) as nat);
        let pk = dotted_prefix(os, k);
        let pm1 = dotted_prefix(os, (m - 1) as nat);
        let pm = dotted_prefix(os, m);
        assert(pm.subrange(0, pk.len() as int) =~= pm1.subrange(0, pk.len() as int));
    }
}

/// Where `a` is written in `s`, octet `k` stands at the end of the first `k`
/// octets and is followed by its separator.
proof fn lemma_octet_in_text(s: Seq<char>, a: SocketAddress, k: nat)
    requires
        socket_text_of(s, a),
        k < 4,
    ensures
        ({
            let os = v4_octets(a.ip);
            let p = dotted_prefix(os, k).len() as int;
            let d = decimal(os[k as int] as nat);
            let e = p + d.len();
            &&& e < s.len()
            &&& s.subrange(0, p) == dotted_prefix(os, k)
            &&& s.subrange(p, e) == d
            &&& s[e] == separator(k as int)
        }),
{
    let os = v4_octets(a.ip);
    let head = dotted_prefix(os, 4);
    lemma_dotted_extends(os, k, 4);
    lemma_dotted_extends(os, k + 1, 4);
    let pk = dotted_prefix(os, k);
    let pk1 = dotted_prefix(os, k + 1);
    let d = decimal(os[k as int] as nat);
    assert(pk1 == pk + d + seq![separator(k as int)]);
    assert(s.subrange(0, pk1.len() as int) == pk1) by {
        assert(s.subrange(0, pk1.len() as int) =~= head.subrange(0, pk1.len() as int));
    }
    assert(s.subrange(0, pk.len() as int) =~= pk) by {
        assert(s.subrange(0, pk.len() as int) =~= pk1.subrange(0, pk.len() as int));
    }
    let p = pk.len() as int;
    let e = p + d.len();
    assert(s.subrange(p, e) =~= d) by {
        assert(s.subrange(p, e) =~= pk1.subrange(p, e));
    }
    assert(s[e] == pk1[e]);
}

proof fn lemma_octets_agree(s: Seq<char>, a: SocketAddress, b: SocketAddress, k: nat)
    requires
        socket_text_of(s, a),
        socket_text_of(s, b),
        k <= 4,
    ensures
        forall|j: int| 0 <= j < k ==> v4_octets(a.ip)[j] == v4_octets(b.ip)[j],
    decreases k,
{
    if k > 0 {
        let j = (k - 1) as nat;
        lemma_octets_agree(s, a, b, j);
        let oa = v4_octets(a.ip);
        let ob = v4_octets(b.ip);
        lemma_octet_in_text(s, a, j);
        lemma_octet_in_text(s, b, j);
        lemma_dotted_agree(oa, ob, j);
        let p = dotted_prefix(oa, j).len() as int;
        let da = decimal(oa[j as int] as nat);
        let db = decimal(ob[j as int] as nat);
        lemma_decimal(oa[j as int] as nat);
        lemma_decimal(ob[j as int] as nat);
        if da.len() < db.len() {
            assert(s[p + da.len()] == s.subrange(p, p + db.len())[da.len() as int]);
            assert(is_digit(db[da.len() as int]));
        }
        if db.len() < da.len() {
            assert(s[p + db.len()] == s.subrange(p, p + da.len())[db.len() as int]);
            assert(is_digit(da[db.len() as int]));
        }
        assert(da =~= db) by {
            assert forall|i: int| 0 <= i < da.len() implies da[i] == db[i] by {
                assert(da[i] == s.subrange(p, p + da.len())[i]);
                assert(db[i] == s.subrange(p, p + db.len())[i]);
            }
        }
    }
}

/// A text names at most one IPv4 socket address.
pub proof fn lemma_socket_text_unique(s: Seq<char>, a: SocketAddress, b: SocketAddress)
    requires
        socket_text_of(s, a),
        socket_text_of(s, b),
    ensures
        a == b,
{
    lemma_octets_agree(s, a, b, 4);
    let oa = v4_octets(a.ip);
    let ob = v4_octets(b.ip);
    assert(oa[0] == ob[0] && oa[1] == ob[1] && oa[2] == ob[2] && oa[3] == ob[3]);
    assert(a.ip == b.ip);
}

/// The text of an IPv4 socket address starts with a digit and holds a colon.
pub proof fn lemma_socket_text_shape(s: Seq<char>, a: SocketAddress)
    requires
        socket_text_of(s, a),
    ensures
        s.len() > 0 && is_digit(s[0]),
        exists|i: int| 0 <= i < s.len() && s[i] == ':',
{
    let os = v4_octets(a.ip);
    let head = dotted_prefix(os, 4);
    lemma_dotted_extends(os, 1, 4);
    let p1 = dotted_prefix(os, 1);
    assert(p1 =~= decimal(os[0] as nat) + seq!['.']) by {
        assert(dotted_prefix(os, 0) =~= Seq::<char>::empty());
    }
    lemma_decimal(os[0] as nat);
    assert(head[0] == p1[0]);
    assert(s[0] == head[0]);
    assert(s[head.len() - 1] == head[head.len() - 1]);
}

pub(crate) fn is_digit_char(c: char) -> (r: bool)
    ensures
        r == is_digit(c),
{
    '0' <= c && c <= '9'
}

/// The end of the run of digits that starts at `start`.
pub(crate) fn scan_digits(s: &str, n: usize, start: usize) -> (end: usize)
    requires
        n == s@.len(),
        start <= n,
    ensures
        start <= end <= n,
        all_digits(s@.subrange(start as int, end as int)),
        end == n || !is_digit(s@[end as int]),
{
    let mut end = start;
    while end < n
        invariant
            start <= end <= n,
            n == s@.len(),
            all_digits(s@.subrange(start as int, end as int)),
        decreases n - end,
    {
        let c = s.get_char(end);
        if !is_digit_char(c) {
            return end;
        }
        assert(all_digits(s@.subrange(start as int, end + 1))) by {
            let t = s@.subrange(start as int, end + 1);
            assert forall|i: int| 0 <= i < t.len() implies is_digit(#[trigger] t[i]) by {
                if i < t.len() - 1 {
                    assert(t[i] == s@.subrange(start as int, end as int)[i]);
                }
            }
        }
        end = end + 1;
    }
    end
}

/// The value of the digits in `start..end`, or `None` if it exceeds `limit`.
pub(crate) fn digits_value_within(s: &str, start: usize, end: usize, limit: u64) -> (r: Option<u64>)
    requires
        start <= end <= s@.len(),
        all_digits(s@.subrange(start as int, end as int)),
        limit <= 0xffff_ffff,
    ensures
        match r {
            Some(v) => v as nat == digits_value(s@.subrange(start as int, end as int)) && v <= limit,
            None => digits_value(s@.subrange(start as int, end as int)) > limit,
        },
{
    let ghost t = s@.subrange(start as int, end as int);
    let mut acc: u64 = 0;
    let mut i = start;
    assert(s@.subrange(start as int, start as int) =~= Seq::<char>::empty());
    while i < end
        invariant
            start <= i <= end <= s@.len(),
            t == s@.subrange(start as int, end as int),
            all_digits(t),
            acc as nat == digits_value(s@.subrange(start as int, i as int)),
            acc <= limit,
            limit <= 0xffff_ffff,
        decreases end - i,
    {
        let c = s.get_char(i);
        assert(t[i - start] == c);
        assert(is_digit(c));
        let d = ((c as u32) - ('0' as u32)) as u64;
        let ghost next_run = s@.subrange(start as int, i + 1);
        assert(next_run.drop_last() =~= s@.subrange(start as int, i as int));
        assert(digits_value(next_run) == acc * 10 + d);
        let next = acc * 10 + d;
        if next > limit {
            proof {
                assert(t.subrange(0, i + 1 - start) =~= next_run);
                lemma_prefix_value_le(t, i + 1 - start);
            }
            return None;
        }
        acc = next;
        i = i + 1;
    }
    assert(s@.subrange(start as int, i as int) =~= t);
    Some(acc)
}

fn separator_char(k: usize) -> (r: char)
    ensures
        r == separator(k as int),
{
    if k < 3 {
        '.'
    } else {
        ':'
    }
}

/// Reads an IPv4 socket address written as `a.b.c.d:port`.
pub fn parse_socket_v4(s: &str) -> (r: Option<SocketAddress>)
    ensures
        match r {
            Some(a) => socket_text_of(s@, a),
            None => forall|a: SocketAddress| !socket_text_of(s@, a),
        },
{
    let n = s.unicode_len();
    let mut octets: Vec<u8> = Vec::new();
    let mut pos: usize = 0;
    let mut k: usize = 0;
    while k < 4
        invariant
            n == s@.len(),
            k <= 4,
            octets@.len() == k,
            pos <= n,
            s@.subrange(0, pos as int) == dotted_prefix(octets@, k as nat),
            forall|a: SocketAddress| #[trigger] socket_text_of(s@, a) ==> forall|j: int|
                0 <= j < k ==> octets@[j] == v4_octets(a.ip)[j],
        decreases 4 - k,
    {
        let end = scan_digits(s, n, pos);
        let ghost run = s@.subrange(pos as int, end as int);
        proof {
            assert forall|a: SocketAddress| #[trigger] socket_text_of(s@, a) implies ({
                let d = decimal(v4_octets(a.ip)[k as int] as nat);
                &&& end == pos + d.len()
                &&& run == d
                &&& end < n
                &&& s@[end as int] == separator(k as int)
            }) by {
                let os = v4_octets(a.ip);
                lemma_octet_in_text(s@, a, k as nat);
                lemma_dotted_agree(octets@, os, k as nat);
                let d = decimal(os[k as int] as nat);
                lemma_decimal(os[k as int] as nat);
                let p = pos as int;
                if end < p + d.len() {
                    assert(s@[end as int] == s@.subrange(p, p + d.len())[end - p]);
                }
                if end > p + d.len() {
                    assert(s@[p + d.len()] == run[d.len() as int]);
                }
                assert(run =~= d);
            }
        }
        let len = end - pos;
        if len == 0 || len > 3 || (len > 1 && s.get_char(pos) == '0') {
            proof {
                assert forall|a: SocketAddress| !socket_text_of(s@, a) by {
                    if socket_text_of(s@, a) {
                        lemma_decimal(v4_octets(a.ip)[k as int] as nat);
                        assert(run[0] == s@[pos as int]);
                    }
                }
            }
            return None;
        }
        let value = digits_value_within(s, pos, end, 255);
        if value.is_none() || end == n || s.get_char(end) != separator_char(k) {
            proof {
                assert forall|a: SocketAddress| !socket_text_of(s@, a) by {
                    if socket_text_of(s@, a) {
                        lemma_decimal(v4_octets(a.ip)[k as int] as nat);
                    }
                }
            }
            return None;
        }
        let v = value.unwrap();
        proof {
            assert(run[0] == s@[pos as int]);
            lemma_canonical_digits(run);
        }
        let ghost old_octets = octets@;
        octets.push(v as u8);
        proof {
            lemma_dotted_agree(old_octets, octets@, k as nat);
            assert(s@.subrange(0, end + 1) =~= s@.subrange(0, pos as int) + run + seq![separator(k as int)]);
            assert(forall|a: SocketAddress| #[trigger] socket_text_of(s@, a) ==> decimal(v4_octets(a.ip)[k as int] as nat) == run);
            assert forall|a: SocketAddress| #[trigger] socket_text_of(s@, a) implies forall|j: int|
                0 <= j < k + 1 ==> octets@[j] == v4_octets(a.ip)[j] by {
                lemma_decimal(v4_octets(a.ip)[k as int] as nat);
                assert(octets@[k as int] == v4_octets(a.ip)[k as int]);
            }
        }
        pos = end + 1;
        k = k + 1;
    }
    let ip = IpAddress::V4(octets[0], octets[1], octets[2], octets[3]);
    proof {
        assert(v4_octets(ip) =~= octets@);
    }
    if pos == n {
        return None;
    }
    let end = scan_digits(s, n, pos);
    if end != n {
        proof {
            assert forall|a: SocketAddress| !socket_text_of(s@, a) by {
                if socket_text_of(s@, a) {
                    lemma_dotted_agree(octets@, v4_octets(a.ip), 4);
                    assert(s@[end as int] == s@.subrange(pos as int, n as int)[end - pos]);
                }
            }
        }
        return None;
    }
    match digits_value_within(s, pos, n, 65535) {
        Some(port) => Some(SocketAddress { ip, port: port as u16 }),
        None => {
            proof {
                assert forall|a: SocketAddress| !socket_text_of(s@, a) by {
                    if socket_text_of(s@, a) {
                        lemma_dotted_agree(octets@, v4_octets(a.ip), 4);
                    }
                }
            }
            None
        },
    }
}

fn digit_of(d: u64) -> (c: char)
    requires
        d < 16,
    ensures
        c == radix_digit(d as nat),
{
    if d < 10 {
        ((d as u8) + 48u8) as char
    } else {
        ((d as u8) + 87u8) as char
    }
}

fn push_decimal(out: &mut String, n: u64)
    ensures
        final(out)@ == old(out)@ + decimal(n as nat),
    decreases n,
{
    let ghost start = out@;
    if n >= 10 {
        push_decimal(out, n / 10);
    }
    out.push(digit_of(n % 10));
    assert(out@ =~= start + decimal(n as nat));
}

fn push_hex(out: &mut String, n: u64)
    ensures
        final(out)@ == old(out)@ + hex(n as nat),
    decreases n,
{
    let ghost start = out@;
    if n >= 16 {
        push_hex(out, n / 16);
    }
    out.push(digit_of(n % 16));
    assert(out@ =~= start + hex(n as nat));
}

fn v4_octet(ip: &IpAddress, k: usize) -> (r: u8)
    requires
        ip is V4,
        k < 4,
    ensures
        r == v4_octets(*ip)[k as int],
{
    match ip {
        IpAddress::V4(a, b, c, d) => if k == 0 {
            *a
        } else if k == 1 {
            *b
        } else if k == 2 {
            *c
        } else {
            *d
        },
        IpAddress::V6(_) => 0,
    }
}

fn v6_group_values(bits: u128) -> (r: Vec<u64>)
    ensures
        r@.len() == 8,
        forall|k: int| 0 <= k < 8 ==> #[trigger] r@[k] as nat == v6_groups(bits)[k],
{
    let mut g: Vec<u64> = Vec::new();
    let mut k: usize = 0;
    while k < 8
        invariant
            k <= 8,
            g@.len() == k,
            forall|j: int| 0 <= j < k ==> #[trigger] g@[j] as nat == v6_groups(bits)[j],
        decreases 8 - k,
    {
        let shift: u128 = ((7 - k) * 16) as u128;
        let group = (bits >> shift) & 0xffff;
        assert(group <= 0xffff) by (bit_vector)
            requires
                group == (bits >> shift) & 0xffff,
        ;
        assert(group as nat == v6_group(bits, k as nat));
        g.push(group as u64);
        k = k + 1;
    }
    g
}

/// Appends the groups `a..b` in hexadecimal, joined by colons.
fn push_hex_join(out: &mut String, g: &Vec<u64>, a: usize, b: usize, Ghost(gs): Ghost<Seq<nat>>)
    requires
        a <= b <= g@.len(),
        gs.len() == g@.len(),
        forall|k: int| 0 <= k < g@.len() ==> #[trigger] g@[k] as nat == gs[k],
    ensures
        final(out)@ == old(out)@ + hex_join(gs.subrange(a as int, b as int)),
{
    let ghost start = out@;
    let mut i = a;
    assert(gs.subrange(a as int, a as int) =~= Seq::<nat>::empty());
    while i < b
        invariant
            a <= i <= b <= g@.len(),
            gs.len() == g@.len(),
            forall|k: int| 0 <= k < g@.len() ==> #[trigger] g@[k] as nat == gs[k],
            out@ == start + hex_join(gs.subrange(a as int, i as int)),
        decreases b - i,
    {
        let ghost before = out@;
        if i > a {
            out.push(':');
        }
        push_hex(out, g[i]);
        let ghost sub = gs.subrange(a as int, i + 1);
        assert(sub.drop_last() =~= gs.subrange(a as int, i as int));
        assert(sub.last() == gs[i as int]);
        if i == a {
            assert(sub =~= seq![gs[i as int]]);
        }
        i = i + 1;
        assert(out@ =~= start + hex_join(gs.subrange(a as int, i as int)));
    }
}

/// Appends the text of the groups of an IPv6 address, as `v6_text` gives it.
fn push_v6_text(out: &mut String, bits: u128)
    ensures
        final(out)@ == old(out)@ + v6_text(v6_groups(bits)),
{
    let ghost gs = v6_groups(bits);
    let g = v6_group_values(bits);
    let mut runs: Vec<u64> = Vec::new();
    let mut k: usize = 0;
    while k < 9
        invariant
            k <= 9,
            runs@.len() == k,
            gs.len() == 8,
            forall|j: int| 0 <= j < k ==> #[trigger] runs@[j] == 0,
        decreases 9 - k,
    {
        runs.push(0);
        k = k + 1;
    }
    let mut i: usize = 8;
    assert(zero_run(gs, 8) == 0);
    while i > 0
        invariant
            i <= 8,
            runs@.len() == 9,
            gs.len() == 8,
            g@.len() == 8,
            forall|k: int| 0 <= k < 8 ==> #[trigger] g@[k] as nat == gs[k],
            forall|j: int| i <= j <= 8 ==> #[trigger] runs@[j] as nat == zero_run(gs, j),
            forall|j: int| i <= j <= 8 ==> #[trigger] runs@[j] <= 8 - j,
        decreases i,
    {
        i = i - 1;
        let r = if g[i] == 0 {
            runs[i + 1] + 1
        } else {
            0
        };
        runs.set(i, r);
    }
    let mut best: usize = 0;
    let mut k: usize = 1;
    while k < 8
        invariant
            1 <= k <= 8,
            best < k,
            runs@.len() == 9,
            gs.len() == 8,
            forall|j: int| 0 <= j <= 8 ==> #[trigger] runs@[j] as nat == zero_run(gs, j),
            forall|j: int| 0 <= j <= 8 ==> #[trigger] runs@[j] <= 8 - j,
            best as int == longest_zero_run(gs, k as int),
        decreases 8 - k,
    {
        if runs[k] > runs[best] {
            best = k;
        }
        k = k + 1;
    }
    let len = runs[best];
    if len >= 2 {
        push_hex_join(out, &g, 0, best, Ghost(gs));
        out.push(':');
        out.push(':');
        proof {
            assert(runs@[best as int] <= 8 - best);
        }
        push_hex_join(out, &g, best + len as usize, 8, Ghost(gs));
    } else {
        push_hex_join(out, &g, 0, 8, Ghost(gs));
        assert(gs.subrange(0, 8) =~= gs);
    }
}

impl SocketAddress {
    /// The canonical text of this address.
    pub fn to_text(&self) -> (r: String)
        ensures
            r@ == socket_canonical(*self),
    {
        let mut out = String::new();
        match self.ip {
            IpAddress::V4(..) => {
                let mut k: usize = 0;
                while k < 4
                    invariant
                        k <= 4,
                        self.ip is V4,
                        out@ == dotted_prefix(v4_octets(self.ip), k as nat),
                    decreases 4 - k,
                {
                    let o = v4_octet(&self.ip, k);
                    push_decimal(&mut out, o as u64);
                    out.push(separator_char(k));
                    k = k + 1;
                    assert(out@ =~= dotted_prefix(v4_octets(self.ip), k as nat));
                }
            },
            IpAddress::V6(bits) => {
                out.push('[');
                push_v6_text(&mut out, bits);
                out.push(']');
                out.push(':');
            },
        }
        push_decimal(&mut out, self.port as u64);
        assert(out@ =~= socket_canonical(*self));
        out
    }
}

} // verus!
