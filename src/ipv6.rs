//! The textual form of an IPv6 socket address: `[groups]:port`, with the
//! groups in hexadecimal and at most one `::` standing for a run of zero
//! groups.
use crate::address::{
    all_digits, digit_value, digits_value, digits_value_within, is_digit, scan_digits, IpAddress,
    SocketAddress,
};
use vstd::prelude::*;

verus! {

pub open spec fn is_hex_digit(c: char) -> bool {
    is_digit(c) || ('a' <= c && c <= 'f') || ('A' <= c && c <= 'F')
}

pub open spec fn hex_digit_value(c: char) -> nat {
    if is_digit(c) {
        digit_value(c)
    } else if 'a' <= c && c <= 'f' {
        ((c as u32) - ('a' as u32) + 10) as nat
    } else {
        ((c as u32) - ('A' as u32) + 10) as nat
    }
}

/// The number written by a string of hexadecimal digits.
pub open spec fn hex_digits_value(d: Seq<char>) -> nat
    decreases d.len(),
{
    if d.len() == 0 {
        0
    } else {
        hex_digits_value(d.drop_last()) * 16 + hex_digit_value(d.last())
    }
}

/// A group as written: one to four hexadecimal digits.
pub open spec fn group_field(f: Seq<char>) -> bool {
    1 <= f.len() <= 4 && forall|i: int| 0 <= i < f.len() ==> is_hex_digit(#[trigger] f[i])
}

/// The pieces of `t` between colons, in order (one more than its colons).
pub open spec fn colon_fields(t: Seq<char>) -> Seq<Seq<char>>
    decreases t.len(),
{
    if t.len() == 0 {
        seq![Seq::empty()]
    } else {
        let fs = colon_fields(t.drop_last());
        if t.last() == ':' {
            fs.push(Seq::empty())
        } else {
            fs.update(fs.len() - 1, fs[fs.len() - 1].push(t.last()))
        }
    }
}

pub open spec fn all_group_fields(fs: Seq<Seq<char>>) -> bool {
    forall|i: int| 0 <= i < fs.len() ==> group_field(#[trigger] fs[i])
}

pub open spec fn field_values(fs: Seq<Seq<char>>) -> Seq<nat> {
    fs.map_values(|f: Seq<char>| hex_digits_value(f))
}

pub open spec fn zeros(n: nat) -> Seq<nat> {
    Seq::new(n, |i: int| 0nat)
}

/// The empty piece `k` between groups is the `::` in the middle of the text.
pub open spec fn gap_at(fs: Seq<Seq<char>>, k: int) -> bool {
    &&& 0 < k < fs.len() - 1
    &&& fs[k].len() == 0
    &&& all_group_fields(fs.subrange(0, k))
    &&& all_group_fields(fs.subrange(k + 1, fs.len() as int))
}

/// The eight groups written by the pieces `fs`: eight groups; or `::` alone;
/// or `::` at the start, at the end, or once between groups, standing for as
/// many zero groups (at least one) as make eight.
pub open spec fn v6_groups_of(fs: Seq<Seq<char>>) -> Option<Seq<nat>> {
    let n = fs.len();
    if n == 8 && all_group_fields(fs) {
        Some(field_values(fs))
    } else if n == 3 && fs[0].len() == 0 && fs[1].len() == 0 && fs[2].len() == 0 {
        Some(zeros(8))
    } else if 3 <= n <= 9 && fs[0].len() == 0 && fs[1].len() == 0 && all_group_fields(
        fs.subrange(2, n as int),
    ) {
        Some(zeros((10 - n) as nat) + field_values(fs.subrange(2, n as int)))
    } else if 3 <= n <= 9 && fs[n - 1].len() == 0 && fs[n - 2].len() == 0 && all_group_fields(
        fs.subrange(0, n - 2),
    ) {
        Some(field_values(fs.subrange(0, n - 2)) + zeros((10 - n) as nat))
    } else if 3 <= n <= 8 && exists|k: int| gap_at(fs, k) {
        let k = choose|k: int| gap_at(fs, k);
        Some(
            field_values(fs.subrange(0, k)) + zeros((9 - n) as nat) + field_values(
                fs.subrange(k + 1, n as int),
            ),
        )
    } else {
        None
    }
}

/// The number whose base-65536 digits are `gs`, most significant first.
pub open spec fn groups_value(gs: Seq<nat>) -> nat
    decreases gs.len(),
{
    if gs.len() == 0 {
        0
    } else {
        groups_value(gs.drop_last()) * 65536 + gs.last()
    }
}

/// `s` is the textual form of the IPv6 socket address `a`, with the closing
/// bracket at `e`: `[`, the groups, the first `]`, a colon and the port as a
/// non-empty run of decimal digits.
pub open spec fn socket_v6_text_at(s: Seq<char>, a: SocketAddress, e: int) -> bool {
    &&& a.ip is V6
    &&& 1 <= e && e + 2 < s.len()
    &&& s[0] == '[' && s[e] == ']' && s[e + 1] == ':'
    &&& forall|j: int| 1 <= j < e ==> s[j] != ']'
    &&& (v6_groups_of(colon_fields(s.subrange(1, e))) matches Some(gs) && groups_value(gs)
        == a.ip->V6_0 as nat)
    &&& all_digits(s.subrange(e + 2, s.len() as int))
    &&& digits_value(s.subrange(e + 2, s.len() as int)) == a.port as nat
}

pub open spec fn socket_v6_text_of(s: Seq<char>, a: SocketAddress) -> bool {
    exists|e: int| socket_v6_text_at(s, a, e)
}

proof fn lemma_colon_fields_nonempty(t: Seq<char>)
    ensures
        colon_fields(t).len() >= 1,
    decreases t.len(),
{
    if t.len() > 0 {
        lemma_colon_fields_nonempty(t.drop_last());
    }
}

fn hex_digit_of(c: char) -> (r: Option<u32>)
    ensures
        r is Some <==> is_hex_digit(c),
        r matches Some(v) ==> v as nat == hex_digit_value(c) && v < 16,
{
    if '0' <= c && c <= '9' {
        Some((c as u32) - ('0' as u32))
    } else if 'a' <= c && c <= 'f' {
        Some((c as u32) - ('a' as u32) + 10)
    } else if 'A' <= c && c <= 'F' {
        Some((c as u32) - ('A' as u32) + 10)
    } else {
        None
    }
}

/// A prefix of a group: at most four hexadecimal digits.
pub open spec fn group_prefix(f: Seq<char>) -> bool {
    f.len() <= 4 && forall|i: int| 0 <= i < f.len() ==> is_hex_digit(#[trigger] f[i])
}

proof fn lemma_hex_value_bound(f: Seq<char>)
    requires
        group_prefix(f),
    ensures
        hex_digits_value(f) < if f.len() == 0 {
            1nat
        } else if f.len() == 1 {
            16nat
        } else if f.len() == 2 {
            256nat
        } else if f.len() == 3 {
            4096nat
        } else {
            65536nat
        },
    decreases f.len(),
{
    if f.len() > 0 {
        let h = f.drop_last();
        assert(group_prefix(h)) by {
            assert forall|i: int| 0 <= i < h.len() implies is_hex_digit(#[trigger] h[i]) by {
                assert(h[i] == f[i]);
            }
        }
        lemma_hex_value_bound(h);
        assert(is_hex_digit(f.last()));
    }
}

/// The pieces of the text in `a..b`, with for each its length, whether it is
/// a group, and its value where it is.
fn scan_fields(s: &str, a: usize, b: usize) -> (r: (Vec<usize>, Vec<bool>, Vec<u32>))
    requires
        a <= b <= s@.len(),
    ensures
        ({
            let fs = colon_fields(s@.subrange(a as int, b as int));
            let (lens, oks, vals) = r;
            &&& lens@.len() == fs.len() && oks@.len() == fs.len() && vals@.len() == fs.len()
            &&& forall|j: int| 0 <= j < fs.len() ==> #[trigger] lens@[j] == fs[j].len()
            &&& forall|j: int| 0 <= j < fs.len() ==> #[trigger] oks@[j] == group_field(fs[j])
            &&& forall|j: int|
                0 <= j < fs.len() && oks@[j] ==> #[trigger] vals@[j] as nat == hex_digits_value(
                    fs[j],
                ) && vals@[j] < 65536
        }),
{
    let mut lens: Vec<usize> = Vec::new();
    let mut oks: Vec<bool> = Vec::new();
    let mut vals: Vec<u32> = Vec::new();
    let mut cur_len: usize = 0;
    let mut cur_ok: bool = true;
    let mut cur_val: u32 = 0;
    let ghost mut done: Seq<Seq<char>> = Seq::empty();
    let ghost mut cur: Seq<char> = Seq::empty();
    let mut i = a;
    assert(s@.subrange(a as int, a as int) =~= Seq::<char>::empty());
    assert(colon_fields(Seq::<char>::empty()) =~= done.push(cur));
    while i < b
        invariant
            a <= i <= b <= s@.len(),
            colon_fields(s@.subrange(a as int, i as int)) == done.push(cur),
            lens@.len() == done.len() && oks@.len() == done.len() && vals@.len() == done.len(),
            forall|j: int| 0 <= j < done.len() ==> #[trigger] lens@[j] == done[j].len(),
            forall|j: int| 0 <= j < done.len() ==> #[trigger] oks@[j] == group_field(done[j]),
            forall|j: int|
                0 <= j < done.len() && oks@[j] ==> #[trigger] vals@[j] as nat == hex_digits_value(
                    done[j],
                ) && vals@[j] < 65536,
            cur_len == cur.len(),
            cur_len <= i - a,
            cur_ok == group_prefix(cur),
            cur_ok ==> cur_val as nat == hex_digits_value(cur) && cur_val < 65536,
        decreases b - i,
    {
        let c = s.get_char(i);
        let ghost t = s@.subrange(a as int, i + 1);
        assert(t.drop_last() =~= s@.subrange(a as int, i as int));
        assert(t.last() == c);
        proof {
            lemma_colon_fields_nonempty(s@.subrange(a as int, i as int));
        }
        if c == ':' {
            proof {
                if cur_ok {
                    lemma_hex_value_bound(cur);
                }
            }
            lens.push(cur_len);
            oks.push(cur_ok && cur_len >= 1);
            vals.push(if cur_ok {
                cur_val
            } else {
                0
            });
            proof {
                done = done.push(cur);
                cur = Seq::empty();
                assert(colon_fields(t) =~= done.push(cur));
            }
            cur_len = 0;
            cur_ok = true;
            cur_val = 0;
        } else {
            let ghost old_cur = cur;
            let d = hex_digit_of(c);
            let next_ok = cur_ok && d.is_some() && cur_len < 4;
            if next_ok {
                proof {
                    lemma_hex_value_bound(cur);
                }
                cur_val = cur_val * 16 + d.unwrap();
            }
            cur_ok = next_ok;
            cur_len = cur_len + 1;
            proof {
                cur = cur.push(c);
                assert(cur.drop_last() =~= old_cur);
                assert(colon_fields(t) =~= done.push(cur));
                if cur_ok {
                    assert forall|k: int| 0 <= k < cur.len() implies is_hex_digit(#[trigger] cur[k]) by {
                        if k < old_cur.len() {
                            assert(cur[k] == old_cur[k]);
                        }
                    }
                    lemma_hex_value_bound(cur);
                } else if old_cur.len() <= 3 && group_prefix(old_cur) && is_hex_digit(c) {
                    assert(false);
                } else {
                    if !group_prefix(old_cur) {
                        if old_cur.len() <= 4 {
                            let k = choose|k: int| 0 <= k < old_cur.len() && !is_hex_digit(old_cur[k]);
                            assert(cur[k] == old_cur[k]);
                        }
                    }
                    if !is_hex_digit(c) {
                        assert(cur[cur.len() - 1] == c);
                    }
                }
            }
        }
        i = i + 1;
    }
    proof {
        if cur_ok {
            lemma_hex_value_bound(cur);
        }
    }
    lens.push(cur_len);
    oks.push(cur_ok && cur_len >= 1);
    vals.push(if cur_ok {
        cur_val
    } else {
        0
    });
    proof {
        let fs = done.push(cur);
        assert(forall|j: int| 0 <= j < fs.len() ==> #[trigger] lens@[j] == fs[j].len());
    }
    (lens, oks, vals)
}

pub open spec fn as_nats(v: Seq<u32>) -> Seq<nat> {
    v.map_values(|g: u32| g as nat)
}

/// `65536` to the power `i`.
pub open spec fn group_power(i: nat) -> nat
    decreases i,
{
    if i == 0 {
        1
    } else {
        group_power((i - 1) as nat) * 65536
    }
}

proof fn lemma_all_ok(fs: Seq<Seq<char>>, oks: Seq<bool>, a: int, b: int)
    requires
        oks.len() == fs.len(),
        forall|j: int| 0 <= j < fs.len() ==> #[trigger] oks[j] == group_field(fs[j]),
        0 <= a <= b <= fs.len(),
    ensures
        all_group_fields(fs.subrange(a, b)) <==> (forall|j: int| a <= j < b ==> #[trigger] oks[j]),
{
    if all_group_fields(fs.subrange(a, b)) {
        assert forall|j: int| a <= j < b implies #[trigger] oks[j] by {
            assert(fs.subrange(a, b)[j - a] == fs[j]);
        }
    }
    if forall|j: int| a <= j < b ==> #[trigger] oks[j] {
        assert forall|i: int| 0 <= i < b - a implies group_field(#[trigger] fs.subrange(a, b)[i]) by {
            assert(oks[a + i]);
        }
    }
}

proof fn lemma_values(fs: Seq<Seq<char>>, oks: Seq<bool>, vals: Seq<u32>, a: int, b: int)
    requires
        oks.len() == fs.len(),
        vals.len() == fs.len(),
        forall|j: int| 0 <= j < fs.len() && oks[j] ==> #[trigger] vals[j] as nat == hex_digits_value(fs[j]),
        0 <= a <= b <= fs.len(),
        forall|j: int| a <= j < b ==> #[trigger] oks[j],
    ensures
        field_values(fs.subrange(a, b)) == as_nats(vals.subrange(a, b)),
{
    assert forall|i: int| 0 <= i < b - a implies #[trigger] field_values(fs.subrange(a, b))[i] == as_nats(vals.subrange(a, b))[i] by {
        assert(oks[a + i]);
    }
    assert(field_values(fs.subrange(a, b)) =~= as_nats(vals.subrange(a, b)));
}

proof fn lemma_gap_unique(fs: Seq<Seq<char>>, k1: int, k2: int)
    requires
        gap_at(fs, k1),
        gap_at(fs, k2),
    ensures
        k1 == k2,
{
    if k1 < k2 {
        assert(group_field(fs.subrange(0, k2)[k1]));
    }
    if k2 < k1 {
        assert(group_field(fs.subrange(0, k1)[k2]));
    }
}

fn all_ok(oks: &Vec<bool>, a: usize, b: usize) -> (r: bool)
    requires
        a <= b <= oks@.len(),
    ensures
        r == (forall|j: int| a <= j < b ==> #[trigger] oks@[j]),
{
    let mut i = a;
    while i < b
        invariant
            a <= i <= b <= oks@.len(),
            forall|j: int| a <= j < i ==> #[trigger] oks@[j],
        decreases b - i,
    {
        if !oks[i] {
            return false;
        }
        i = i + 1;
    }
    true
}

fn push_range(gs: &mut Vec<u32>, vals: &Vec<u32>, a: usize, b: usize)
    requires
        a <= b <= vals@.len(),
    ensures
        final(gs)@ == old(gs)@ + vals@.subrange(a as int, b as int),
{
    let ghost start = gs@;
    let mut i = a;
    while i < b
        invariant
            a <= i <= b <= vals@.len(),
            gs@ == start + vals@.subrange(a as int, i as int),
        decreases b - i,
    {
        gs.push(vals[i]);
        i = i + 1;
        assert(gs@ =~= start + vals@.subrange(a as int, i as int));
    }
}

fn push_zeros(gs: &mut Vec<u32>, count: usize)
    ensures
        as_nats(final(gs)@) == as_nats(old(gs)@) + zeros(count as nat),
        final(gs)@.len() == old(gs)@.len() + count,
        forall|j: int| old(gs)@.len() <= j < final(gs)@.len() ==> #[trigger] final(gs)@[j] == 0,
        forall|j: int| 0 <= j < old(gs)@.len() ==> #[trigger] final(gs)@[j] == old(gs)@[j],
{
    let ghost start = gs@;
    let mut i: usize = 0;
    while i < count
        invariant
            i <= count,
            gs@.len() == start.len() + i,
            forall|j: int| start.len() <= j < gs@.len() ==> #[trigger] gs@[j] == 0,
            forall|j: int| 0 <= j < start.len() ==> #[trigger] gs@[j] == start[j],
        decreases count - i,
    {
        gs.push(0);
        i = i + 1;
    }
    assert(as_nats(gs@) =~= as_nats(start) + zeros(count as nat));
}

fn group_bits(gs: &Vec<u32>) -> (r: u128)
    requires
        gs@.len() == 8,
        forall|j: int| 0 <= j < 8 ==> #[trigger] gs@[j] < 65536,
    ensures
        r as nat == groups_value(as_nats(gs@)),
{
    let mut r: u128 = 0;
    let mut i: usize = 0;
    assert(as_nats(gs@).subrange(0, 0) =~= Seq::<nat>::empty());
    proof {
        reveal_with_fuel(group_power, 9);
        assert(group_power(7) * 65536 == 0x1_0000_0000_0000_0000_0000_0000_0000_0000);
    }
    while i < 8
        invariant
            i <= 8,
            gs@.len() == 8,
            forall|j: int| 0 <= j < 8 ==> #[trigger] gs@[j] < 65536,
            r as nat == groups_value(as_nats(gs@).subrange(0, i as int)),
            (r as nat) < group_power(i as nat),
            group_power(7) * 65536 == 0x1_0000_0000_0000_0000_0000_0000_0000_0000,
        decreases 8 - i,
    {
        let g = gs[i];
        proof {
            lemma_group_power_monotone(i as nat, 7);
            let p = group_power(i as nat);
            assert((r as nat) * 65536 + (g as nat) < p * 65536) by (nonlinear_arith)
                requires
                    (r as nat) < p,
                    (g as nat) < 65536,
            ;
            assert(p * 65536 <= group_power(7) * 65536) by (nonlinear_arith)
                requires
                    p <= group_power(7),
            ;
            let pre = as_nats(gs@).subrange(0, i + 1);
            assert(pre.drop_last() =~= as_nats(gs@).subrange(0, i as int));
        }
        r = r * 65536 + g as u128;
        i = i + 1;
    }
    assert(as_nats(gs@).subrange(0, 8) =~= as_nats(gs@));
    r
}

proof fn lemma_group_power_monotone(i: nat, j: nat)
    requires
        i <= j,
    ensures
        group_power(i) <= group_power(j),
    decreases j - i,
{
    if i < j {
        lemma_group_power_monotone(i, (j - 1) as nat);
    }
}

fn first_empty(lens: &Vec<usize>) -> (r: usize)
    ensures
        r <= lens@.len(),
        r < lens@.len() ==> lens@[r as int] == 0,
        forall|j: int| 0 <= j < r ==> #[trigger] lens@[j] != 0,
{
    let mut i: usize = 0;
    while i < lens.len()
        invariant
            i <= lens@.len(),
            forall|j: int| 0 <= j < i ==> #[trigger] lens@[j] != 0,
        decreases lens.len() - i,
    {
        if lens[i] == 0 {
            return i;
        }
        i = i + 1;
    }
    i
}

/// The value of the groups written in `a..b`, where they are well formed.
#[verifier::rlimit(100)]
#[verifier::spinoff_prover]
fn parse_groups(s: &str, a: usize, b: usize) -> (r: Option<u128>)
    requires
        a <= b <= s@.len(),
    ensures
        match v6_groups_of(colon_fields(s@.subrange(a as int, b as int))) {
            Some(gs) => r matches Some(x) && x as nat == groups_value(gs),
            None => r is None,
        },
{
    let (lens, oks, vals) = scan_fields(s, a, b);
    let ghost fs = colon_fields(s@.subrange(a as int, b as int));
    let n = lens.len();
    let mut gs: Vec<u32> = Vec::new();
    if n == 8 && all_ok(&oks, 0, 8) {
        proof {
            lemma_all_ok(fs, oks@, 0, 8);
            lemma_values(fs, oks@, vals@, 0, 8);
            assert(fs.subrange(0, 8) =~= fs);
        }
        push_range(&mut gs, &vals, 0, 8);
        assert(gs@ =~= vals@.subrange(0, 8));
    } else if n == 3 && lens[0] == 0 && lens[1] == 0 && lens[2] == 0 {
        proof {
            lemma_all_ok(fs, oks@, 0, n as int);
            if all_group_fields(fs) {
                assert(oks@[0]);
            }
        }
        push_zeros(&mut gs, 8);
        assert(as_nats(gs@) =~= zeros(8));
    } else if 3 <= n && n <= 9 && lens[0] == 0 && lens[1] == 0 && all_ok(&oks, 2, n) {
        proof {
            lemma_all_ok(fs, oks@, 0, n as int);
            lemma_all_ok(fs, oks@, 2, n as int);
            lemma_values(fs, oks@, vals@, 2, n as int);
            if n == 8 && all_group_fields(fs) {
                assert(oks@[0]);
            }
        }
        push_zeros(&mut gs, 10 - n);
        let ghost z = gs@;
        push_range(&mut gs, &vals, 2, n);
        assert(as_nats(gs@) =~= as_nats(z) + as_nats(vals@.subrange(2, n as int)));
    } else if 3 <= n && n <= 9 && lens[n - 1] == 0 && lens[n - 2] == 0 && all_ok(&oks, 0, n - 2) {
        proof {
            lemma_all_ok(fs, oks@, 0, n as int);
            lemma_all_ok(fs, oks@, 0, n - 2);
            lemma_all_ok(fs, oks@, 2, n as int);
            lemma_values(fs, oks@, vals@, 0, n - 2);
            if n == 8 && all_group_fields(fs) {
                assert(oks@[n - 1]);
            }
            if lens@[0] == 0 && lens@[1] == 0 && all_group_fields(fs.subrange(2, n as int)) {
                assert(oks@[n - 1]);
            }
        }
        push_range(&mut gs, &vals, 0, n - 2);
        let ghost v = gs@;
        push_zeros(&mut gs, 10 - n);
        assert(v =~= vals@.subrange(0, n - 2));
    } else if 3 <= n && n <= 8 {
        let k = first_empty(&lens);
        proof {
            lemma_all_ok(fs, oks@, 0, n as int);
            lemma_all_ok(fs, oks@, 2, n as int);
            lemma_all_ok(fs, oks@, 0, n - 2);
            if n == 8 && all_group_fields(fs) {
                assert(oks@[0]);
                assert(false);
            }
            assert forall|k2: int| gap_at(fs, k2) implies k2 == k by {
                lemma_all_ok(fs, oks@, 0, k2);
                if k < k2 {
                    assert(oks@[k as int]);
                }
                if k2 < k {
                    assert(lens@[k2] != 0);
                }
            }
        }
        if k > 0 && k + 1 < n && all_ok(&oks, 0, k) && all_ok(&oks, k + 1, n) {
            proof {
                lemma_all_ok(fs, oks@, 0, k as int);
                lemma_all_ok(fs, oks@, k + 1, n as int);
                lemma_values(fs, oks@, vals@, 0, k as int);
                lemma_values(fs, oks@, vals@, k + 1, n as int);
                assert(gap_at(fs, k as int));
                let kc = choose|k2: int| gap_at(fs, k2);
                lemma_gap_unique(fs, kc, k as int);
                if lens@[0] == 0 {
                    assert(oks@[0]);
                }
                if lens@[n - 1] == 0 {
                    assert(oks@[n - 1]);
                }
            }
            push_range(&mut gs, &vals, 0, k);
            let ghost v = gs@;
            push_zeros(&mut gs, 9 - n);
            let ghost z = gs@;
            push_range(&mut gs, &vals, k + 1, n);
            assert(as_nats(gs@) =~= as_nats(z) + as_nats(vals@.subrange(k + 1, n as int)));
            assert(v =~= vals@.subrange(0, k as int));
        } else {
            proof {
                if exists|k2: int| gap_at(fs, k2) {
                    let k2 = choose|k2: int| gap_at(fs, k2);
                    lemma_all_ok(fs, oks@, 0, k as int);
                    lemma_all_ok(fs, oks@, k + 1, n as int);
                }
            }
            return None;
        }
    } else {
        proof {
            lemma_all_ok(fs, oks@, 0, n as int);
            if 3 <= n <= 9 {
                lemma_all_ok(fs, oks@, 2, n as int);
                lemma_all_ok(fs, oks@, 0, n - 2);
            }
            if n == 8 && all_group_fields(fs) {
                assert(oks@[0]);
            }
        }
        return None;
    }
    proof {
        assert forall|j: int| 0 <= j < 8 implies #[trigger] gs@[j] < 65536 by {
            assert(as_nats(gs@)[j] == gs@[j] as nat);
        }
    }
    Some(group_bits(&gs))
}

/// Reads an IPv6 socket address written as `[groups]:port`.
pub fn parse_socket_v6(s: &str) -> (r: Option<SocketAddress>)
    ensures
        match r {
            Some(a) => socket_v6_text_of(s@, a),
            None => forall|a: SocketAddress| !socket_v6_text_of(s@, a),
        },
{
    let n = s.unicode_len();
    if n == 0 || s.get_char(0) != '[' {
        return None;
    }
    let mut e: usize = 1;
    while e < n && s.get_char(e) != ']'
        invariant
            1 <= e <= n,
            n == s@.len(),
            forall|j: int| 1 <= j < e ==> s@[j] != ']',
        decreases n - e,
    {
        e = e + 1;
    }
    proof {
        assert forall|a: SocketAddress, e2: int| #[trigger] socket_v6_text_at(s@, a, e2) implies e2
            == e by {
            if e2 < e {
                assert(s@[e2] != ']');
            }
            if e2 > e {
                assert(s@[e as int] != ']');
            }
        }
    }
    if e >= n || n - e <= 2 || s.get_char(e + 1) != ':' {
        return None;
    }
    let end = scan_digits(s, n, e + 2);
    if end != n {
        proof {
            assert forall|a: SocketAddress| !socket_v6_text_of(s@, a) by {
                if socket_v6_text_of(s@, a) {
                    let e2 = choose|e2: int| socket_v6_text_at(s@, a, e2);
                    assert(s@[end as int] == s@.subrange(e + 2, n as int)[end - (e + 2)]);
                }
            }
        }
        return None;
    }
    let port = match digits_value_within(s, e + 2, n, 65535) {
        Some(p) => p,
        None => {
            return None;
        },
    };
    match parse_groups(s, 1, e) {
        Some(bits) => {
            let a = SocketAddress { ip: IpAddress::V6(bits), port: port as u16 };
            assert(socket_v6_text_at(s@, a, e as int));
            Some(a)
        },
        None => None,
    }
}

} // verus!
