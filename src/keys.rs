//! Key encoder: record keys `<prefix>:<timestamp>` whose byte order follows
//! the timestamp order (forward) or its reverse (reverse), and the bounds of
//! a range scan.
use vstd::prelude::*;
use vstd::string::StringSliceAdditionalSpecFns;

verus! {

/// The largest timestamp.
pub const MAX_TS: u16 = 65535;

/// Number of decimal digits of an encoded timestamp: those of `MAX_TS`.
pub const TS_WIDTH: usize = 5;

/// The byte that separates a prefix from its timestamp.
pub const SEPARATOR: u8 = 58;

/// Which encoding of the timestamp a key uses.
#[derive(Debug, Clone, Copy, PartialEq, Eq, Structural)]
pub enum KeyOrder {
    /// Ascending key order is ascending time.
    Forward,
    /// Ascending key order is descending time.
    Reverse,
}

/// `10` to the power `w`.
pub open spec fn pow10(w: nat) -> nat
    decreases w,
{
    if w == 0 {
        1
    } else {
        10 * pow10((w - 1) as nat)
    }
}

/// The ASCII byte of a decimal digit.
pub open spec fn digit_byte(d: nat) -> u8 {
    (48 + d) as u8
}

/// The last `w` decimal digits of `n`, most significant first, as ASCII.
pub open spec fn digits(n: nat, w: nat) -> Seq<u8>
    decreases w,
{
    if w == 0 {
        Seq::empty()
    } else {
        digits(n / 10, (w - 1) as nat).push(digit_byte(n % 10))
    }
}

/// Byte-wise lexicographic order: `a` sorts strictly before `b`.
pub open spec fn lex_lt(a: Seq<u8>, b: Seq<u8>) -> bool
    decreases a.len(),
{
    if a.len() == 0 {
        b.len() > 0
    } else if b.len() == 0 {
        false
    } else if a[0] != b[0] {
        a[0] < b[0]
    } else {
        lex_lt(a.drop_first(), b.drop_first())
    }
}

/// Byte-wise lexicographic order: `a` sorts at or before `b`.
pub open spec fn lex_le(a: Seq<u8>, b: Seq<u8>) -> bool {
    a == b || lex_lt(a, b)
}

/// The key of `prefix` with a timestamp field holding `n`.
pub open spec fn key_with(prefix: Seq<u8>, n: nat) -> Seq<u8> {
    prefix + seq![SEPARATOR] + digits(n, TS_WIDTH as nat)
}

/// The forward key of `prefix` at timestamp `ts`.
pub open spec fn forward_key_of(prefix: Seq<u8>, ts: u16) -> Seq<u8> {
    key_with(prefix, ts as nat)
}

/// The reverse key of `prefix` at timestamp `ts`.
pub open spec fn reverse_key_of(prefix: Seq<u8>, ts: u16) -> Seq<u8> {
    key_with(prefix, (MAX_TS - ts) as nat)
}

/// The key of `prefix` at timestamp `ts` in the given order.
pub open spec fn key_of(order: KeyOrder, prefix: Seq<u8>, ts: u16) -> Seq<u8> {
    match order {
        KeyOrder::Forward => forward_key_of(prefix, ts),
        KeyOrder::Reverse => reverse_key_of(prefix, ts),
    }
}

/// The first and the last key of a scan over `[start_ts, end_ts]`.
pub open spec fn bounds_of(order: KeyOrder, prefix: Seq<u8>, start_ts: u16, end_ts: u16) -> (
    Seq<u8>,
    Seq<u8>,
) {
    match order {
        KeyOrder::Forward => (forward_key_of(prefix, start_ts), forward_key_of(prefix, end_ts)),
        KeyOrder::Reverse => (reverse_key_of(prefix, end_ts), reverse_key_of(prefix, start_ts)),
    }
}

pub proof fn lemma_digits_len(n: nat, w: nat)
    ensures
        digits(n, w).len() == w,
    decreases w,
{
    if w > 0 {
        lemma_digits_len(n / 10, (w - 1) as nat);
    }
}

/// A shared prefix does not change the order of two byte strings.
pub proof fn lemma_lex_common_prefix(x: Seq<u8>, y: Seq<u8>, z: Seq<u8>)
    ensures
        lex_lt(x + y, x + z) == lex_lt(y, z),
    decreases x.len(),
{
    if x.len() > 0 {
        assert((x + y).drop_first() =~= x.drop_first() + y);
        assert((x + z).drop_first() =~= x.drop_first() + z);
        lemma_lex_common_prefix(x.drop_first(), y, z);
    }
}

/// Strings of one length keep their order whatever follows them.
pub proof fn lemma_lex_extend(x: Seq<u8>, y: Seq<u8>, u: Seq<u8>, v: Seq<u8>)
    requires
        x.len() == y.len(),
        lex_lt(x, y),
    ensures
        lex_lt(x + u, y + v),
    decreases x.len(),
{
    if x[0] == y[0] {
        assert((x + u).drop_first() =~= x.drop_first() + u);
        assert((y + v).drop_first() =~= y.drop_first() + v);
        lemma_lex_extend(x.drop_first(), y.drop_first(), u, v);
    }
}

/// The order is transitive.
pub proof fn lemma_lex_trans(a: Seq<u8>, b: Seq<u8>, c: Seq<u8>)
    requires
        lex_lt(a, b),
        lex_lt(b, c),
    ensures
        lex_lt(a, c),
    decreases a.len(),
{
    if a.len() > 0 && a[0] == b[0] && b[0] == c[0] {
        lemma_lex_trans(a.drop_first(), b.drop_first(), c.drop_first());
    }
}

/// The order is strict: no string sorts before itself or before one that
/// sorts before it.
pub proof fn lemma_lex_asym(a: Seq<u8>, b: Seq<u8>)
    requires
        lex_lt(a, b),
    ensures
        !lex_lt(b, a),
        a != b,
    decreases a.len(),
{
    if a.len() > 0 && a[0] == b[0] {
        lemma_lex_asym(a.drop_first(), b.drop_first());
        if a == b {
            assert(a.drop_first() == b.drop_first());
        }
    }
}

/// The order is total.
pub proof fn lemma_lex_total(a: Seq<u8>, b: Seq<u8>)
    ensures
        a == b || lex_lt(a, b) || lex_lt(b, a),
    decreases a.len(),
{
    if a.len() > 0 && b.len() > 0 && a[0] == b[0] {
        lemma_lex_total(a.drop_first(), b.drop_first());
        if a.drop_first() == b.drop_first() {
            assert(a =~= seq![a[0]] + a.drop_first());
            assert(b =~= seq![b[0]] + b.drop_first());
        }
    } else if a.len() == 0 && b.len() == 0 {
        assert(a =~= b);
    }
}

/// Fixed-width digit strings sort as the numbers they hold.
pub proof fn lemma_digits_order(a: nat, b: nat, w: nat)
    requires
        a < b < pow10(w),
    ensures
        lex_lt(digits(a, w), digits(b, w)),
    decreases w,
{
    let w1 = (w - 1) as nat;
    lemma_digits_len(a / 10, w1);
    lemma_digits_len(b / 10, w1);
    if a / 10 < b / 10 {
        lemma_digits_order(a / 10, b / 10, w1);
        lemma_lex_extend(
            digits(a / 10, w1),
            digits(b / 10, w1),
            seq![digit_byte(a % 10)],
            seq![digit_byte(b % 10)],
        );
        assert(digits(a / 10, w1) + seq![digit_byte(a % 10)] =~= digits(a, w));
        assert(digits(b / 10, w1) + seq![digit_byte(b % 10)] =~= digits(b, w));
    } else {
        assert(a % 10 < b % 10);
        let x = digits(a / 10, w1);
        let y = seq![digit_byte(a % 10)];
        let z = seq![digit_byte(b % 10)];
        assert(lex_lt(y, z)) by {
            assert(y.drop_first() =~= Seq::<u8>::empty());
        }
        lemma_lex_common_prefix(x, y, z);
        assert(x + y =~= digits(a, w));
        assert(x + z =~= digits(b, w));
    }
}

/// Keys of one prefix sort as the numbers in their timestamp field.
pub proof fn lemma_key_with_order(prefix: Seq<u8>, a: nat, b: nat)
    requires
        a < b <= MAX_TS,
    ensures
        lex_lt(key_with(prefix, a), key_with(prefix, b)),
{
    assert(pow10(5) == 100000) by {
        reveal_with_fuel(pow10, 6);
    }
    lemma_digits_order(a, b, 5);
    let head = prefix + seq![SEPARATOR];
    lemma_lex_common_prefix(head, digits(a, 5), digits(b, 5));
}

/// For timestamps `t1 < t2`, forward keys sort in time order and reverse keys
/// in the opposite order.
pub proof fn lemma_encoding_monotonic(prefix: Seq<u8>, t1: u16, t2: u16)
    requires
        t1 < t2,
    ensures
        lex_lt(forward_key_of(prefix, t1), forward_key_of(prefix, t2)),
        lex_lt(reverse_key_of(prefix, t2), reverse_key_of(prefix, t1)),
{
    lemma_key_with_order(prefix, t1 as nat, t2 as nat);
    lemma_key_with_order(prefix, (MAX_TS - t2) as nat, (MAX_TS - t1) as nat);
}

/// A key of `prefix` lies between the bounds of a scan of `prefix` exactly
/// when its timestamp lies in `[start_ts, end_ts]`.
pub proof fn lemma_key_in_bounds(order: KeyOrder, prefix: Seq<u8>, ts: u16, start_ts: u16, end_ts: u16)
    ensures
        ({
            let (lo, hi) = bounds_of(order, prefix, start_ts, end_ts);
            let k = key_of(order, prefix, ts);
            lex_le(lo, k) && lex_le(k, hi) <==> start_ts <= ts <= end_ts
        }),
{
    let (lo, hi) = bounds_of(order, prefix, start_ts, end_ts);
    let k = key_of(order, prefix, ts);
    if ts < start_ts {
        lemma_encoding_monotonic(prefix, ts, start_ts);
        match order {
            KeyOrder::Forward => lemma_lex_asym(k, lo),
            KeyOrder::Reverse => lemma_lex_asym(hi, k),
        }
    }
    if ts > end_ts {
        lemma_encoding_monotonic(prefix, end_ts, ts);
        match order {
            KeyOrder::Forward => lemma_lex_asym(hi, k),
            KeyOrder::Reverse => lemma_lex_asym(k, lo),
        }
    }
    if start_ts <= ts <= end_ts {
        if ts != start_ts {
            lemma_encoding_monotonic(prefix, start_ts, ts);
        }
        if ts != end_ts {
            lemma_encoding_monotonic(prefix, ts, end_ts);
        }
    }
}

/// Appends the last `width` decimal digits of `n`, most significant first.
pub fn push_digits(out: &mut Vec<u8>, n: u64, width: usize)
    ensures
        final(out)@ == old(out)@ + digits(n as nat, width as nat),
    decreases width,
{
    if width > 0 {
        push_digits(out, n / 10, width - 1);
        out.push(48u8 + (n % 10) as u8);
    }
}

/// Appends the bytes of `s`.
fn push_bytes(out: &mut Vec<u8>, s: &[u8])
    ensures
        final(out)@ == old(out)@ + s@,
{
    let mut i: usize = 0;
    while i < s.len()
        invariant
            i <= s@.len(),
            out@ == old(out)@ + s@.subrange(0, i as int),
        decreases s@.len() - i,
    {
        out.push(s[i]);
        i = i + 1;
        assert(out@ =~= old(out)@ + s@.subrange(0, i as int));
    }
    assert(s@.subrange(0, s@.len() as int) =~= s@);
}

fn key_with_field(prefix: &str, n: u16) -> (r: Vec<u8>)
    ensures
        r@ == key_with(prefix.spec_bytes(), n as nat),
{
    let mut out: Vec<u8> = Vec::new();
    push_bytes(&mut out, prefix.as_bytes());
    out.push(SEPARATOR);
    push_digits(&mut out, n as u64, TS_WIDTH);
    assert(out@ =~= key_with(prefix.spec_bytes(), n as nat));
    out
}

/// `"<prefix>:<ts>"`, the timestamp zero-padded to five digits: ascending key
/// order is ascending time.
pub fn forward_key(prefix: &str, ts: u16) -> (r: Vec<u8>)
    ensures
        r@ == forward_key_of(prefix.spec_bytes(), ts),
{
    key_with_field(prefix, ts)
}

/// `"<prefix>:<MAX_TS - ts>"`, zero-padded to five digits: ascending key order
/// is descending time.
pub fn reverse_key(prefix: &str, ts: u16) -> (r: Vec<u8>)
    ensures
        r@ == reverse_key_of(prefix.spec_bytes(), ts),
{
    key_with_field(prefix, MAX_TS - ts)
}

/// The first and the last key of a scan of `prefix` over `[start_ts, end_ts]`:
/// for reverse keys from the key of `end_ts` up to that of `start_ts`, for
/// forward keys from the key of `start_ts` up to that of `end_ts`.
pub fn scan_bounds(prefix: &str, start_ts: u16, end_ts: u16, order: KeyOrder) -> (r: (
    Vec<u8>,
    Vec<u8>,
))
    ensures
        (r.0@, r.1@) == bounds_of(order, prefix.spec_bytes(), start_ts, end_ts),
{
    match order {
        KeyOrder::Forward => (forward_key(prefix, start_ts), forward_key(prefix, end_ts)),
        KeyOrder::Reverse => (reverse_key(prefix, end_ts), reverse_key(prefix, start_ts)),
    }
}

proof fn lemma_lex_skip(a: Seq<u8>, b: Seq<u8>, i: int)
    requires
        0 <= i < a.len(),
        i < b.len(),
        a[i] == b[i],
    ensures
        lex_lt(a.subrange(i, a.len() as int), b.subrange(i, b.len() as int)) == lex_lt(
            a.subrange(i + 1, a.len() as int),
            b.subrange(i + 1, b.len() as int),
        ),
{
    assert(a.subrange(i, a.len() as int).drop_first() =~= a.subrange(i + 1, a.len() as int));
    assert(b.subrange(i, b.len() as int).drop_first() =~= b.subrange(i + 1, b.len() as int));
}

/// Whether `a` sorts at or before `b` in byte-wise lexicographic order.
pub fn key_le(a: &[u8], b: &[u8]) -> (r: bool)
    ensures
        r == lex_le(a@, b@),
{
    let mut i: usize = 0;
    assert(a@.subrange(0, a@.len() as int) =~= a@);
    assert(b@.subrange(0, b@.len() as int) =~= b@);
    while i < a.len() && i < b.len()
        invariant
            i <= a@.len(),
            i <= b@.len(),
            a@.subrange(0, i as int) =~= b@.subrange(0, i as int),
            lex_lt(a@, b@) == lex_lt(
                a@.subrange(i as int, a@.len() as int),
                b@.subrange(i as int, b@.len() as int),
            ),
        decreases a@.len() - i,
    {
        if a[i] != b[i] {
            proof {
                if a@ == b@ {
                    assert(a@[i as int] == b@[i as int]);
                }
            }
            return a[i] < b[i];
        }
        proof {
            lemma_lex_skip(a@, b@, i as int);
            assert(a@.subrange(0, i + 1) =~= a@.subrange(0, i as int).push(a@[i as int]));
            assert(b@.subrange(0, i + 1) =~= b@.subrange(0, i as int).push(b@[i as int]));
        }
        i = i + 1;
    }
    if a.len() == b.len() {
        assert(a@ =~= a@.subrange(0, i as int));
        assert(b@ =~= b@.subrange(0, i as int));
    } else {
        assert(a@.len() != b@.len());
    }
    a.len() <= b.len()
}

} // verus!
