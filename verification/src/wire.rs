//! Byte-level helpers for the colon-delimited text protocol: ASCII decimal
//! rendering and parsing, and small slice utilities that the packet
//! builders and parsers share.

use vstd::prelude::*;

verus! {

/// ASCII digit test.
pub open spec fn is_digit(b: u8) -> bool {
    48 <= b <= 57
}

pub open spec fn all_digits(s: Seq<u8>) -> bool {
    forall|i: int| 0 <= i < s.len() ==> is_digit(#[trigger] s[i])
}

/// The canonical ASCII decimal rendering of a natural number, most
/// significant digit first, no leading zeros.
pub open spec fn dec_of(n: nat) -> Seq<u8>
    decreases n,
{
    if n < 10 {
        seq![(48 + n) as u8]
    } else {
        dec_of(n / 10) + seq![(48 + n % 10) as u8]
    }
}

/// Value of a string of ASCII digits (most significant first).
pub open spec fn dec_val(s: Seq<u8>) -> nat
    decreases s.len(),
{
    if s.len() == 0 {
        0
    } else {
        dec_val(s.drop_last()) * 10 + (s.last() - 48) as nat
    }
}

/// A digit string that some number renders to: nonempty, digits only,
/// no leading zero (except the single digit `0` itself).
pub open spec fn is_canon_dec(s: Seq<u8>) -> bool {
    &&& s.len() >= 1
    &&& all_digits(s)
    &&& (s.len() > 1 ==> s[0] != 48)
}

pub proof fn lemma_dec_of_canon(n: nat)
    ensures
        is_canon_dec(dec_of(n)),
        dec_val(dec_of(n)) == n,
        n > 0 ==> dec_of(n)[0] != 48,
    decreases n,
{
    if n < 10 {
        let s = dec_of(n);
        assert(s =~= seq![(48 + n) as u8]);
        assert(s.drop_last() =~= Seq::<u8>::empty());
        assert(dec_val(Seq::<u8>::empty()) == 0);
        assert(s.last() == s[0]);
    } else {
        lemma_dec_of_canon(n / 10);
        let s = dec_of(n);
        let p = dec_of(n / 10);
        let d = (48 + n % 10) as u8;
        assert(s =~= p + seq![d]);
        assert(s.drop_last() =~= p);
        assert(s.last() == d);
        assert(dec_val(s) == dec_val(p) * 10 + (d - 48) as nat);
        vstd::arithmetic::div_mod::lemma_fundamental_div_mod(n as int, 10);
        assert(s[0] == p[0]);
    }
}

/// A canonical digit string with a nonzero leading digit has a nonzero value.
pub proof fn lemma_dec_val_nonzero(s: Seq<u8>)
    requires
        is_canon_dec(s),
        s[0] != 48,
    ensures
        dec_val(s) >= 1,
    decreases s.len(),
{
    if s.len() == 1 {
    } else {
        lemma_dec_val_nonzero(s.drop_last());
    }
}

/// Rendering is the inverse of evaluation on canonical digit strings.
pub proof fn lemma_canon_dec_of_val(s: Seq<u8>)
    requires
        is_canon_dec(s),
    ensures
        dec_of(dec_val(s)) == s,
    decreases s.len(),
{
    if s.len() == 1 {
        assert(s.drop_last() =~= Seq::<u8>::empty());
        assert(dec_val(Seq::<u8>::empty()) == 0);
        assert(s.last() == s[0]);
        assert(dec_val(s) == (s[0] - 48) as nat);
        assert(dec_of(dec_val(s)) =~= s);
    } else {
        let p = s.drop_last();
        let d = (s.last() - 48) as nat;
        assert(is_canon_dec(p));
        lemma_canon_dec_of_val(p);
        lemma_dec_val_nonzero(p);
        let n = dec_val(s);
        assert(n == dec_val(p) * 10 + d);
        assert(n / 10 == dec_val(p) && n % 10 == d) by (nonlinear_arith)
            requires
                n == dec_val(p) * 10 + d,
                d < 10,
        ;
        assert(n >= 10) by (nonlinear_arith)
            requires
                n == dec_val(p) * 10 + d,
                dec_val(p) >= 1,
        ;
        assert(dec_of(n) =~= dec_of(n / 10) + seq![(48 + n % 10) as u8]);
        assert(dec_of(n) =~= s);
    }
}

/// Render a number as ASCII decimal digits.
pub fn usize_to_dec(n: usize) -> (r: Vec<u8>)
    ensures
        r@ == dec_of(n as nat),
    decreases n,
{
    if n < 10 {
        let mut v: Vec<u8> = Vec::new();
        v.push(48 + n as u8);
        assert(v@ =~= dec_of(n as nat));
        v
    } else {
        let mut v = usize_to_dec(n / 10);
        v.push(48 + (n % 10) as u8);
        assert(v@ =~= dec_of(n as nat));
        v
    }
}

/// Render a one-byte id as ASCII decimal digits.
pub fn u8_to_dec(n: u8) -> (r: Vec<u8>)
    ensures
        r@ == dec_of(n as nat),
{
    usize_to_dec(n as usize)
}

/// Parse a canonical decimal rendering of a one-byte number. Returns
/// `None` on anything else: empty input, a non-digit, a leading zero, or
/// a value above 255.
pub fn parse_u8_dec(s: &[u8]) -> (r: Option<u8>)
    ensures
        match r {
            Some(n) => is_canon_dec(s@) && dec_val(s@) == n as nat,
            None => !(is_canon_dec(s@) && dec_val(s@) <= 255),
        },
{
    if s.len() == 0 || s.len() > 3 {
        proof {
            if is_canon_dec(s@) && s@.len() > 3 {
                lemma_dec_val_ge(s@);
            }
        }
        return None;
    }
    if s.len() > 1 && s[0] == 48 {
        return None;
    }
    let mut acc: u32 = 0;
    let mut i: usize = 0;
    while i < s.len()
        invariant
            0 <= i <= s@.len(),
            s@.len() <= 3,
            all_digits(s@.take(i as int)),
            acc == dec_val(s@.take(i as int)),
            acc <= 999,
            i < 3 ==> acc <= 99,
            i < 2 ==> acc <= 9,
            i < 1 ==> acc == 0,
        decreases s@.len() - i,
    {
        let b = s[i];
        if b < 48 || b > 57 {
            assert(!all_digits(s@));
            return None;
        }
        assert(s@.take(i + 1).drop_last() =~= s@.take(i as int));
        acc = acc * 10 + (b - 48) as u32;
        i = i + 1;
    }
    assert(s@.take(i as int) =~= s@);
    if acc > 255 {
        None
    } else {
        Some(acc as u8)
    }
}

/// Digit strings of length `k` have value at least `10^(k-1)` when the
/// leading digit is nonzero; length four or more exceeds one byte.
proof fn lemma_dec_val_ge(s: Seq<u8>)
    requires
        is_canon_dec(s),
        s.len() >= 4,
    ensures
        dec_val(s) > 255,
    decreases s.len(),
{
    lemma_dec_val_nonzero(s.drop_last().drop_last().drop_last());
    let p3 = s.drop_last().drop_last().drop_last();
    let p2 = s.drop_last().drop_last();
    let p1 = s.drop_last();
    assert(dec_val(p2) == dec_val(p3) * 10 + (p2.last() - 48) as nat);
    assert(dec_val(p1) == dec_val(p2) * 10 + (p1.last() - 48) as nat);
    assert(dec_val(s) == dec_val(p1) * 10 + (s.last() - 48) as nat);
    assert(dec_val(s) > 255) by (nonlinear_arith)
        requires
            dec_val(p3) >= 1,
            dec_val(p2) == dec_val(p3) * 10 + (p2.last() - 48) as nat,
            dec_val(p1) == dec_val(p2) * 10 + (p1.last() - 48) as nat,
            dec_val(s) == dec_val(p1) * 10 + (s.last() - 48) as nat,
    ;
}

/// Exact slice equality.
pub fn bytes_eq(a: &[u8], b: &[u8]) -> (r: bool)
    ensures
        r == (a@ == b@),
{
    if a.len() != b.len() {
        return false;
    }
    let mut i: usize = 0;
    while i < a.len()
        invariant
            0 <= i <= a@.len(),
            a@.len() == b@.len(),
            forall|j: int| 0 <= j < i ==> a@[j] == b@[j],
        decreases a@.len() - i,
    {
        if a[i] != b[i] {
            return false;
        }
        i = i + 1;
    }
    assert(a@ =~= b@);
    true
}

/// Does `data` start with `prefix`?
pub fn starts_with(data: &[u8], prefix: &[u8]) -> (r: bool)
    ensures
        r == (data@.len() >= prefix@.len() && data@.take(prefix@.len() as int) == prefix@),
{
    if data.len() < prefix.len() {
        return false;
    }
    let mut i: usize = 0;
    while i < prefix.len()
        invariant
            0 <= i <= prefix@.len(),
            prefix@.len() <= data@.len(),
            forall|j: int| 0 <= j < i ==> data@[j] == prefix@[j],
        decreases prefix@.len() - i,
    {
        if data[i] != prefix[i] {
            assert(data@.take(prefix@.len() as int)[i as int] != prefix@[i as int]);
            return false;
        }
        i = i + 1;
    }
    assert(data@.take(prefix@.len() as int) =~= prefix@);
    true
}

/// Copy `data[from..to]` into a fresh vector.
pub fn copy_range(data: &[u8], from: usize, to: usize) -> (r: Vec<u8>)
    requires
        from <= to <= data@.len(),
    ensures
        r@ == data@.subrange(from as int, to as int),
{
    let mut r: Vec<u8> = Vec::new();
    let mut i: usize = from;
    while i < to
        invariant
            from <= i <= to <= data@.len(),
            r@ == data@.subrange(from as int, i as int),
        decreases to - i,
    {
        r.push(data[i]);
        assert(r@ =~= data@.subrange(from as int, i + 1));
        i = i + 1;
    }
    r
}

/// Index of the first occurrence of `b` in `data` at or after `from`.
pub fn find_byte(data: &[u8], from: usize, b: u8) -> (r: Option<usize>)
    requires
        from <= data@.len(),
    ensures
        match r {
            Some(i) => from <= i < data@.len() && data@[i as int] == b && forall|j: int|
                from <= j < i ==> data@[j] != b,
            None => forall|j: int| from <= j < data@.len() ==> data@[j] != b,
        },
{
    let mut i: usize = from;
    while i < data.len()
        invariant
            from <= i <= data@.len(),
            forall|j: int| from <= j < i ==> data@[j] != b,
        decreases data@.len() - i,
    {
        if data[i] == b {
            return Some(i);
        }
        i = i + 1;
    }
    None
}

} // verus!
