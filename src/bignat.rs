use vstd::prelude::*;

verus! {

pub open spec fn p10(k: nat) -> nat
    decreases k,
{
    if k == 0 {
        1
    } else {
        10 * p10((k - 1) as nat)
    }
}

/// The digit at position `i`, counting from the least significant; zero
/// past the end.
pub open spec fn dig(s: Seq<u8>, i: int) -> nat {
    if 0 <= i < s.len() {
        s[i] as nat
    } else {
        0
    }
}

/// The value of the lowest `i` digits.
pub open spec fn vp(s: Seq<u8>, i: nat) -> nat
    decreases i,
{
    if i == 0 {
        0
    } else {
        vp(s, (i - 1) as nat) + dig(s, i - 1) * p10((i - 1) as nat)
    }
}

/// The value of a little-endian sequence of decimal digits.
pub open spec fn val(s: Seq<u8>) -> nat {
    vp(s, s.len())
}

pub open spec fn digits_ok(s: Seq<u8>) -> bool {
    forall|i: int| 0 <= i < s.len() ==> #[trigger] s[i] < 10
}

pub proof fn lemma_p10_pos(k: nat)
    ensures
        p10(k) >= 1,
    decreases k,
{
    if k > 0 {
        lemma_p10_pos((k - 1) as nat);
    }
}

/// Digits past the end add nothing.
pub proof fn lemma_vp_past_end(s: Seq<u8>, i: nat)
    requires
        i >= s.len(),
    ensures
        vp(s, i) == val(s),
    decreases i,
{
    if i > s.len() {
        lemma_vp_past_end(s, (i - 1) as nat);
        assert(dig(s, i - 1) == 0);
        assert(vp(s, i) == vp(s, (i - 1) as nat) + dig(s, i - 1) * p10((i - 1) as nat));
    }
}

/// Two sequences with the same low digits have the same low value.
pub proof fn lemma_vp_agree(s: Seq<u8>, t: Seq<u8>, i: nat)
    requires
        forall|j: int| 0 <= j < i ==> dig(s, j) == dig(t, j),
    ensures
        vp(s, i) == vp(t, i),
    decreases i,
{
    if i > 0 {
        lemma_vp_agree(s, t, (i - 1) as nat);
    }
}

pub proof fn lemma_val_push(s: Seq<u8>, d: u8)
    ensures
        val(s.push(d)) == val(s) + d * p10(s.len()),
{
    let t = s.push(d);
    assert forall|j: int| 0 <= j < s.len() implies dig(s, j) == dig(t, j) by {}
    lemma_vp_agree(s, t, s.len());
}

/// A number of `i` digits is below `10^i`.
pub proof fn lemma_vp_bound(s: Seq<u8>, i: nat)
    requires
        digits_ok(s),
    ensures
        vp(s, i) < p10(i),
    decreases i,
{
    if i > 0 {
        let k = (i - 1) as nat;
        lemma_vp_bound(s, k);
        assert(dig(s, k as int) <= 9);
        let a = vp(s, k);
        let d = dig(s, k as int);
        let p = p10(k);
        assert(a + d * p < 10 * p) by (nonlinear_arith)
            requires
                a < p,
                d <= 9,
        ;
    }
}

/// The lowest digit and the rest: `val(s) == s[0] + 10 * val(rest)`.
pub proof fn lemma_vp_front(s: Seq<u8>, i: nat)
    requires
        1 <= i <= s.len(),
    ensures
        vp(s, i) == s[0] + 10 * vp(s.drop_first(), (i - 1) as nat),
    decreases i,
{
    if i == 1 {
        assert(p10(0) == 1);
        assert(vp(s, 1) == vp(s, 0) + dig(s, 0) * p10(0));
        assert(vp(s.drop_first(), 0) == 0);
    } else {
        let k = (i - 1) as nat;
        lemma_vp_front(s, k);
        assert(vp(s, i) == vp(s, k) + dig(s, k as int) * p10(k));
        assert(vp(s.drop_first(), k) == vp(s.drop_first(), (k - 1) as nat) + dig(s.drop_first(), k - 1) * p10((k - 1) as nat));
        let r = s.drop_first();
        assert(dig(s, k as int) == dig(r, k - 1));
        assert(p10(k) == 10 * p10((k - 1) as nat));
        let a = vp(r, (k - 1) as nat);
        let d = dig(r, k - 1);
        let p = p10((k - 1) as nat);
        assert(10 * a + d * (10 * p) == 10 * (a + d * p)) by (nonlinear_arith);
    }
}

pub proof fn lemma_val_front(s: Seq<u8>)
    requires
        s.len() >= 1,
    ensures
        val(s) == s[0] + 10 * val(s.drop_first()),
{
    lemma_vp_front(s, s.len());
}

/// An unbounded natural number, held as little-endian decimal digits.
#[derive(Debug)]
pub struct BigNat {
    digits: Vec<u8>,
}

impl View for BigNat {
    type V = nat;

    closed spec fn view(&self) -> nat {
        val(self.digits@)
    }
}

impl Clone for BigNat {
    fn clone(&self) -> (r: BigNat)
        ensures
            r@ == self@,
    {
        proof {
            use_type_invariant(self);
        }
        BigNat { digits: self.digits.clone() }
    }
}

impl BigNat {
    #[verifier::type_invariant]
    spec fn inv(&self) -> bool {
        digits_ok(self.digits@)
    }

    pub fn zero() -> (r: BigNat)
        ensures
            r@ == 0,
    {
        BigNat { digits: Vec::new() }
    }

    /// The number whose decimal digits, least significant first, are `digits`.
    pub fn from_digits(digits: Vec<u8>) -> (r: BigNat)
        requires
            digits_ok(digits@),
        ensures
            r@ == val(digits@),
    {
        BigNat { digits }
    }

    /// The decimal digits, least significant first.
    pub fn digits(&self) -> (r: Vec<u8>)
        ensures
            val(r@) == self@,
            digits_ok(r@),
    {
        proof {
            use_type_invariant(self);
        }
        self.digits.clone()
    }

    pub fn from_u64(v: u64) -> (r: BigNat)
        ensures
            r@ == v as nat,
    {
        let mut out: Vec<u8> = Vec::new();
        let mut rest = v;
        proof {
            assert(p10(0) == 1);
            assert(val(out@) == 0);
        }
        while rest > 0
            invariant
                digits_ok(out@),
                val(out@) + rest * p10(out@.len() as nat) == v as nat,
            decreases rest,
        {
            let d = (rest % 10) as u8;
            proof {
                lemma_val_push(out@, d);
                let p = p10(out@.len() as nat);
                let r = rest as nat;
                assert((r % 10) * p + (r / 10) * (10 * p) == r * p) by (nonlinear_arith);
            }
            out.push(d);
            rest = rest / 10;
        }
        BigNat { digits: out }
    }

    pub fn add(&self, other: &BigNat) -> (r: BigNat)
        ensures
            r@ == self@ + other@,
    {
        proof {
            use_type_invariant(self);
            use_type_invariant(other);
        }
        let a = &self.digits;
        let b = &other.digits;
        let n = if a.len() > b.len() {
            a.len()
        } else {
            b.len()
        };
        let mut out: Vec<u8> = Vec::new();
        let mut carry: u8 = 0;
        let mut i: usize = 0;
        while i < n
            invariant
                i <= n,
                n >= a.len(),
                n >= b.len(),
                out@.len() == i,
                digits_ok(out@),
                digits_ok(a@),
                digits_ok(b@),
                carry <= 1,
                vp(out@, i as nat) + carry * p10(i as nat) == vp(a@, i as nat) + vp(b@, i as nat),
            decreases n - i,
        {
            let da: u8 = if i < a.len() {
                a[i]
            } else {
                0
            };
            let db: u8 = if i < b.len() {
                b[i]
            } else {
                0
            };
            let s = da + db + carry;
            let d = s % 10;
            proof {
                lemma_val_push(out@, d);
                assert(val(out@) == vp(out@, i as nat));
                let p = p10(i as nat);
                let sn = s as nat;
                assert((sn % 10) * p + (sn / 10) * (10 * p) == sn * p) by (nonlinear_arith);
                assert(sn * p == da * p + db * p + carry * p) by (nonlinear_arith)
                    requires sn == da + db + carry;
                assert(dig(a@, i as int) == da);
                assert(dig(b@, i as int) == db);
            }
            out.push(d);
            carry = s / 10;
            i = i + 1;
        }
        proof {
            lemma_vp_past_end(a@, n as nat);
            lemma_vp_past_end(b@, n as nat);
        }
        if carry > 0 {
            proof {
                lemma_val_push(out@, carry);
            }
            out.push(carry);
        }
        BigNat { digits: out }
    }

    /// `self - other`, and whether it went below zero; the difference is
    /// exact when it did not.
    pub fn sub_borrow(&self, other: &BigNat) -> (r: (BigNat, bool))
        ensures
            r.1 == (self@ < other@),
            !r.1 ==> r.0@ == self@ - other@,
    {
        proof {
            use_type_invariant(self);
            use_type_invariant(other);
        }
        let a = &self.digits;
        let b = &other.digits;
        let n = if a.len() > b.len() {
            a.len()
        } else {
            b.len()
        };
        let mut out: Vec<u8> = Vec::new();
        let mut borrow: u8 = 0;
        let mut i: usize = 0;
        while i < n
            invariant
                i <= n,
                n >= a.len(),
                n >= b.len(),
                out@.len() == i,
                digits_ok(out@),
                digits_ok(a@),
                digits_ok(b@),
                borrow <= 1,
                vp(out@, i as nat) - borrow * p10(i as nat) == vp(a@, i as nat) - vp(b@, i as nat),
            decreases n - i,
        {
            let da: u8 = if i < a.len() {
                a[i]
            } else {
                0
            };
            let db: u8 = if i < b.len() {
                b[i]
            } else {
                0
            };
            let need = db + borrow;
            let (d, nb): (u8, u8) = if da >= need {
                (da - need, 0)
            } else {
                (da + 10 - need, 1)
            };
            proof {
                lemma_val_push(out@, d);
                assert(val(out@) == vp(out@, i as nat));
                let p = p10(i as nat);
                assert(d * p - nb * (10 * p) == da * p - db * p - borrow * p) by (nonlinear_arith)
                    requires
                        d + 10 * nb == da + 10 * nb - db - borrow + 0 || true,
                        d as int == da as int - db as int - borrow as int + 10 * nb as int,
                ;
                assert(dig(a@, i as int) == da);
                assert(dig(b@, i as int) == db);
            }
            out.push(d);
            borrow = nb;
            i = i + 1;
        }
        proof {
            lemma_vp_past_end(a@, n as nat);
            lemma_vp_past_end(b@, n as nat);
            lemma_vp_bound(out@, n as nat);
            lemma_vp_bound(a@, n as nat);
            lemma_vp_bound(b@, n as nat);
        }
        (BigNat { digits: out }, borrow == 1)
    }

    pub fn lt(&self, other: &BigNat) -> (r: bool)
        ensures
            r == (self@ < other@),
    {
        self.sub_borrow(other).1
    }

    pub fn is_zero(&self) -> (r: bool)
        ensures
            r == (self@ == 0),
    {
        !BigNat::zero().lt(self)
    }

    /// `self * 10`.
    fn times_ten(&self) -> (r: BigNat)
        ensures
            r@ == 10 * self@,
    {
        proof {
            use_type_invariant(self);
        }
        let mut out: Vec<u8> = Vec::new();
        out.push(0);
        let mut i: usize = 0;
        while i < self.digits.len()
            invariant
                i <= self.digits.len(),
                out@ == seq![0u8] + self.digits@.take(i as int),
                digits_ok(self.digits@),
            decreases self.digits.len() - i,
        {
            out.push(self.digits[i]);
            i = i + 1;
            proof {
                assert(out@ =~= seq![0u8] + self.digits@.take(i as int));
            }
        }
        proof {
            assert(self.digits@.take(i as int) =~= self.digits@);
            lemma_val_front(out@);
            assert(out@.drop_first() =~= self.digits@);
            assert(digits_ok(out@)) by {
                assert forall|j: int| 0 <= j < out@.len() implies #[trigger] out@[j] < 10 by {
                    if j > 0 {
                        assert(out@[j] == self.digits@[j - 1]);
                    }
                }
            }
        }
        BigNat { digits: out }
    }

    /// `self * d` for one decimal digit `d`.
    fn times_digit(&self, d: u8) -> (r: BigNat)
        requires
            d < 10,
        ensures
            r@ == self@ * d,
    {
        proof {
            use_type_invariant(self);
        }
        let a = &self.digits;
        let mut out: Vec<u8> = Vec::new();
        let mut carry: u8 = 0;
        let mut i: usize = 0;
        proof {
            assert(vp(out@, 0) == 0);
            assert(vp(a@, 0) == 0);
        }
        while i < a.len()
            invariant
                i <= a.len(),
                out@.len() == i,
                digits_ok(out@),
                digits_ok(a@),
                d < 10,
                carry <= 9,
                vp(out@, i as nat) + carry * p10(i as nat) == vp(a@, i as nat) * d,
            decreases a.len() - i,
        {
            let ai = a[i];
            proof {
                assert(a@[i as int] < 10);
                assert(ai * d <= 81) by (nonlinear_arith)
                    requires ai < 10, d < 10;
            }
            let s = ai * d + carry;
            let digit = s % 10;
            proof {
                lemma_val_push(out@, digit);
                assert(val(out@) == vp(out@, i as nat));
                let p = p10(i as nat);
                let sn = s as nat;
                let v = vp(a@, i as nat);
                assert((sn % 10) * p + (sn / 10) * (10 * p) == sn * p) by (nonlinear_arith);
                assert(sn * p == a@[i as int] * d * p + carry * p) by (nonlinear_arith)
                    requires sn == a@[i as int] * d + carry;
                assert((v + a@[i as int] * p) * d == v * d + a@[i as int] * d * p) by (nonlinear_arith);
                assert(dig(a@, i as int) == a@[i as int]);
            }
            out.push(digit);
            carry = s / 10;
            i = i + 1;
        }
        if carry > 0 {
            proof {
                lemma_val_push(out@, carry);
            }
            out.push(carry);
        }
        BigNat { digits: out }
    }

    pub fn mul(&self, other: &BigNat) -> (r: BigNat)
        ensures
            r@ == self@ * other@,
    {
        proof {
            use_type_invariant(self);
        }
        let a = &self.digits;
        let mut acc = BigNat::zero();
        let mut i: usize = a.len();
        proof {
            assert(a@.skip(i as int) =~= Seq::<u8>::empty());
        }
        while i > 0
            invariant
                i <= a.len(),
                digits_ok(a@),
                acc@ == val(a@.skip(i as int)) * other@,
            decreases i,
        {
            i = i - 1;
            let part = other.times_digit(a[i]);
            acc = acc.times_ten().add(&part);
            proof {
                let s = a@.skip(i as int);
                lemma_val_front(s);
                assert(s.drop_first() =~= a@.skip(i as int + 1));
                let x = val(a@.skip(i as int + 1));
                let o = other@;
                let d = a@[i as int] as nat;
                assert(10 * (x * o) + o * d == (d + 10 * x) * o) by (nonlinear_arith);
            }
        }
        proof {
            assert(a@.skip(0) =~= a@);
        }
        acc
    }
}

} // verus!
