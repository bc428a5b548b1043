//! Unbounded unsigned integers held as little-endian base-256 limbs.
use vstd::prelude::*;

verus! {

/// `256` raised to `e`.
pub open spec fn pow256(e: nat) -> nat
    decreases e,
{
    if e == 0 {
        1
    } else {
        256 * pow256((e - 1) as nat)
    }
}

/// The number that little-endian base-256 limbs stand for.
pub open spec fn limbs_value(s: Seq<u8>) -> nat
    decreases s.len(),
{
    if s.len() == 0 {
        0
    } else {
        limbs_value(s.drop_last()) + s.last() as nat * pow256((s.len() - 1) as nat)
    }
}

pub proof fn lemma_pow256_positive(e: nat)
    ensures
        pow256(e) >= 1,
    decreases e,
{
    if e > 0 {
        lemma_pow256_positive((e - 1) as nat);
    }
}

/// Reading the lowest limb first: `s = s[0] + 256 * rest`.
pub proof fn lemma_limbs_value_first(s: Seq<u8>)
    requires
        s.len() > 0,
    ensures
        limbs_value(s) == s[0] as nat + 256 * limbs_value(s.drop_first()),
    decreases s.len(),
{
    if s.len() == 1 {
        assert(s.drop_last() =~= Seq::<u8>::empty());
        assert(s.drop_first() =~= Seq::<u8>::empty());
        assert(limbs_value(Seq::<u8>::empty()) == 0);
        assert(pow256(0) == 1);
        assert(limbs_value(s) == limbs_value(s.drop_last()) + s.last() as nat * pow256(0));
        assert(s.last() == s[0]);
    } else {
        let dl = s.drop_last();
        let df = s.drop_first();
        lemma_limbs_value_first(dl);
        assert(df.drop_last() =~= dl.drop_first());
        assert(df.last() == s.last());
        let p = pow256((s.len() - 2) as nat);
        assert(pow256((s.len() - 1) as nat) == 256 * p);
        let l = s.last() as nat;
        assert(256 * (limbs_value(dl.drop_first()) + l * p) == 256 * limbs_value(dl.drop_first())
            + l * (256 * p)) by (nonlinear_arith);
    }
}

/// Limbs above position `k` that two sequences share contribute the same amount.
pub proof fn lemma_limbs_value_same_top(a: Seq<u8>, b: Seq<u8>, k: int)
    requires
        0 <= k <= a.len(),
        a.len() == b.len(),
        forall|j: int| k <= j < a.len() ==> a[j] == b[j],
    ensures
        limbs_value(a) - limbs_value(a.take(k)) == limbs_value(b) - limbs_value(b.take(k)),
    decreases a.len(),
{
    if a.len() == k {
        assert(a.take(k) =~= a);
        assert(b.take(k) =~= b);
    } else {
        lemma_limbs_value_same_top(a.drop_last(), b.drop_last(), k);
        assert(a.drop_last().take(k) =~= a.take(k));
        assert(b.drop_last().take(k) =~= b.take(k));
    }
}

/// Extending a prefix by one limb.
pub proof fn lemma_limbs_value_take(s: Seq<u8>, i: int)
    requires
        0 <= i < s.len(),
    ensures
        limbs_value(s.take(i + 1)) == limbs_value(s.take(i)) + s[i] as nat * pow256(i as nat),
{
    assert(s.take(i + 1) =~= s.take(i).push(s[i]));
    lemma_limbs_value_push(s.take(i), s[i]);
}

/// Appending a limb on top.
pub proof fn lemma_limbs_value_push(s: Seq<u8>, x: u8)
    ensures
        limbs_value(s.push(x)) == limbs_value(s) + x as nat * pow256(s.len()),
{
    let t = s.push(x);
    assert(t.drop_last() =~= s);
    assert((t.len() - 1) as nat == s.len());
    assert(limbs_value(t) == limbs_value(t.drop_last()) + t.last() as nat * pow256(
        (t.len() - 1) as nat,
    ));
}

/// A single limb stands for itself.
pub proof fn lemma_limbs_value_single(x: u8)
    ensures
        limbs_value(seq![x]) == x as nat,
{
    let e = Seq::<u8>::empty();
    lemma_limbs_value_push(e, x);
    assert(seq![x] =~= e.push(x));
    assert(limbs_value(e) == 0);
    assert(pow256(e.len()) == 1);
}

/// The value is zero exactly when every limb is.
pub proof fn lemma_limbs_value_zero(s: Seq<u8>)
    ensures
        (limbs_value(s) == 0) <==> (forall|j: int| 0 <= j < s.len() ==> s[j] == 0),
    decreases s.len(),
{
    if s.len() > 0 {
        lemma_limbs_value_zero(s.drop_last());
        let p = pow256((s.len() - 1) as nat);
        lemma_pow256_positive((s.len() - 1) as nat);
        let l = s.last() as nat;
        assert(l * p == 0 <==> l == 0) by (nonlinear_arith)
            requires
                p >= 1,
        ;
        assert(forall|j: int| 0 <= j < s.len() - 1 ==> s.drop_last()[j] == s[j]);
        if limbs_value(s) == 0 {
            assert forall|j: int| 0 <= j < s.len() implies s[j] == 0 by {
                if j < s.len() - 1 {
                    assert(s.drop_last()[j] == s[j]);
                }
            }
        }
    }
}

/// An unbounded unsigned integer: base-256 limbs, least significant first.
#[derive(Debug, Eq)]
pub struct BigUint {
    pub digits: Vec<u8>,
}

impl PartialEq for BigUint {
    /// Limb by limb.
    fn eq(&self, other: &BigUint) -> (r: bool)
        ensures
            r == (self.digits@ == other.digits@),
    {
        let n = self.digits.len();
        if n != other.digits.len() {
            return false;
        }
        let mut i: usize = 0;
        while i < n
            invariant
                n == self.digits@.len(),
                n == other.digits@.len(),
                i <= n,
                forall|j: int| 0 <= j < i ==> self.digits@[j] == other.digits@[j],
            decreases n - i,
        {
            if self.digits[i] != other.digits[i] {
                return false;
            }
            i += 1;
        }
        assert(self.digits@ =~= other.digits@);
        true
    }
}

impl vstd::std_specs::cmp::PartialEqSpecImpl for BigUint {
    open spec fn obeys_eq_spec() -> bool {
        true
    }

    open spec fn eq_spec(&self, other: &BigUint) -> bool {
        self.digits@ == other.digits@
    }
}

impl Clone for BigUint {
    fn clone(&self) -> (r: Self)
        ensures
            r.digits@ == self.digits@,
    {
        BigUint { digits: self.digits.clone() }
    }
}

impl View for BigUint {
    type V = nat;

    open spec fn view(&self) -> nat {
        limbs_value(self.digits@)
    }
}

impl BigUint {
    /// At least one limb, and no zero limb on top unless it is the only one.
    pub open spec fn wf(&self) -> bool {
        &&& self.digits@.len() >= 1
        &&& (self.digits@.len() == 1 || self.digits@.last() != 0)
    }

    /// Zero, as the single limb `[0]`.
    pub fn new() -> (r: Self)
        ensures
            r.wf(),
            r@ == 0,
            r.digits@ == seq![0u8],
    {
        let r = BigUint { digits: vec![0] };
        proof {
            lemma_limbs_value_single(0);
            assert(r.digits@ =~= seq![0u8]);
        }
        r
    }

    /// The number `n`, below 256.
    pub fn from_u8(n: u8) -> (r: Self)
        ensures
            r.wf(),
            r@ == n as nat,
    {
        let r = BigUint { digits: vec![n] };
        proof {
            lemma_limbs_value_single(n);
            assert(r.digits@ =~= seq![n]);
        }
        r
    }

    /// Whether every limb is zero, which is whether the number is zero.
    pub fn is_zero(&self) -> (r: bool)
        ensures
            r == (self@ == 0),
    {
        let n = self.digits.len();
        let mut i: usize = 0;
        while i < n
            invariant
                n == self.digits@.len(),
                i <= n,
                forall|j: int| 0 <= j < i ==> self.digits@[j] == 0,
            decreases n - i,
        {
            if self.digits[i] != 0 {
                proof {
                    lemma_limbs_value_zero(self.digits@);
                    assert(self.digits@[i as int] != 0);
                }
                return false;
            }
            i += 1;
        }
        proof {
            lemma_limbs_value_zero(self.digits@);
        }
        true
    }

    /// Removes zero limbs from the top, keeping at least one.
    fn trim(&mut self)
        requires
            old(self).digits@.len() >= 1,
        ensures
            final(self).wf(),
            final(self)@ == old(self)@,
    {
        while self.digits.len() > 1 && self.digits[self.digits.len() - 1] == 0
            invariant
                self.digits@.len() >= 1,
                limbs_value(self.digits@) == limbs_value(old(self).digits@),
            decreases self.digits@.len(),
        {
            let ghost before = self.digits@;
            proof {
                lemma_limbs_value_push(before.drop_last(), 0);
                assert(before =~= before.drop_last().push(0));
            }
            self.digits.pop();
            assert(self.digits@ =~= before.drop_last());
        }
    }

    /// Multiplies in place by `n`.
    pub fn mul_small(&mut self, n: u8)
        requires
            old(self).wf(),
        ensures
            final(self).wf(),
            final(self)@ == old(self)@ * n as nat,
    {
        let ghost orig = self.digits@;
        let len = self.digits.len();
        let mut carry: u16 = 0;
        let mut i: usize = 0;
        assert(self.digits@.take(0) =~= Seq::<u8>::empty());
        assert(orig.take(0) =~= Seq::<u8>::empty());
        assert(limbs_value(Seq::<u8>::empty()) == 0);
        assert(pow256(0) == 1);
        while i < len
            invariant
                len == self.digits@.len(),
                len == orig.len(),
                i <= len,
                carry < 256,
                forall|j: int| i <= j < len ==> self.digits@[j] == orig[j],
                limbs_value(self.digits@.take(i as int)) + carry as nat * pow256(i as nat)
                    == limbs_value(orig.take(i as int)) * n as nat,
            decreases len - i,
        {
            let d = self.digits[i];
            assert((d as nat) * (n as nat) <= 255 * 255) by (nonlinear_arith)
                requires
                    d <= 255,
                    n <= 255,
            ;
            let prod: u16 = d as u16 * n as u16 + carry;
            let ghost before = self.digits@;
            self.digits.set(i, (prod % 256) as u8);
            proof {
                lemma_limbs_value_take(self.digits@, i as int);
                lemma_limbs_value_take(orig, i as int);
                assert(self.digits@.take(i as int) =~= before.take(i as int));
                let p = pow256(i as nat);
                assert(pow256((i + 1) as nat) == 256 * p);
                let pr = prod as nat;
                assert((pr % 256) * p + (pr / 256) * (256 * p) == pr * p) by (nonlinear_arith);
                assert(pr * p == (d as nat) * (n as nat) * p + carry as nat * p) by (nonlinear_arith)
                    requires
                        pr == (d as nat) * (n as nat) + carry as nat,
                ;
                assert((limbs_value(orig.take(i as int)) + orig[i as int] as nat * p) * n as nat
                    == limbs_value(orig.take(i as int)) * n as nat + (d as nat) * (n as nat) * p)
                    by (nonlinear_arith)
                    requires
                        d == orig[i as int],
                ;
            }
            carry = prod / 256;
            i += 1;
        }
        assert(self.digits@.take(len as int) =~= self.digits@);
        assert(orig.take(len as int) =~= orig);
        if carry > 0 {
            let ghost before = self.digits@;
            self.digits.push(carry as u8);
            proof {
                lemma_limbs_value_push(before, carry as u8);
            }
        }
        self.trim();
    }

    /// Adds `n` in place; the carry stops at the first limb that absorbs it.
    pub fn add_small(&mut self, n: u8)
        requires
            old(self).wf(),
        ensures
            final(self).wf(),
            final(self)@ == old(self)@ + n as nat,
    {
        let ghost orig = self.digits@;
        let len = self.digits.len();
        let mut carry: u8 = n;
        let mut i: usize = 0;
        assert(self.digits@.take(0) =~= Seq::<u8>::empty());
        assert(orig.take(0) =~= Seq::<u8>::empty());
        assert(limbs_value(Seq::<u8>::empty()) == 0);
        assert(pow256(0) == 1);
        while i < len
            invariant
                len == self.digits@.len(),
                len == orig.len(),
                i <= len,
                forall|j: int| i <= j < len ==> self.digits@[j] == orig[j],
                limbs_value(self.digits@.take(i as int)) + carry as nat * pow256(i as nat)
                    == limbs_value(orig.take(i as int)) + n as nat,
                orig == old(self).digits@,
            decreases len - i,
        {
            let d = self.digits[i];
            let sum: u16 = d as u16 + carry as u16;
            let ghost before = self.digits@;
            self.digits.set(i, (sum % 256) as u8);
            proof {
                lemma_limbs_value_take(self.digits@, i as int);
                lemma_limbs_value_take(orig, i as int);
                assert(self.digits@.take(i as int) =~= before.take(i as int));
                let p = pow256(i as nat);
                assert(pow256((i + 1) as nat) == 256 * p);
                let s = sum as nat;
                assert((s % 256) * p + (s / 256) * (256 * p) == s * p) by (nonlinear_arith);
                assert(s * p == (d as nat) * p + carry as nat * p) by (nonlinear_arith)
                    requires
                        s == d as nat + carry as nat,
                ;
            }
            carry = (sum / 256) as u8;
            i += 1;
            if carry == 0 {
                proof {
                    assert(limbs_value(self.digits@.take(i as int)) == limbs_value(orig.take(i as int)) + n as nat);
                    lemma_limbs_value_same_top(self.digits@, orig, i as int);
                    assert(limbs_value(self.digits@) == limbs_value(orig) + n as nat);
                }
                self.trim();
                return;
            }
        }
        assert(self.digits@.take(len as int) =~= self.digits@);
        assert(orig.take(len as int) =~= orig);
        if carry > 0 {
            let ghost before = self.digits@;
            self.digits.push(carry);
            proof {
                lemma_limbs_value_push(before, carry);
            }
        }
        self.trim();
    }

    /// Divides in place by `n`, from the top limb down, and returns the remainder.
    pub fn div_mod_small(&mut self, n: u16) -> (r: u8)
        requires
            old(self).wf(),
            1 <= n <= 256,
        ensures
            final(self).wf(),
            old(self)@ == final(self)@ * n as nat + r as nat,
            (r as nat) < n as nat,
    {
        let ghost orig = self.digits@;
        let len = self.digits.len();
        let mut remainder: u16 = 0;
        let mut i: usize = len;
        assert(self.digits@.skip(len as int) =~= Seq::<u8>::empty());
        assert(orig.skip(len as int) =~= Seq::<u8>::empty());
        assert(limbs_value(Seq::<u8>::empty()) == 0);
        while i > 0
            invariant
                len == self.digits@.len(),
                len == orig.len(),
                i <= len,
                1 <= n <= 256,
                remainder < n,
                forall|j: int| 0 <= j < i ==> self.digits@[j] == orig[j],
                limbs_value(self.digits@.skip(i as int)) * n as nat + remainder as nat
                    == limbs_value(orig.skip(i as int)),
            decreases i,
        {
            i -= 1;
            let d = self.digits[i];
            assert(remainder as nat * 256 + d as nat <= 65535) by (nonlinear_arith)
                requires
                    remainder < n,
                    n <= 256,
                    d <= 255,
            ;
            let dividend: u16 = remainder * 256 + d as u16;
            assert(dividend / n < 256) by (nonlinear_arith)
                requires
                    dividend == remainder * 256 + d as nat,
                    remainder < n,
                    d <= 255,
                    n >= 1,
            ;
            let ghost before = self.digits@;
            self.digits.set(i, (dividend / n) as u8);
            proof {
                lemma_limbs_value_first(self.digits@.skip(i as int));
                lemma_limbs_value_first(orig.skip(i as int));
                assert(self.digits@.skip(i as int).drop_first() =~= before.skip(i + 1));
                assert(orig.skip(i as int).drop_first() =~= orig.skip(i + 1));
                let q = (dividend / n) as nat;
                let rr = (dividend % n) as nat;
                let hi = limbs_value(before.skip(i + 1));
                assert((q + 256 * hi) * n + rr == (q * n + rr) + 256 * (hi * n))
                    by (nonlinear_arith);
                assert(q * n + rr == dividend as nat) by (nonlinear_arith)
                    requires
                        q == dividend as nat / n as nat,
                        rr == dividend as nat % n as nat,
                        n >= 1,
                ;
            }
            remainder = dividend % n;
        }
        assert(self.digits@.skip(0) =~= self.digits@);
        assert(orig.skip(0) =~= orig);
        self.trim();
        remainder as u8
    }
}

} // verus!
