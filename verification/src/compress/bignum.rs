//! Natural numbers of any size, as far as counting bits needs them.

use vstd::prelude::*;

use vstd::arithmetic::power2::{
    lemma2_to64, lemma_pow2_adds, lemma_pow2_pos, lemma_pow2_strictly_increases, pow2,
};

verus! {

/// The number that limbs of 32 bits write, the lowest limb first.
pub open spec fn value(limbs: Seq<u32>) -> nat
    decreases limbs.len(),
{
    if limbs.len() == 0 {
        0
    } else {
        value(limbs.drop_last()) + limbs.last() as nat * pow2(32 * (limbs.len() - 1) as nat)
    }
}

/// Whether `b` bits are what it takes to tell `x` values apart: enough, and
/// fewer would not be.
pub open spec fn is_bit_count(b: nat, x: nat) -> bool {
    pow2(b) >= x && (b > 0 ==> pow2((b - 1) as nat) < x)
}

/// A bit count is the least number of bits that is enough.
pub proof fn bit_count_is_least(b: nat, x: nat, other: nat)
    requires
        is_bit_count(b, x),
        pow2(other) >= x,
    ensures
        b <= other,
{
    if other < b {
        if other < b - 1 {
            lemma_pow2_strictly_increases(other, (b - 1) as nat);
        }
    }
}

/// A positive number: its limbs, without leading zeros.
pub struct Natural {
    limbs: Vec<u32>,
}

impl View for Natural {
    type V = nat;

    closed spec fn view(&self) -> nat {
        value(self.limbs@)
    }
}

proof fn value_push(s: Seq<u32>, x: u32)
    ensures
        value(s.push(x)) == value(s) + x as nat * pow2(32 * s.len()),
{
    assert(s.push(x).drop_last() =~= s);
}

/// Numbers of fewer limbs are below the weight of the next limb.
proof fn value_bounded(s: Seq<u32>)
    ensures
        value(s) < pow2(32 * s.len()),
    decreases s.len(),
{
    lemma2_to64();
    if s.len() > 0 {
        let n = (s.len() - 1) as nat;
        value_bounded(s.drop_last());
        lemma_pow2_adds(32, 32 * n);
        let w = pow2(32 * n);
        let x = s.last() as nat;
        assert(x * w + w <= 0x1_0000_0000 * w) by (nonlinear_arith)
            requires
                x + 1 <= 0x1_0000_0000,
        ;
        assert(32 + 32 * n == 32 * s.len());
    }
}

impl Natural {
    #[verifier::type_invariant]
    spec fn normal(&self) -> bool {
        self.limbs@.len() > 0 && self.limbs@.last() > 0
    }

    /// The number one.
    pub fn one() -> (r: Self)
        ensures
            r@ == 1,
    {
        let mut limbs: Vec<u32> = Vec::new();
        limbs.push(1);
        proof {
            lemma2_to64();
            value_push(Seq::empty(), 1);
            assert(limbs@ =~= Seq::<u32>::empty().push(1));
        }
        Natural { limbs }
    }

    /// The product with a positive factor.
    pub fn times(self, m: u32) -> (r: Self)
        requires
            m > 0,
        ensures
            r@ == self@ * m as nat,
    {
        proof {
            use_type_invariant(&self);
            lemma2_to64();
        }
        let old_limbs = self.limbs;
        let n: usize = old_limbs.len();
        let mut limbs: Vec<u32> = Vec::new();
        let mut carry: u64 = 0;
        let mut i: usize = 0;
        let ghost s = old_limbs@;
        proof {
            assert(s.take(0) =~= Seq::<u32>::empty());
            assert(0 * pow2(0) == 0 && 0 * m == 0) by (nonlinear_arith);
        }
        while i < n
            invariant
                i <= n,
                n == s.len(),
                s == old_limbs@,
                m > 0,
                carry < 0x1_0000_0000,
                limbs@.len() == i,
                value(limbs@) + carry as nat * pow2(32 * i as nat) == value(s.take(i as int))
                    * m as nat,
                i > 0 && s[i - 1] > 0 && carry == 0 ==> limbs@[i - 1] > 0,
            decreases n - i,
        {
            let x: u32 = old_limbs[i];
            proof {
                assert(x as int * m as int + carry <= 0xffff_ffff * 0xffff_ffff + 0xffff_ffff)
                    by (nonlinear_arith)
                    requires
                        x <= 0xffff_ffff,
                        m <= 0xffff_ffff,
                        carry <= 0xffff_ffff,
                ;
                assert(x as int * m as int <= 0xffff_ffff * 0xffff_ffff) by (nonlinear_arith)
                    requires
                        x <= 0xffff_ffff,
                        m <= 0xffff_ffff,
                ;
                if x > 0 {
                    assert(x as int * m as int > 0) by (nonlinear_arith)
                        requires
                            x > 0,
                            m > 0,
                    ;
                }
            }
            let t: u64 = x as u64 * m as u64 + carry;
            let low: u32 = (t % 0x1_0000_0000) as u32;
            let next: u64 = t / 0x1_0000_0000;
            proof {
                let w = pow2(32 * i as nat);
                let a = value(limbs@) as int;
                let b = value(s.take(i as int)) as int;
                lemma2_to64();
                lemma_pow2_adds(32, 32 * i as nat);
                assert(32 + 32 * i as nat == 32 * (i + 1) as nat);
                value_push(limbs@, low);
                value_push(s.take(i as int), x);
                assert(s.take(i + 1) =~= s.take(i as int).push(x));
                assert(a + low * w + next * (0x1_0000_0000 * w) == (b + x * w) * m)
                    by (nonlinear_arith)
                    requires
                        a + carry * w == b * m,
                        x * m + carry == low + next * 0x1_0000_0000,
                ;
                assert(next < 0x1_0000_0000);
            }
            limbs.push(low);
            carry = next;
            i = i + 1;
        }
        proof {
            assert(s.take(n as int) =~= s);
        }
        if carry > 0 {
            proof {
                value_push(limbs@, carry as u32);
            }
            limbs.push(carry as u32);
        } else {
            proof {
                let w = pow2(32 * i as nat);
                assert(0 * w == 0) by (nonlinear_arith);
            }
        }
        Natural { limbs }
    }

    /// The number of bits that tell as many values apart.
    pub fn bit_count(&self) -> (r: usize)
        requires
            self@ <= pow2(usize::MAX as nat),
        ensures
            is_bit_count(r as nat, self@),
    {
        proof {
            use_type_invariant(self);
        }
        let n: usize = self.limbs.len() - 1;
        let top: u32 = self.limbs[n];
        let mut zeros: bool = true;
        let mut i: usize = 0;
        let ghost s = self.limbs@;
        proof {
            assert(s.take(0) =~= Seq::<u32>::empty());
        }
        while i < n
            invariant
                i <= n,
                s == self.limbs@,
                s.len() == n + 1,
                zeros <==> value(s.take(i as int)) == 0,
            decreases n - i,
        {
            let x: u32 = self.limbs[i];
            proof {
                assert(s.take(i + 1) =~= s.take(i as int).push(x));
                value_push(s.take(i as int), x);
                lemma_pow2_pos(32 * i as nat);
                let w = pow2(32 * i as nat);
                assert(x as nat * w == 0 <==> x == 0) by (nonlinear_arith)
                    requires
                        w > 0,
                ;
            }
            if x != 0 {
                zeros = false;
            }
            i = i + 1;
        }
        let ghost rest = value(s.take(n as int));
        let ghost w = pow2(32 * n as nat);
        proof {
            assert(s.drop_last() =~= s.take(n as int));
            value_bounded(s.take(n as int));
            lemma_pow2_pos(32 * n as nat);
        }
        // `top` lies from `2^k` up to below `2^(k + 1)`.
        let mut k: usize = 0;
        let mut power: u64 = 1;
        proof {
            lemma2_to64();
        }
        while 2 * power <= top as u64
            invariant
                k < 32,
                power == pow2(k as nat),
                0 < power <= top,
                top <= 0xffff_ffff,
            decreases top - power,
        {
            proof {
                lemma2_to64();
                lemma_pow2_adds(1, k as nat);
                if k + 1 >= 32 {
                    if k + 1 > 32 {
                        lemma_pow2_strictly_increases(32, (k + 1) as nat);
                    }
                }
            }
            power = 2 * power;
            k = k + 1;
        }
        let exact: bool = zeros && power == top as u64;
        proof {
            let b = (k + 32 * n) as nat;
            lemma2_to64();
            lemma_pow2_adds(k as nat, 32 * n as nat);
            lemma_pow2_adds(1, b);
            let t = top as nat;
            assert(pow2(b) == power as nat * w);
            assert(self@ == rest + t * w);
            assert(t * w >= power * w) by (nonlinear_arith)
                requires
                    t >= power,
            ;
            assert(t * w + w <= 2 * (power * w)) by (nonlinear_arith)
                requires
                    t + 1 <= 2 * power,
                    w >= 0,
            ;
            if power < t {
                assert(t * w >= power * w + w) by (nonlinear_arith)
                    requires
                        t >= power + 1,
                ;
            }
            if exact {
                assert(self@ == pow2(b));
                if b > 0 {
                    lemma_pow2_strictly_increases((b - 1) as nat, b);
                }
                bit_count_is_least(b, self@, usize::MAX as nat);
            } else {
                assert(pow2(b) < self@ < pow2(b + 1));
                assert(is_bit_count(b + 1, self@));
                bit_count_is_least(b + 1, self@, usize::MAX as nat);
            }
        }
        if exact {
            k + 32 * n
        } else {
            k + 32 * n + 1
        }
    }
}

} // verus!
