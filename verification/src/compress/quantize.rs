//! Finite scalar quantization: the compressor's bottleneck.
//!
//! Each latent slot is a few scalars, each rounded to one of a fixed number of
//! levels. The implicit codebook is the product grid of the levels, so the rate
//! of a latent is a count of states and nothing is estimated.

use vstd::prelude::*;

use vstd::arithmetic::power::{lemma_pow0, lemma_pow1, lemma_pow_adds, lemma_pow_positive, pow};
use vstd::arithmetic::power2::pow2;
use vstd::string::*;

use crate::compress::bignum::{bit_count_is_least, is_bit_count, Natural};
use crate::text::{around_two, decimal, note, noted, noted_len, texts};

verus! {

/// The product of the levels: the number of states of a slot.
pub open spec fn codebook(levels: Seq<u32>) -> nat
    decreases levels.len(),
{
    if levels.len() == 0 {
        1
    } else {
        codebook(levels.drop_last()) * levels.last() as nat
    }
}

/// What is reported of a dimension that carries no bits.
pub open spec fn flat_dimension(i: nat, level: nat) -> Seq<char> {
    "levels["@ + decimal(i) + "] = "@ + decimal(level)
        + ": a dimension needs at least 2 levels to carry any bits"@
}

/// What is wrong with each dimension.
pub open spec fn flat_dimensions(levels: Seq<u32>) -> Seq<Seq<char>>
    decreases levels.len(),
{
    if levels.len() == 0 {
        Seq::empty()
    } else {
        flat_dimensions(levels.drop_last()) + noted(
            levels.last() < 2,
            flat_dimension((levels.len() - 1) as nat, levels.last() as nat),
        )
    }
}

/// Everything that is wrong with a level vector.
pub open spec fn level_violations(levels: Seq<u32>) -> Seq<Seq<char>> {
    noted(levels.len() == 0, "levels must not be empty"@) + flat_dimensions(levels)
}

/// What a level vector has to be: not empty, two levels at least everywhere.
pub open spec fn valid_levels(levels: Seq<u32>) -> bool {
    levels.len() > 0 && forall|i: int| 0 <= i < levels.len() ==> #[trigger] levels[i] >= 2
}

proof fn no_flat_dimension(levels: Seq<u32>)
    ensures
        flat_dimensions(levels).len() == 0 <==> forall|i: int|
            0 <= i < levels.len() ==> #[trigger] levels[i] >= 2,
    decreases levels.len(),
{
    broadcast use noted_len;

    if levels.len() > 0 {
        let before = levels.drop_last();
        no_flat_dimension(before);
        if forall|i: int| 0 <= i < before.len() ==> #[trigger] before[i] >= 2 {
            if levels.last() >= 2 {
                assert forall|i: int| 0 <= i < levels.len() implies #[trigger] levels[i] >= 2 by {
                    if i < before.len() {
                        assert(before[i] >= 2);
                    }
                }
            } else {
                assert(levels[levels.len() - 1] < 2);
            }
        } else {
            let i = choose|i: int| 0 <= i < before.len() && #[trigger] before[i] < 2;
            assert(levels[i] < 2);
        }
    }
}

/// A level vector is accepted exactly when it is valid.
pub proof fn accepted_iff_valid_levels(levels: Seq<u32>)
    ensures
        level_violations(levels).len() == 0 <==> valid_levels(levels),
{
    broadcast use noted_len;

    no_flat_dimension(levels);
}

/// Everything that is wrong with a level vector.
fn check_levels(levels: &Vec<u32>) -> (errs: Vec<String>)
    ensures
        texts(errs@) == level_violations(levels@),
{
    let mut errs: Vec<String> = Vec::new();
    note(&mut errs, levels.len() == 0, "levels must not be empty".to_owned());
    let ghost head = noted(levels@.len() == 0, "levels must not be empty"@);
    let mut i: usize = 0;
    proof {
        assert(levels@.take(0) =~= Seq::<u32>::empty());
        assert(texts(errs@) =~= head + flat_dimensions(levels@.take(0)));
    }
    while i < levels.len()
        invariant
            i <= levels.len(),
            texts(errs@) == head + flat_dimensions(levels@.take(i as int)),
        decreases levels.len() - i,
    {
        let l: u32 = levels[i];
        note(
            &mut errs,
            l < 2,
            around_two(
                "levels[",
                i,
                "] = ",
                l as usize,
                ": a dimension needs at least 2 levels to carry any bits",
            ),
        );
        proof {
            let now = levels@.take(i + 1);
            assert(now.drop_last() =~= levels@.take(i as int));
            assert(texts(errs@) =~= head + flat_dimensions(now));
        }
        i = i + 1;
    }
    assert(levels@.take(levels@.len() as int) =~= levels@);
    errs
}

/// A finite scalar quantizer over as many dimensions as there are levels.
#[derive(Debug, Clone, PartialEq, Eq)]
pub struct Fsq {
    levels: Vec<u32>,
}

/// The levels.
impl View for Fsq {
    type V = Seq<u32>;

    closed spec fn view(&self) -> Seq<u32> {
        self.levels@
    }
}

impl Fsq {
    /// The default level vector `[7, 5, 5, 5, 5]`: 4,375 implicit codes, a
    /// little under one token of a vocabulary of 8192.
    pub fn default_levels() -> (r: Self)
        ensures
            r@ == seq![7u32, 5, 5, 5, 5],
            valid_levels(r@),
    {
        let levels: Vec<u32> = vec![7, 5, 5, 5, 5];
        assert(levels@ =~= seq![7u32, 5, 5, 5, 5]);
        Fsq::new(levels)
    }

    /// A quantizer with these levels.
    pub fn new(levels: Vec<u32>) -> (r: Self)
        requires
            valid_levels(levels@),
        ensures
            r@ == levels@,
    {
        Fsq { levels }
    }

    /// A quantizer with these levels, or everything that is wrong with them.
    pub fn try_new(levels: Vec<u32>) -> (r: Result<Self, Vec<String>>)
        ensures
            r is Ok <==> valid_levels(levels@),
            r is Ok ==> r->Ok_0@ == levels@,
            r is Err ==> texts(r->Err_0@) == level_violations(levels@),
    {
        let fsq = Fsq { levels };
        match fsq.validate() {
            Ok(()) => Ok(fsq),
            Err(errs) => Err(errs),
        }
    }

    /// Everything that is wrong with the levels.
    pub fn validate(&self) -> (r: Result<(), Vec<String>>)
        ensures
            r is Ok <==> valid_levels(self@),
            r is Err ==> texts(r->Err_0@) == level_violations(self@),
    {
        let errs = check_levels(&self.levels);
        proof {
            accepted_iff_valid_levels(self@);
            assert(texts(errs@).len() == errs@.len());
        }
        if errs.len() == 0 {
            Ok(())
        } else {
            Err(errs)
        }
    }

    /// The levels.
    pub fn levels(&self) -> (r: &[u32])
        ensures
            r@ == self@,
    {
        self.levels.as_slice()
    }

    /// Width of the quantized latent: one scalar per level entry.
    pub fn dim(&self) -> (r: usize)
        ensures
            r == self@.len(),
    {
        self.levels.len()
    }

    /// Size of the implicit codebook, the product of the levels.
    pub fn codebook_size(&self) -> (r: u64)
        requires
            valid_levels(self@),
            codebook(self@) <= u64::MAX,
        ensures
            r == codebook(self@),
    {
        let mut size: u64 = 1;
        let mut i: usize = 0;
        let ghost s = self@;
        proof {
            assert(s.take(0) =~= Seq::<u32>::empty());
        }
        while i < self.levels.len()
            invariant
                i <= self.levels@.len(),
                s == self.levels@,
                valid_levels(s),
                codebook(s) <= u64::MAX,
                size == codebook(s.take(i as int)),
            decreases self.levels@.len() - i,
        {
            proof {
                assert(s.take(i + 1).drop_last() =~= s.take(i as int));
                codebook_grows(s, i + 1);
            }
            size = size * self.levels[i] as u64;
            i = i + 1;
        }
        assert(s.take(s.len() as int) =~= s);
        size
    }

    /// Bits to store `n_slots` slots, as a count of a real payload: the least
    /// number of bits with as many states as the slots have together.
    pub fn pack_bits(&self, n_slots: usize) -> (r: usize)
        requires
            valid_levels(self@),
            pow(codebook(self@) as int, n_slots as nat) <= pow2(usize::MAX as nat),
        ensures
            is_bit_count(r as nat, pow(codebook(self@) as int, n_slots as nat) as nat),
    {
        let mut states = Natural::one();
        let mut n: usize = 0;
        let ghost c = codebook(self@);
        proof {
            lemma_pow0(c as int);
        }
        while n < n_slots
            invariant
                n <= n_slots,
                valid_levels(self@),
                c == codebook(self@),
                states@ == pow(c as int, n as nat),
            decreases n_slots - n,
        {
            states = self.times_codebook(states);
            proof {
                lemma_pow_adds(c as int, n as nat, 1);
                lemma_pow1(c as int);
            }
            n = n + 1;
        }
        states.bit_count()
    }

    /// The product of a number and the size of the codebook.
    fn times_codebook(&self, x: Natural) -> (r: Natural)
        requires
            valid_levels(self@),
        ensures
            r@ == x@ * codebook(self@),
    {
        let mut product = x;
        let mut i: usize = 0;
        let ghost s = self@;
        let ghost start = x@;
        proof {
            assert(s.take(0) =~= Seq::<u32>::empty());
            assert(start * 1 == start) by (nonlinear_arith);
        }
        while i < self.levels.len()
            invariant
                i <= self.levels@.len(),
                s == self.levels@,
                valid_levels(s),
                product@ == start * codebook(s.take(i as int)),
            decreases self.levels@.len() - i,
        {
            let l: u32 = self.levels[i];
            product = product.times(l);
            proof {
                assert(s.take(i + 1).drop_last() =~= s.take(i as int));
                let c = codebook(s.take(i as int));
                assert(start * c * (l as nat) == start * (c * (l as nat))) by (nonlinear_arith);
            }
            i = i + 1;
        }
        assert(s.take(s.len() as int) =~= s);
        product
    }

    /// Half of each level count, rounded down: what maps the integer grid of a
    /// dimension onto the range from -1 to 1.
    pub fn half_widths(&self) -> (r: Vec<u32>)
        ensures
            r@.len() == self@.len(),
            forall|i: int| 0 <= i < r@.len() ==> #[trigger] r@[i] == self@[i] / 2,
    {
        let mut r: Vec<u32> = Vec::new();
        let mut i: usize = 0;
        while i < self.levels.len()
            invariant
                i <= self.levels@.len(),
                r@.len() == i,
                forall|j: int| 0 <= j < i ==> #[trigger] r@[j] == self@[j] / 2,
            decreases self.levels@.len() - i,
        {
            r.push(self.levels[i] / 2);
            i = i + 1;
        }
        r
    }
}

/// More dimensions do not shrink the codebook.
pub proof fn codebook_grows(levels: Seq<u32>, n: int)
    requires
        valid_levels(levels),
        0 <= n <= levels.len(),
    ensures
        1 <= codebook(levels.take(n)) <= codebook(levels),
    decreases levels.len(), levels.len() - n,
{
    if n < levels.len() {
        codebook_grows(levels, n + 1);
        assert(levels.take(n + 1).drop_last() =~= levels.take(n));
        let c = codebook(levels.take(n));
        let l = levels[n] as nat;
        assert(c >= 1 && c <= c * l) by (nonlinear_arith)
            requires
                c * l >= 1,
                l >= 2,
                c >= 0,
        ;
    } else {
        assert(levels.take(n) =~= levels);
        codebook_positive(levels);
    }
}

proof fn codebook_positive(levels: Seq<u32>)
    requires
        forall|i: int| 0 <= i < levels.len() ==> #[trigger] levels[i] >= 2,
    ensures
        codebook(levels) >= 1,
    decreases levels.len(),
{
    if levels.len() > 0 {
        let before = levels.drop_last();
        assert forall|i: int| 0 <= i < before.len() implies #[trigger] before[i] >= 2 by {
            assert(levels[i] >= 2);
        }
        codebook_positive(before);
        let c = codebook(before);
        let l = levels.last() as nat;
        assert(levels[levels.len() - 1] >= 2);
        assert(c * l >= 1) by (nonlinear_arith)
            requires
                c >= 1,
                l >= 2,
        ;
    }
}

/// No payload is smaller: a number of bits with as many states as the slots
/// have is at least what [`Fsq::pack_bits`] returns.
pub proof fn packing_is_tight(levels: Seq<u32>, n_slots: nat, bits: nat, other: nat)
    requires
        valid_levels(levels),
        is_bit_count(bits, pow(codebook(levels) as int, n_slots) as nat),
        pow2(other) >= pow(codebook(levels) as int, n_slots),
    ensures
        bits <= other,
{
    codebook_positive(levels);
    lemma_pow_positive(codebook(levels) as int, n_slots);
    bit_count_is_least(bits, pow(codebook(levels) as int, n_slots) as nat, other);
}

/// The integer grid of a dimension with `l` levels, from `-(l / 2)` up: its
/// points are `l` many, none further from zero than the half width, and adding
/// the half width numbers them from 0 to `l - 1`.
pub proof fn grid_points_are_numbered(l: nat, point: int)
    requires
        l >= 2,
    ensures
        -(l / 2) <= point <= (l - 1) / 2 <==> 0 <= point + l / 2 <= l - 1,
        -(l / 2) <= point <= (l - 1) / 2 ==> -(l / 2) <= point <= l / 2,
{
}

} // verus!
