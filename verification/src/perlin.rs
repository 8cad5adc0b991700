//! Gradient noise over a lattice of random vectors.

use vstd::prelude::*;
use crate::math::{whole, whole_spec, floor, floor_spec, HALF};
use crate::scalar::{
    Scalar, ONE, TWO, add_spec, sub_spec, mul_spec, abs_spec, fx_add, fx_sub, fx_mul, fx_abs,
    uniform,
};
use crate::vec3::{Point, Vec3, Vector};

verus! {

/// The number of lattice vectors, and the length of each table.
pub const POINT_COUNT: usize = 256;

/// Every number below the length of the table stands in it at most once,
/// and no other number stands in it.
pub open spec fn is_permutation(p: Seq<usize>) -> bool {
    &&& p.len() == POINT_COUNT
    &&& forall|i: int| 0 <= i < p.len() ==> #[trigger] p[i] < POINT_COUNT
    &&& forall|i: int, j: int| 0 <= i < j < p.len() ==> #[trigger] p[i] != #[trigger] p[j]
}

/// The table of the numbers below its length in their order.
pub open spec fn ordered_spec() -> Seq<usize> {
    Seq::new(POINT_COUNT as nat, |i: int| i as usize)
}

/// The table with the numbers at the places `i` and `j` changed.
pub open spec fn swapped_spec(s: Seq<usize>, i: int, j: int) -> Seq<usize> {
    s.update(i, s[j]).update(j, s[i])
}

/// The table after the first `n` draws of a shuffle: draw `k` changes the
/// number at the place `255 - k` with the number at the drawn place.
pub open spec fn shuffled_spec(s: Seq<usize>, draws: Seq<usize>, n: int) -> Seq<usize>
    decreases n,
{
    if n <= 0 {
        s
    } else {
        swapped_spec(shuffled_spec(s, draws, n - 1), POINT_COUNT - n, draws[n - 1] as int)
    }
}

/// The draws are those of a whole shuffle: one for each place from the last
/// down to the second, each among the places up to its own.
pub open spec fn draws_fit(draws: Seq<usize>) -> bool {
    &&& draws.len() == POINT_COUNT - 1
    &&& forall|k: int| 0 <= k < draws.len() ==> #[trigger] draws[k] <= POINT_COUNT - 1 - k
}

/// A shuffle does not look past the draws that it has used.
pub proof fn lemma_shuffle_prefix(s: Seq<usize>, draws: Seq<usize>, prefix: Seq<usize>, n: int)
    requires
        0 <= n <= prefix.len() <= draws.len(),
        forall|k: int| 0 <= k < n ==> draws[k] == prefix[k],
    ensures
        shuffled_spec(s, draws, n) == shuffled_spec(s, prefix, n),
    decreases n,
{
    if n > 0 {
        lemma_shuffle_prefix(s, draws, prefix, n - 1);
    }
}

/// A shuffle of a permutation is a permutation.
pub proof fn lemma_shuffle_permutation(s: Seq<usize>, draws: Seq<usize>, n: int)
    requires
        is_permutation(s),
        draws_fit(draws),
        0 <= n <= POINT_COUNT - 1,
    ensures
        is_permutation(shuffled_spec(s, draws, n)),
    decreases n,
{
    if n > 0 {
        lemma_shuffle_permutation(s, draws, n - 1);
        let before = shuffled_spec(s, draws, n - 1);
        let i = POINT_COUNT - n;
        let j = draws[n - 1] as int;
        let after = swapped_spec(before, i, j);
        assert(shuffled_spec(s, draws, n) == after);
        assert forall|a: int, b: int| 0 <= a < b < after.len() implies #[trigger] after[a]
            != #[trigger] after[b] by {
            let from = |x: int| if x == i { j } else if x == j { i } else { x };
            assert(after[a] == before[from(a)]);
            assert(after[b] == before[from(b)]);
            if from(a) < from(b) {
                assert(before[from(a)] != before[from(b)]);
            } else {
                assert(before[from(b)] != before[from(a)]);
            }
        }
    }
}

/// The place in a table for the lattice coordinate `i`: its remainder by
/// the length of the table.
pub open spec fn wrap_spec(i: int) -> int {
    i % (POINT_COUNT as int)
}

/// The smooth step `t * t * (3 - 2 t)`.
pub open spec fn smooth_spec(t: Scalar) -> Scalar {
    mul_spec(mul_spec(t, t), sub_spec(3_000_000_000, mul_spec(TWO, t)))
}

/// The weight of one end of the cell: `s` at the far end, `1 - s` at the
/// near one.
pub open spec fn end_weight_spec(far: bool, s: Scalar) -> Scalar {
    if far {
        s
    } else {
        sub_spec(ONE, s)
    }
}

/// The share of corner `n` of the cell in the noise at the place `(u, v, w)`
/// inside the cell: the product of the three end weights and of the
/// corner's vector with the way from the corner to the place.
pub open spec fn corner_term_spec(c: Seq<Vector>, u: Scalar, v: Scalar, w: Scalar, n: int) -> Scalar {
    let i = n / 4 % 2 == 1;
    let j = n / 2 % 2 == 1;
    let k = n % 2 == 1;
    let weight_v: Vector = Vec3 {
        e0: sub_spec(u, if i { ONE } else { 0 }),
        e1: sub_spec(v, if j { ONE } else { 0 }),
        e2: sub_spec(w, if k { ONE } else { 0 }),
    };
    mul_spec(
        mul_spec(
            mul_spec(end_weight_spec(i, smooth_spec(u)), end_weight_spec(j, smooth_spec(v))),
            end_weight_spec(k, smooth_spec(w)),
        ),
        c[n].dot_spec(weight_v),
    )
}

/// The sum of the shares of the first `n` corners.
pub open spec fn interp_spec(c: Seq<Vector>, u: Scalar, v: Scalar, w: Scalar, n: int) -> Scalar
    decreases n,
{
    if n <= 0 {
        0
    } else {
        add_spec(interp_spec(c, u, v, w, n - 1), corner_term_spec(c, u, v, w, n - 1))
    }
}

/// `p` doubled `k` times.
pub open spec fn doubled_spec(p: Point, k: nat) -> Point
    decreases k,
{
    if k == 0 {
        p
    } else {
        doubled_spec(p, (k - 1) as nat).scaled_spec(TWO)
    }
}

/// One halved `k` times.
pub open spec fn halved_spec(k: nat) -> Scalar
    decreases k,
{
    if k == 0 {
        ONE
    } else {
        mul_spec(halved_spec((k - 1) as nat), HALF)
    }
}

/// Lattice vectors and three tables that scatter the lattice over them.
pub struct Perlin {
    randvec: Vec<Vector>,
    perm_x: Vec<usize>,
    perm_y: Vec<usize>,
    perm_z: Vec<usize>,
}

impl Perlin {
    #[verifier::type_invariant]
    spec fn well_formed(self) -> bool {
        &&& self.randvec@.len() == POINT_COUNT
        &&& is_permutation(self.perm_x@)
        &&& is_permutation(self.perm_y@)
        &&& is_permutation(self.perm_z@)
    }

/// The lattice vectors.
    pub closed spec fn vectors_spec(self) -> Seq<Vector> {
        self.randvec@
    }

/// The table for the first axis.
    pub closed spec fn perm_x_spec(self) -> Seq<usize> {
        self.perm_x@
    }

/// The table for the second axis.
    pub closed spec fn perm_y_spec(self) -> Seq<usize> {
        self.perm_y@
    }

/// The table for the third axis.
    pub closed spec fn perm_z_spec(self) -> Seq<usize> {
        self.perm_z@
    }

    /// The lattice vector at the lattice point `(i, j, k)`.
    pub open spec fn lattice_spec(self, i: int, j: int, k: int) -> Vector {
        self.vectors_spec()[(self.perm_x_spec()[wrap_spec(i)] ^ self.perm_y_spec()[wrap_spec(j)]
            ^ self.perm_z_spec()[wrap_spec(k)]) as int]
    }

    /// The lattice vectors at the eight corners of the cell that begins at
    /// `(i, j, k)`.
    pub open spec fn cell_spec(self, i: int, j: int, k: int) -> Seq<Vector> {
        Seq::new(8, |n: int| self.lattice_spec(i + n / 4 % 2, j + n / 2 % 2, k + n % 2))
    }

    /// The noise at `p`: the lattice vectors round `p`, blended.
    pub open spec fn noise_spec(self, p: Point) -> Scalar {
        interp_spec(
            self.cell_spec(whole_spec(p.e0), whole_spec(p.e1), whole_spec(p.e2)),
            sub_spec(p.e0, floor_spec(p.e0)),
            sub_spec(p.e1, floor_spec(p.e1)),
            sub_spec(p.e2, floor_spec(p.e2)),
            8,
        )
    }

    /// The sum of the first `n` octaves at `p`: each at twice the
    /// frequency and half the weight of the one before.
    pub open spec fn octaves_spec(self, p: Point, n: nat) -> Scalar
        decreases n,
    {
        if n == 0 {
            0
        } else {
            add_spec(
                self.octaves_spec(p, (n - 1) as nat),
                mul_spec(
                    halved_spec((n - 1) as nat),
                    self.noise_spec(doubled_spec(p, (n - 1) as nat)),
                ),
            )
        }
    }

    /// The turbulence at `p`: the size of the sum of `depth` octaves.
    pub open spec fn turb_spec(self, p: Point, depth: i32) -> Scalar {
        abs_spec(
            self.octaves_spec(
                p,
                if depth > 0 {
                    depth as nat
                } else {
                    0
                },
            ),
        )
    }

    /// What holds of fresh noise: its 256 vectors are random directions, and
    /// its tables are permutations.
    pub open spec fn fresh_spec(self) -> bool {
        &&& self.vectors_spec().len() == POINT_COUNT
        &&& forall|i: int|
            0 <= i < POINT_COUNT ==> Vec3::drawn_unit(#[trigger] self.vectors_spec()[i])
        &&& is_permutation(self.perm_x_spec())
        &&& is_permutation(self.perm_y_spec())
        &&& is_permutation(self.perm_z_spec())
    }

    /// Noise over random vectors and random tables.
    pub fn new() -> (noise: Self)
        ensures
            noise.fresh_spec(),
    {
        let mut randvec: Vec<Vector> = Vec::new();
        let mut i: usize = 0;
        while i < POINT_COUNT
            invariant
                i <= POINT_COUNT,
                randvec@.len() == i,
                forall|k: int| 0 <= k < i ==> Vec3::drawn_unit(#[trigger] randvec@[k]),
            decreases POINT_COUNT - i,
        {
            randvec.push(Vec3::random_unit_vector());
            i = i + 1;
        }
        Perlin {
            randvec,
            perm_x: Self::generate_perm(),
            perm_y: Self::generate_perm(),
            perm_z: Self::generate_perm(),
        }
    }

    /// Noise over the given vectors and tables, or nothing where there are
    /// not 256 vectors or a table is no permutation of the numbers below 256.
    pub fn from_tables(
        randvec: Vec<Vector>,
        perm_x: Vec<usize>,
        perm_y: Vec<usize>,
        perm_z: Vec<usize>,
    ) -> (noise: Option<Self>)
        ensures
            noise is Some <==> randvec@.len() == POINT_COUNT && is_permutation(perm_x@)
                && is_permutation(perm_y@) && is_permutation(perm_z@),
            noise is Some ==> noise->0.vectors_spec() == randvec@ && noise->0.perm_x_spec()
                == perm_x@ && noise->0.perm_y_spec() == perm_y@ && noise->0.perm_z_spec()
                == perm_z@,
    {
        if randvec.len() == POINT_COUNT && Self::check_perm(&perm_x) && Self::check_perm(&perm_y)
            && Self::check_perm(&perm_z) {
            Some(Perlin { randvec, perm_x, perm_y, perm_z })
        } else {
            None
        }
    }

    /// Whether a table is a permutation of the numbers below its length.
    pub fn check_perm(p: &Vec<usize>) -> (ok: bool)
        ensures
            ok == is_permutation(p@),
    {
        if p.len() != POINT_COUNT {
            return false;
        }
        let mut i: usize = 0;
        while i < POINT_COUNT
            invariant
                i <= POINT_COUNT,
                p@.len() == POINT_COUNT,
                forall|a: int| 0 <= a < i ==> #[trigger] p@[a] < POINT_COUNT,
                forall|a: int, b: int| 0 <= a < b < i ==> #[trigger] p@[a] != #[trigger] p@[b],
            decreases POINT_COUNT - i,
        {
            if p[i] >= POINT_COUNT {
                return false;
            }
            let mut j: usize = 0;
            while j < i
                invariant
                    j <= i < POINT_COUNT,
                    p@.len() == POINT_COUNT,
                    forall|a: int| 0 <= a < j ==> #[trigger] p@[a] != p@[i as int],
                decreases i - j,
            {
                if p[j] == p[i] {
                    return false;
                }
                j = j + 1;
            }
            i = i + 1;
        }
        true
    }

/// The noise at `p`.
    pub fn noise(&self, p: &Point) -> (r: Scalar)
        ensures
            r == self.noise_spec(*p),
    {
        let u: Scalar = fx_sub(p.e0, floor(p.e0));
        let v: Scalar = fx_sub(p.e1, floor(p.e1));
        let w: Scalar = fx_sub(p.e2, floor(p.e2));
        let i: i64 = whole(p.e0);
        let j: i64 = whole(p.e1);
        let k: i64 = whole(p.e2);
        let mut c: Vec<Vector> = Vec::new();
        let mut n: usize = 0;
        while n < 8
            invariant
                n <= 8,
                c@.len() == n,
                i == whole_spec(p.e0),
                j == whole_spec(p.e1),
                k == whole_spec(p.e2),
                forall|m: int|
                    0 <= m < n ==> #[trigger] c@[m] == self.lattice_spec(
                        i + m / 4 % 2,
                        j + m / 2 % 2,
                        k + m % 2,
                    ),
            decreases 8 - n,
        {
            let di: i64 = (n / 4 % 2) as i64;
            let dj: i64 = (n / 2 % 2) as i64;
            let dk: i64 = (n % 2) as i64;
            let vector = self.lattice(i as i128 + di as i128, j as i128 + dj as i128, k as i128 + dk as i128);
            c.push(vector);
            n = n + 1;
        }
        proof {
            assert(c@ =~= self.cell_spec(i as int, j as int, k as int));
        }
        Self::perlin_interp(&c, u, v, w)
    }

    /// The place in a table for the lattice coordinate `i`.
    fn wrap(i: i128) -> (r: usize)
        ensures
            r == wrap_spec(i as int),
            r < POINT_COUNT,
    {
        if i >= 0 {
            (i % 256) as usize
        } else {
            let n: i128 = -(i + 1);
            (255 - n % 256) as usize
        }
    }

    fn lattice(&self, i: i128, j: i128, k: i128) -> (r: Vector)
        ensures
            r == self.lattice_spec(i as int, j as int, k as int),
    {
        proof {
            use_type_invariant(self);
        }
        let a: usize = self.perm_x[Self::wrap(i)];
        let b: usize = self.perm_y[Self::wrap(j)];
        let c: usize = self.perm_z[Self::wrap(k)];
        assert(a ^ b ^ c < 256) by (bit_vector)
            requires
                a < 256,
                b < 256,
                c < 256,
        ;
        self.randvec[a ^ b ^ c]
    }

/// The turbulence at `p`: the size of the sum of `depth` octaves.
    pub fn turb(&self, p: &Point, depth: i32) -> (r: Scalar)
        ensures
            r == self.turb_spec(*p, depth),
    {
        let mut accum: Scalar = 0;
        let mut temp_p: Point = *p;
        let mut weight: Scalar = ONE;
        let mut done: i32 = 0;
        while done < depth
            invariant
                0 <= done,
                depth > 0 ==> done <= depth,
                depth <= 0 ==> done == 0,
                accum == self.octaves_spec(*p, done as nat),
                temp_p == doubled_spec(*p, done as nat),
                weight == halved_spec(done as nat),
            decreases depth - done,
        {
            accum = fx_add(accum, fx_mul(weight, self.noise(&temp_p)));
            weight = fx_mul(weight, HALF);
            temp_p = temp_p.scaled(TWO);
            done = done + 1;
        }
        fx_abs(accum)
    }

    /// A table in which every number below its length stands once, in a
    /// random order: the table of the numbers in their order, shuffled.
    fn generate_perm() -> (p: Vec<usize>)
        ensures
            is_permutation(p@),
            exists|draws: Seq<usize>|
                draws_fit(draws) && p@ == #[trigger] shuffled_spec(
                    ordered_spec(),
                    draws,
                    POINT_COUNT - 1,
                ),
    {
        let mut p: Vec<usize> = Vec::new();
        let mut i: usize = 0;
        while i < POINT_COUNT
            invariant
                i <= POINT_COUNT,
                p@.len() == i,
                forall|a: int| 0 <= a < i ==> #[trigger] p@[a] == a,
            decreases POINT_COUNT - i,
        {
            p.push(i);
            i = i + 1;
        }
        assert(p@ =~= ordered_spec());
        Self::permute(&mut p);
        p
    }

    /// Shuffles a table: from the last place down to the second, each place
    /// changes its number with a place drawn from those up to it.
    fn permute(p: &mut Vec<usize>)
        requires
            old(p)@.len() == POINT_COUNT,
        ensures
            exists|draws: Seq<usize>|
                draws_fit(draws) && final(p)@ == #[trigger] shuffled_spec(
                    old(p)@,
                    draws,
                    POINT_COUNT - 1,
                ),
            final(p)@.len() == POINT_COUNT,
            is_permutation(old(p)@) ==> is_permutation(final(p)@),
    {
        let ghost mut draws: Seq<usize> = Seq::empty();
        let mut i: usize = POINT_COUNT - 1;
        while i >= 1
            invariant
                i < POINT_COUNT,
                p@.len() == POINT_COUNT,
                draws.len() == POINT_COUNT - 1 - i,
                forall|k: int| 0 <= k < draws.len() ==> #[trigger] draws[k] <= POINT_COUNT - 1 - k,
                p@ == shuffled_spec(old(p)@, draws, draws.len() as int),
            decreases i,
        {
            let target: usize = uniform(0, i as i64 + 1) as usize;
            proof {
                lemma_shuffle_prefix(old(p)@, draws.push(target), draws, draws.len() as int);
                draws = draws.push(target);
            }
            Self::swap_places(p, i, target);
            i = i - 1;
        }
        proof {
            assert(draws_fit(draws));
            if is_permutation(old(p)@) {
                lemma_shuffle_permutation(old(p)@, draws, POINT_COUNT - 1);
            }
        }
    }

    /// Shuffles a table by given draws: draw `k` changes the number at the
    /// place `255 - k` with the number at the drawn place.
    pub fn permute_with(p: &mut Vec<usize>, draws: &Vec<usize>)
        requires
            old(p)@.len() == POINT_COUNT,
            draws_fit(draws@),
        ensures
            final(p)@ == shuffled_spec(old(p)@, draws@, POINT_COUNT - 1),
            final(p)@.len() == POINT_COUNT,
            is_permutation(old(p)@) ==> is_permutation(final(p)@),
    {
        let mut i: usize = POINT_COUNT - 1;
        while i >= 1
            invariant
                i < POINT_COUNT,
                p@.len() == POINT_COUNT,
                draws_fit(draws@),
                p@ == shuffled_spec(old(p)@, draws@, POINT_COUNT - 1 - i),
            decreases i,
        {
            let target: usize = draws[POINT_COUNT - 1 - i];
            Self::swap_places(p, i, target);
            i = i - 1;
        }
        proof {
            if is_permutation(old(p)@) {
                lemma_shuffle_permutation(old(p)@, draws@, POINT_COUNT - 1);
            }
        }
    }

    /// Changes the numbers at two places of a table.
    fn swap_places(p: &mut Vec<usize>, i: usize, j: usize)
        requires
            i < old(p)@.len(),
            j < old(p)@.len(),
        ensures
            final(p)@ == swapped_spec(old(p)@, i as int, j as int),
    {
        let a: usize = p[i];
        let b: usize = p[j];
        p.set(i, b);
        p.set(j, a);
    }

    fn smooth(t: Scalar) -> (r: Scalar)
        ensures
            r == smooth_spec(t),
    {
        fx_mul(fx_mul(t, t), fx_sub(3_000_000_000, fx_mul(TWO, t)))
    }

    fn end_weight(far: bool, s: Scalar) -> (r: Scalar)
        ensures
            r == end_weight_spec(far, s),
    {
        if far {
            s
        } else {
            fx_sub(ONE, s)
        }
    }

    /// Blends the vectors at the eight corners of a cell.
    pub fn perlin_interp(c: &Vec<Vector>, u: Scalar, v: Scalar, w: Scalar) -> (r: Scalar)
        requires
            c@.len() == 8,
        ensures
            r == interp_spec(c@, u, v, w, 8),
    {
        let uu: Scalar = Self::smooth(u);
        let vv: Scalar = Self::smooth(v);
        let ww: Scalar = Self::smooth(w);
        let mut accum: Scalar = 0;
        let mut n: usize = 0;
        while n < 8
            invariant
                n <= 8,
                c@.len() == 8,
                uu == smooth_spec(u),
                vv == smooth_spec(v),
                ww == smooth_spec(w),
                accum == interp_spec(c@, u, v, w, n as int),
            decreases 8 - n,
        {
            let i: bool = n / 4 % 2 == 1;
            let j: bool = n / 2 % 2 == 1;
            let k: bool = n % 2 == 1;
            let weight_v: Vector = Vec3 {
                e0: fx_sub(u, if i { ONE } else { 0 }),
                e1: fx_sub(v, if j { ONE } else { 0 }),
                e2: fx_sub(w, if k { ONE } else { 0 }),
            };
            let term: Scalar = fx_mul(
                fx_mul(
                    fx_mul(Self::end_weight(i, uu), Self::end_weight(j, vv)),
                    Self::end_weight(k, ww),
                ),
                c[n].dot(&weight_v),
            );
            accum = fx_add(accum, term);
            n = n + 1;
        }
        accum
    }
}

impl Default for Perlin {
    fn default() -> (noise: Self)
        ensures
            noise.fresh_spec(),
    {
        Self::new()
    }
}

} // verus!
