use vstd::prelude::*;
use crate::utils::{gen_range_usize, thread_rng};

verus! {

broadcast use vstd::seq_lib::group_to_multiset_ensures;

/// `s` lists each of `0, 1, ..., n - 1` exactly once.
pub open spec fn is_permutation_of_range(s: Seq<i32>, n: int) -> bool {
    &&& s.len() == n
    &&& forall|i: int| 0 <= i < n ==> 0 <= #[trigger] s[i] < n
    &&& s.no_duplicates()
}

/// The sequence `0, 1, ..., n - 1`.
pub open spec fn identity_seq(n: nat) -> Seq<i32> {
    Seq::new(n, |i: int| i as i32)
}

/// The first `i` steps of a Fisher-Yates shuffle of `s`, from the back: for
/// `k = i - 1` down to `0`, entry `k` changes places with entry `t[k]`.
pub open spec fn fisher_yates(s: Seq<i32>, i: int, t: Seq<usize>) -> Seq<i32>
    decreases i,
{
    if i <= 0 {
        s
    } else {
        let k = i - 1;
        let j = t[k] as int;
        fisher_yates(s.update(k, s[j]).update(j, s[k]), k, t)
    }
}

/// `t` holds, for each of the first `n` steps `k`, a position in `0..=k`.
pub open spec fn valid_draws(t: Seq<usize>, n: int) -> bool {
    &&& t.len() == n
    &&& forall|k: int| 0 <= k < n ==> #[trigger] t[k] <= k
}

/// The first `l` entries of a shuffle of `s` that touches only its first `i <= l`
/// entries are the same shuffle of the first `l` entries of `s`.
pub proof fn lemma_fisher_yates_prefix(s: Seq<i32>, i: int, t: Seq<usize>, l: int)
    requires
        0 <= i <= l <= s.len(),
        i <= t.len(),
        forall|k: int| 0 <= k < i ==> t[k] <= k,
    ensures
        fisher_yates(s, i, t).subrange(0, l) == fisher_yates(s.subrange(0, l), i, t),
    decreases i,
{
    if i > 0 {
        let k = i - 1;
        let j = t[k] as int;
        let s2 = s.update(k, s[j]).update(j, s[k]);
        let q = s.subrange(0, l);
        assert(s2.subrange(0, l) =~= q.update(k, q[j]).update(j, q[k]));
        lemma_fisher_yates_prefix(s2, k, t, l);
    } else {
        assert(s.subrange(0, l) =~= s.subrange(0, l));
    }
}

/// A Fisher-Yates shuffle only moves entries: it keeps the length and the
/// multiset, and leaves every entry from `i` on in place.
pub proof fn lemma_fisher_yates_moves_only(s: Seq<i32>, i: int, t: Seq<usize>)
    requires
        0 <= i <= s.len(),
        i <= t.len(),
        forall|k: int| 0 <= k < i ==> t[k] <= k,
    ensures
        fisher_yates(s, i, t).len() == s.len(),
        fisher_yates(s, i, t).to_multiset() == s.to_multiset(),
        forall|k: int| i <= k < s.len() ==> #[trigger] fisher_yates(s, i, t)[k] == s[k],
    decreases i,
{
    if i > 0 {
        let k = i - 1;
        let j = t[k] as int;
        let s2 = s.update(k, s[j]).update(j, s[k]);
        crate::seq_lemmas::lemma_swap_keeps_multiset(s, k, j);
        lemma_fisher_yates_moves_only(s2, k, t);
        assert forall|m: int| i <= m < s.len() implies #[trigger] fisher_yates(s, i, t)[m]
            == s[m] by {
            assert(fisher_yates(s2, k, t)[m] == s2[m]);
        }
    }
}

/// Carries out the first `n` steps of a Fisher-Yates shuffle of `p` with the
/// drawn positions `targets`: for `i` from `n - 1` down to `0`, entry `i`
/// changes places with entry `targets[i]`.
pub fn apply_swaps(p: &mut [i32], n: usize, targets: &Vec<usize>)
    requires
        n <= old(p)@.len(),
        targets@.len() == n,
        forall|k: int| 0 <= k < n ==> targets@[k] <= k,
    ensures
        final(p)@ == fisher_yates(old(p)@, n as int, targets@),
{
    let mut i: usize = n;
    while i > 0
        invariant
            i <= n,
            n <= old(p)@.len(),
            p@.len() == old(p)@.len(),
            targets@.len() == n,
            forall|k: int| 0 <= k < n ==> targets@[k] <= k,
            fisher_yates(p@, i as int, targets@) == fisher_yates(old(p)@, n as int, targets@),
        decreases i,
    {
        i = i - 1;
        let target: usize = targets[i];
        let temp: i32 = p[i];
        p[i] = p[target];
        p[target] = temp;
    }
}

/// Shuffles the first `n` entries of `p` in place (Fisher-Yates, from the back),
/// drawing from the thread-local generator, for `i` from `n - 1` down to `0`, a
/// position in `0..=i` to exchange entry `i` with. The entries are only moved:
/// the whole slice keeps its multiset, and the entries from `n` on stay in place.
pub fn permute(p: &mut [i32], n: usize)
    requires
        n <= old(p)@.len(),
    ensures
        final(p)@.len() == old(p)@.len(),
        final(p)@.to_multiset() == old(p)@.to_multiset(),
        final(p)@.subrange(n as int, old(p)@.len() as int) == old(p)@.subrange(
            n as int,
            old(p)@.len() as int,
        ),
        exists|t: Seq<usize>|
            #![trigger fisher_yates(old(p)@, n as int, t)]
            valid_draws(t, n as int) && final(p)@ == fisher_yates(old(p)@, n as int, t),
{
    let mut rng = thread_rng();
    let mut targets: Vec<usize> = vec![0usize; n];
    let mut i: usize = n;
    while i > 0
        invariant
            i <= n,
            targets@.len() == n,
            forall|k: int| 0 <= k < n ==> targets@[k] <= k,
        decreases i,
    {
        i = i - 1;
        let target: usize = gen_range_usize(&mut rng, 0, i);
        targets[i] = target;
    }
    apply_swaps(p, n, &targets);
    proof {
        lemma_fisher_yates_moves_only(old(p)@, n as int, targets@);
        assert(valid_draws(targets@, n as int));
    }
    assert(p@.subrange(n as int, old(p)@.len() as int) =~= old(p)@.subrange(
        n as int,
        old(p)@.len() as int,
    ));
}

/// A sequence with the multiset of `0, 1, ..., n - 1` lists each of them once.
proof fn lemma_same_multiset_as_identity(s: Seq<i32>, n: nat)
    requires
        n <= 0x8000_0000,
        s.to_multiset() == identity_seq(n).to_multiset(),
    ensures
        is_permutation_of_range(s, n as int),
{
    let id = identity_seq(n);
    assert(id.no_duplicates());
    id.lemma_multiset_has_no_duplicates();
    s.lemma_multiset_has_no_duplicates_conv();
    assert(s.len() == n) by {
        assert(s.to_multiset().len() == s.len());
        assert(id.to_multiset().len() == id.len());
    }
    assert forall|i: int| 0 <= i < n implies 0 <= #[trigger] s[i] < n by {
        assert(s.contains(s[i]));
        assert(s.to_multiset().count(s[i]) > 0);
        assert(id.to_multiset().count(s[i]) > 0);
        assert(id.contains(s[i]));
    }
}

/// Fills the first 256 entries of `p` with `0, 1, ..., 255` and shuffles them:
/// afterwards they list each of `0..256` exactly once. Later entries are untouched.
pub fn perlin_generate_perm(p: &mut [i32])
    requires
        old(p)@.len() >= 256,
    ensures
        final(p)@.len() == old(p)@.len(),
        is_permutation_of_range(final(p)@.subrange(0, 256), 256),
        final(p)@.subrange(256, old(p)@.len() as int) == old(p)@.subrange(
            256,
            old(p)@.len() as int,
        ),
        exists|t: Seq<usize>|
            #![trigger fisher_yates(identity_seq(256), 256, t)]
            valid_draws(t, 256) && final(p)@.subrange(0, 256) == fisher_yates(
                identity_seq(256),
                256,
                t,
            ),
{
    let mut i: usize = 0;
    while i < 256
        invariant
            i <= 256,
            p@.len() == old(p)@.len(),
            old(p)@.len() >= 256,
            forall|k: int| 0 <= k < i ==> p@[k] == k,
            forall|k: int| 256 <= k < p@.len() ==> p@[k] == old(p)@[k],
        decreases 256 - i,
    {
        p[i] = i as i32;
        i = i + 1;
    }
    let ghost before = p@;
    assert(before.subrange(0, 256) =~= identity_seq(256));
    permute(p, 256);
    proof {
        let t = choose|t: Seq<usize>|
            #![trigger fisher_yates(before, 256, t)]
            valid_draws(t, 256) && p@ == fisher_yates(before, 256, t);
        lemma_fisher_yates_prefix(before, 256, t, 256);
        assert(p@.subrange(0, 256) == fisher_yates(identity_seq(256), 256, t));
        let len: int = before.len() as int;
        broadcast use vstd::seq_lib::lemma_multiset_commutative;
        let b0 = before.subrange(0, 256);
        let b1 = before.subrange(256, len);
        let p0 = p@.subrange(0, 256);
        let p1 = p@.subrange(256, len);
        assert(p1 == b1);
        assert(before =~= b0 + b1);
        assert(p@ =~= p0 + p1);
        vstd::seq_lib::lemma_multiset_commutative(b0, b1);
        vstd::seq_lib::lemma_multiset_commutative(p0, p1);
        assert(p0.to_multiset() =~= b0.to_multiset()) by {
            broadcast use vstd::multiset::group_multiset_axioms;
            assert forall|x: i32| p0.to_multiset().count(x) == b0.to_multiset().count(x) by {
                assert((p0 + p1).to_multiset().count(x) == (b0 + b1).to_multiset().count(x));
            }
        }
        lemma_same_multiset_as_identity(p@.subrange(0, 256), 256);
        assert(p@.subrange(256, len) =~= old(p)@.subrange(256, len));
    }
}

/// The lattice hash of Perlin noise: the three permutations, each read at the
/// low eight bits of its coordinate, combined by exclusive or.
pub open spec fn lattice_hash(
    px: Seq<i32>,
    py: Seq<i32>,
    pz: Seq<i32>,
    i: i32,
    j: i32,
    k: i32,
) -> i32 {
    px[(i & 255) as int] ^ py[(j & 255) as int] ^ pz[(k & 255) as int]
}

/// The three shuffled lattice permutations of a Perlin noise generator.
pub struct PerlinPerms {
    perm_x: [i32; 256],
    perm_y: [i32; 256],
    perm_z: [i32; 256],
}

impl PerlinPerms {
    #[verifier::type_invariant]
    spec fn each_is_a_permutation(self) -> bool {
        &&& is_permutation_of_range(self.perm_x@, 256)
        &&& is_permutation_of_range(self.perm_y@, 256)
        &&& is_permutation_of_range(self.perm_z@, 256)
    }

    /// The permutation along x.
    pub closed spec fn spec_perm_x(&self) -> Seq<i32> {
        self.perm_x@
    }

    /// The permutation along y.
    pub closed spec fn spec_perm_y(&self) -> Seq<i32> {
        self.perm_y@
    }

    /// The permutation along z.
    pub closed spec fn spec_perm_z(&self) -> Seq<i32> {
        self.perm_z@
    }

    /// The permutation along x; it lists each of `0..256` exactly once.
    pub fn perm_x(&self) -> (r: [i32; 256])
        ensures
            r@ == self.spec_perm_x(),
            is_permutation_of_range(r@, 256),
    {
        proof {
            use_type_invariant(self);
        }
        self.perm_x
    }

    /// The permutation along y; it lists each of `0..256` exactly once.
    pub fn perm_y(&self) -> (r: [i32; 256])
        ensures
            r@ == self.spec_perm_y(),
            is_permutation_of_range(r@, 256),
    {
        proof {
            use_type_invariant(self);
        }
        self.perm_y
    }

    /// The permutation along z; it lists each of `0..256` exactly once.
    pub fn perm_z(&self) -> (r: [i32; 256])
        ensures
            r@ == self.spec_perm_z(),
            is_permutation_of_range(r@, 256),
    {
        proof {
            use_type_invariant(self);
        }
        self.perm_z
    }

    /// Three freshly shuffled permutations of `0..256`, drawn from the
    /// thread-local generator in the order x, y, z.
    pub fn new() -> (r: Self)
        ensures
            is_permutation_of_range(r.spec_perm_x(), 256),
            is_permutation_of_range(r.spec_perm_y(), 256),
            is_permutation_of_range(r.spec_perm_z(), 256),
            exists|t: Seq<usize>|
                #![trigger fisher_yates(identity_seq(256), 256, t)]
                valid_draws(t, 256) && r.spec_perm_x() == fisher_yates(identity_seq(256), 256, t),
            exists|t: Seq<usize>|
                #![trigger fisher_yates(identity_seq(256), 256, t)]
                valid_draws(t, 256) && r.spec_perm_y() == fisher_yates(identity_seq(256), 256, t),
            exists|t: Seq<usize>|
                #![trigger fisher_yates(identity_seq(256), 256, t)]
                valid_draws(t, 256) && r.spec_perm_z() == fisher_yates(identity_seq(256), 256, t),
    {
        let mut perm_x: [i32; 256] = [0i32; 256];
        let mut perm_y: [i32; 256] = [0i32; 256];
        let mut perm_z: [i32; 256] = [0i32; 256];
        perlin_generate_perm(&mut perm_x);
        perlin_generate_perm(&mut perm_y);
        perlin_generate_perm(&mut perm_z);
        assert(perm_x@.subrange(0, 256) =~= perm_x@);
        assert(perm_y@.subrange(0, 256) =~= perm_y@);
        assert(perm_z@.subrange(0, 256) =~= perm_z@);
        PerlinPerms { perm_x, perm_y, perm_z }
    }

    /// The index into the 256 random values that the lattice corner `(i, j, k)`
    /// stands for.
    pub fn corner_index(&self, i: i32, j: i32, k: i32) -> (r: usize)
        ensures
            r < 256,
            r == lattice_hash(self.spec_perm_x(), self.spec_perm_y(), self.spec_perm_z(), i, j, k),
    {
        proof {
            use_type_invariant(self);
        }
        let a: i32 = i & 255;
        let b: i32 = j & 255;
        let c: i32 = k & 255;
        assert(0 <= a < 256 && 0 <= b < 256 && 0 <= c < 256) by (bit_vector)
            requires
                a == i & 255,
                b == j & 255,
                c == k & 255,
        ;
        let x: i32 = self.perm_x[a as usize];
        let y: i32 = self.perm_y[b as usize];
        let z: i32 = self.perm_z[c as usize];
        assert(0 <= x < 256 && 0 <= y < 256 && 0 <= z < 256);
        let h: i32 = x ^ y ^ z;
        assert(0 <= h < 256) by (bit_vector)
            requires
                0 <= x < 256,
                0 <= y < 256,
                0 <= z < 256,
                h == x ^ y ^ z,
        ;
        h as usize
    }
}

} // verus!
