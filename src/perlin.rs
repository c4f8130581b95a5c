use crate::random::random_below;
use rand::rngs::StdRng;
use vstd::prelude::*;

verus! {

/// Size of each lattice permutation table.
pub const PERM_SIZE: usize = 256;

/// `s` holds each of `0..n` exactly once.
pub open spec fn is_perm_of_range(s: Seq<usize>, n: nat) -> bool {
    &&& s.len() == n
    &&& forall|i: int| 0 <= i < s.len() ==> #[trigger] s[i] < n
    &&& s.no_duplicates()
}

/// The lattice hash of a corner: the three per-axis permutations, each indexed
/// by the low eight bits of its coordinate, combined by exclusive or.
pub open spec fn lattice_hash(px: Seq<usize>, py: Seq<usize>, pz: Seq<usize>, i: usize, j: usize, k: usize) -> usize {
    px[(i & 255) as int] ^ py[(j & 255) as int] ^ pz[(k & 255) as int]
}

/// The permutation tables of Perlin noise; the gradient vectors that the
/// lattice hash selects are held by the caller.
#[derive(Clone, Debug)]
pub struct Perlin {
    pub perm_x: Vec<usize>,
    pub perm_y: Vec<usize>,
    pub perm_z: Vec<usize>,
}

impl Perlin {
    pub open spec fn wf(&self) -> bool {
        &&& is_perm_of_range(self.perm_x@, PERM_SIZE as nat)
        &&& is_perm_of_range(self.perm_y@, PERM_SIZE as nat)
        &&& is_perm_of_range(self.perm_z@, PERM_SIZE as nat)
    }

    /// Three independent random permutations of `0..256`.
    pub fn new(rng: &mut StdRng) -> (r: Perlin)
        ensures
            r.wf(),
    {
        let perm_x = Perlin::perlin_generate_perm(rng);
        let perm_y = Perlin::perlin_generate_perm(rng);
        let perm_z = Perlin::perlin_generate_perm(rng);
        Perlin { perm_x, perm_y, perm_z }
    }

    /// Shuffles the first `n` entries of `p` in place (Fisher-Yates, from the
    /// back): entry `i` is swapped with a uniformly drawn entry in `0..=i`.
    /// The entries are only moved: what `p` holds, with its multiplicities,
    /// is kept, and the entries from `n` on stay where they were.
    pub fn permute(p: &mut Vec<usize>, n: usize, rng: &mut StdRng)
        requires
            n <= old(p).len(),
        ensures
            final(p)@.len() == old(p)@.len(),
            final(p)@.to_multiset() == old(p)@.to_multiset(),
            forall|i: int| n <= i < old(p)@.len() ==> final(p)@[i] == old(p)@[i],
    {
        let mut i: usize = n;
        while i > 0
            invariant
                i <= n <= p@.len(),
                p@.len() == old(p)@.len(),
                p@.to_multiset() == old(p)@.to_multiset(),
                forall|k: int| n <= k < old(p)@.len() ==> p@[k] == old(p)@[k],
            decreases i,
        {
            i = i - 1;
            let target = random_below(rng, i + 1);
            proof {
                lemma_swap_multiset(p@, i as int, target as int);
            }
            let vi = p[i];
            let vt = p[target];
            p.set(i, vt);
            p.set(target, vi);
        }
    }

    /// A random permutation of `0..256`.
    pub fn perlin_generate_perm(rng: &mut StdRng) -> (r: Vec<usize>)
        ensures
            is_perm_of_range(r@, PERM_SIZE as nat),
    {
        let mut p: Vec<usize> = Vec::with_capacity(PERM_SIZE);
        let mut i: usize = 0;
        while i < PERM_SIZE
            invariant
                i <= PERM_SIZE,
                p@.len() == i,
                forall|k: int| 0 <= k < i ==> p@[k] == k,
            decreases PERM_SIZE - i,
        {
            p.push(i);
            i = i + 1;
        }
        assert(is_perm_of_range(p@, PERM_SIZE as nat));
        let ghost before = p@;
        Perlin::permute(&mut p, PERM_SIZE, rng);
        proof {
            lemma_multiset_keeps_perm(before, p@, PERM_SIZE as nat);
        }
        p
    }

    /// Index of the gradient for lattice corner `(i, j, k)`; only the low
    /// eight bits of each coordinate count, so the lattice repeats every 256
    /// cells along each axis.
    pub fn lattice_index(&self, i: usize, j: usize, k: usize) -> (r: usize)
        requires
            self.wf(),
        ensures
            r == lattice_hash(self.perm_x@, self.perm_y@, self.perm_z@, i, j, k),
            r < PERM_SIZE,
    {
        assert(i & 255 < 256 && j & 255 < 256 && k & 255 < 256) by (bit_vector);
        let a = self.perm_x[i & 255];
        let b = self.perm_y[j & 255];
        let c = self.perm_z[k & 255];
        assert(a ^ b ^ c < 256) by (bit_vector)
            requires
                a < 256 && b < 256 && c < 256,
        ;
        a ^ b ^ c
    }
}

proof fn lemma_swap_multiset(s: Seq<usize>, i: int, j: int)
    requires
        0 <= i < s.len(),
        0 <= j < s.len(),
    ensures
        s.update(i, s[j]).update(j, s[i]).to_multiset() == s.to_multiset(),
{
    broadcast use vstd::seq_lib::group_to_multiset_ensures, vstd::multiset::group_multiset_axioms;

    let t = s.update(i, s[j]);
    assert(t.to_multiset() == s.to_multiset().insert(s[j]).remove(s[i]));
    assert(t.update(j, s[i]).to_multiset() == t.to_multiset().insert(s[i]).remove(t[j]));
    assert(t.update(j, s[i]).to_multiset() =~= s.to_multiset());
}

/// A sequence with the same multiset as a permutation of `0..n` is one too.
proof fn lemma_multiset_keeps_perm(a: Seq<usize>, b: Seq<usize>, n: nat)
    requires
        is_perm_of_range(a, n),
        b.len() == a.len(),
        b.to_multiset() == a.to_multiset(),
    ensures
        is_perm_of_range(b, n),
{
    broadcast use vstd::seq_lib::group_to_multiset_ensures;

    assert forall|i: int| 0 <= i < b.len() implies #[trigger] b[i] < n by {
        assert(b.contains(b[i]));
        assert(b.to_multiset().count(b[i]) > 0);
        assert(a.contains(b[i]));
    }
    a.lemma_multiset_has_no_duplicates();
    b.lemma_multiset_has_no_duplicates_conv();
}

} // verus!
