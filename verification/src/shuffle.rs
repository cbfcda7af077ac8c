use vstd::prelude::*;
use rand::rngs::ThreadRng;
use rand::seq::SliceRandom;

verus! {

/// Calls `rand::seq::SliceRandom::shuffle`, which puts the elements of the slice in a
/// random order in place (a Fisher-Yates shuffle made of swaps). The contract states that
/// the same elements come back, each as often as before; their order depends on the
/// generator's state and is left open.
#[verifier::external_body]
fn shuffle_triangle_list(rng: &mut ThreadRng, triangles: &mut Vec<(u32, u32, u32)>)
    ensures
        final(triangles)@.to_multiset() == old(triangles)@.to_multiset(),
{
    triangles.shuffle(rng);
}

/// The whole triangles of an index list, each as its three corners; a trailing partial
/// triangle is left out.
pub open spec fn triangle_triples(s: Seq<u32>) -> Seq<(u32, u32, u32)> {
    Seq::new(s.len() / 3, |t: int| (s[3 * t], s[3 * t + 1], s[3 * t + 2]))
}

/// Puts the whole triangles of an index list in a random order, keeping the corner order
/// within each triangle; a trailing partial triangle is dropped.
pub fn shuffle_triangles(rng: &mut ThreadRng, indices: &Vec<u32>) -> (res: Vec<u32>)
    ensures
        res@.len() == 3 * (indices@.len() / 3),
        triangle_triples(res@).to_multiset() == triangle_triples(indices@).to_multiset(),
{
    let len = indices.len();
    let count = len / 3;
    let mut triangles: Vec<(u32, u32, u32)> = Vec::new();
    let mut t: usize = 0;
    while t < count
        invariant
            len == indices@.len(),
            count == len / 3,
            3 * count <= len,
            t <= count,
            triangles@ == triangle_triples(indices@).subrange(0, t as int),
        decreases count - t,
    {
        triangles.push((indices[3 * t], indices[3 * t + 1], indices[3 * t + 2]));
        t = t + 1;
        assert(triangles@ =~= triangle_triples(indices@).subrange(0, t as int));
    }
    assert(triangles@ =~= triangle_triples(indices@));

    let ghost before_shuffle = triangles@;
    shuffle_triangle_list(rng, &mut triangles);
    proof {
        vstd::seq_lib::to_multiset_len(before_shuffle);
        vstd::seq_lib::to_multiset_len(triangles@);
    }

    let mut res: Vec<u32> = Vec::new();
    let mut u: usize = 0;
    while u < triangles.len()
        invariant
            u <= triangles@.len(),
            triangles@.len() == count,
            res@.len() == 3 * u,
            forall|x: int| 0 <= x < u ==> #[trigger] triangle_triples(res@)[x] == triangles@[x],
        decreases triangles@.len() - u,
    {
        let (a, b, c) = triangles[u];
        let ghost before = res@;
        res.push(a);
        res.push(b);
        res.push(c);
        proof {
            assert forall|x: int| 0 <= x < u + 1 implies #[trigger] triangle_triples(res@)[x] == triangles@[x] by {
                if x < u {
                    assert(triangle_triples(before)[x] == triangles@[x]);
                    assert(res@[3 * x] == before[3 * x]);
                    assert(res@[3 * x + 1] == before[3 * x + 1]);
                    assert(res@[3 * x + 2] == before[3 * x + 2]);
                }
            }
        }
        u = u + 1;
    }
    assert(triangle_triples(res@) =~= triangles@);
    res
}

} // verus!
