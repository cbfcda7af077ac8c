use vstd::prelude::*;

verus! {

/// The index list with the corner order of every whole triangle reversed, which turns
/// its winding from clockwise to counter-clockwise and back; a trailing partial triangle
/// stays as it is.
pub open spec fn flipped_winding(s: Seq<u32>) -> Seq<u32> {
    Seq::new(
        s.len(),
        |j: int|
            if j < 3 * (s.len() / 3) {
                s[3 * (j / 3) + 2 - j % 3]
            } else {
                s[j]
            },
    )
}

/// Reverses the corner order of every whole triangle of the index list.
pub fn flip_triangle_winding(indices: &mut Vec<u32>)
    ensures
        final(indices)@ == flipped_winding(old(indices)@),
{
    let ghost orig = indices@;
    let len = indices.len();
    let chunks = len / 3;
    let mut c: usize = 0;
    while c < chunks
        invariant
            len == orig.len(),
            chunks == len / 3,
            3 * chunks <= len,
            c <= chunks,
            indices@.len() == orig.len(),
            forall|j: int| 0 <= j < 3 * c ==> #[trigger] indices@[j] == flipped_winding(orig)[j],
            forall|j: int| 3 * c <= j < orig.len() ==> #[trigger] indices@[j] == orig[j],
        decreases chunks - c,
    {
        let first = indices[3 * c];
        let last = indices[3 * c + 2];
        indices[3 * c] = last;
        indices[3 * c + 2] = first;
        proof {
            assert forall|j: int| 0 <= j < 3 * (c + 1) implies #[trigger] indices@[j] == flipped_winding(orig)[j] by {
                if j >= 3 * c {
                    assert(j / 3 == c);
                }
            }
        }
        c = c + 1;
    }
    assert(indices@ =~= flipped_winding(orig));
}

/// Flipping the winding twice gives back the index list.
pub proof fn lemma_flip_winding_involution(s: Seq<u32>)
    ensures
        flipped_winding(flipped_winding(s)) == s,
{
    let f = flipped_winding(s);
    assert forall|j: int| 0 <= j < s.len() implies #[trigger] flipped_winding(f)[j] == s[j] by {
        if j < 3 * (s.len() / 3) {
            let k = 3 * (j / 3) + 2 - j % 3;
            assert(k / 3 == j / 3 && k % 3 == 2 - j % 3);
        }
    }
    assert(flipped_winding(f) =~= s);
}

/// Flipping the winding keeps every triangle's set of corners, and so the vertices used.
pub proof fn lemma_flip_winding_keeps_corners(s: Seq<u32>, t: int)
    requires
        0 <= t < s.len() / 3,
    ensures
        flipped_winding(s)[3 * t] == s[3 * t + 2],
        flipped_winding(s)[3 * t + 1] == s[3 * t + 1],
        flipped_winding(s)[3 * t + 2] == s[3 * t],
{
    assert((3 * t) / 3 == t && (3 * t + 1) / 3 == t && (3 * t + 2) / 3 == t);
}

/// Flipping the winding keeps the length of the index list, and a trailing partial
/// triangle as it is.
pub proof fn lemma_flip_winding_keeps_tail(s: Seq<u32>)
    ensures
        flipped_winding(s).len() == s.len(),
        forall|j: int|
            3 * (s.len() / 3) <= j < s.len() ==> #[trigger] flipped_winding(s)[j] == s[j],
{
}

/// A list of triangulations (each a type tag `T`, its vertices and its index list) with
/// one of them selected. The list is never empty and the selection is always one of its
/// entries.
pub struct TriangulationCatalog<T, V> {
    triangulations: Vec<(T, Vec<V>, Vec<u32>)>,
    current_triangulation_index: usize,
}

impl<T, V> TriangulationCatalog<T, V> {
    #[verifier::type_invariant]
    spec fn inv(self) -> bool {
        self.current_triangulation_index < self.triangulations@.len()
    }
}

impl<T: Copy, V> TriangulationCatalog<T, V> {
    /// The triangulations, in order.
    pub closed spec fn spec_triangulations(&self) -> Seq<(T, Vec<V>, Vec<u32>)> {
        self.triangulations@
    }

    /// The position of the selected triangulation.
    pub closed spec fn spec_current(&self) -> nat {
        self.current_triangulation_index as nat
    }

    /// A catalog of the given triangulations, with the first one selected.
    pub fn new(triangulations: Vec<(T, Vec<V>, Vec<u32>)>) -> (res: Self)
        requires
            triangulations@.len() > 0,
        ensures
            res.spec_triangulations() == triangulations@,
            res.spec_current() == 0,
    {
        TriangulationCatalog { triangulations, current_triangulation_index: 0 }
    }

    /// The number of triangulations.
    pub fn get_triangulations_len(&self) -> (res: usize)
        ensures
            res == self.spec_triangulations().len(),
    {
        self.triangulations.len()
    }

    /// The position of the selected triangulation.
    pub fn current_index(&self) -> (res: usize)
        ensures
            res == self.spec_current(),
            res < self.spec_triangulations().len(),
    {
        proof {
            use_type_invariant(self);
        }
        self.current_triangulation_index
    }

    /// Selects the triangulation at `index`.
    pub fn set_triangulation(&mut self, index: usize)
        requires
            index < old(self).spec_triangulations().len(),
        ensures
            final(self).spec_triangulations() == old(self).spec_triangulations(),
            final(self).spec_current() == index,
    {
        self.current_triangulation_index = index;
    }

    /// Selects the first triangulation.
    pub fn reset_to_default_triangulation(&mut self)
        ensures
            final(self).spec_triangulations() == old(self).spec_triangulations(),
            final(self).spec_current() == 0,
    {
        proof {
            use_type_invariant(&*self);
        }
        self.set_triangulation(0);
    }

    /// Selects the following triangulation, going round to the first after the last.
    /// Returns true exactly when it went round, that is when the last one was selected.
    pub fn next_triangulation(&mut self) -> (reset: bool)
        ensures
            final(self).spec_triangulations() == old(self).spec_triangulations(),
            reset == (old(self).spec_current() + 1 == old(self).spec_triangulations().len()),
            final(self).spec_current() == next_index(
                old(self).spec_triangulations().len(),
                old(self).spec_current(),
            ),
    {
        proof {
            use_type_invariant(&*self);
        }
        let len = self.triangulations.len();
        let mut reset = false;
        let mut index: usize = 0;
        if self.current_triangulation_index >= len - 1 {
            reset = true;
        } else {
            index = self.current_triangulation_index + 1;
        }
        self.current_triangulation_index = index;
        reset
    }

    /// Selects the preceding triangulation, going round to the last before the first.
    pub fn prev_triangulation(&mut self)
        ensures
            final(self).spec_triangulations() == old(self).spec_triangulations(),
            final(self).spec_current() == prev_index(
                old(self).spec_triangulations().len(),
                old(self).spec_current(),
            ),
    {
        proof {
            use_type_invariant(&*self);
        }
        let index = self.current_triangulation_index.checked_sub(1).unwrap_or(
            self.triangulations.len() - 1,
        );
        self.current_triangulation_index = index;
    }

    /// The number of vertices of the selected triangulation.
    pub fn get_num_vertices(&self) -> (res: usize)
        ensures
            res == self.spec_triangulations()[self.spec_current() as int].1@.len(),
    {
        proof {
            use_type_invariant(self);
        }
        self.triangulations[self.current_triangulation_index].1.len()
    }

    /// The type of the selected triangulation.
    pub fn get_triangulation_type(&self) -> (res: T)
        ensures
            res == self.spec_triangulations()[self.spec_current() as int].0,
    {
        proof {
            use_type_invariant(self);
        }
        self.triangulations[self.current_triangulation_index].0
    }

    /// The vertices of the selected triangulation.
    pub fn current_vertices(&self) -> (res: &Vec<V>)
        ensures
            res@ == self.spec_triangulations()[self.spec_current() as int].1@,
    {
        proof {
            use_type_invariant(self);
        }
        &self.triangulations[self.current_triangulation_index].1
    }

    /// The index list of the selected triangulation, every triangle's winding reversed for
    /// drawing.
    pub fn current_draw_indices(&self) -> (res: Vec<u32>)
        ensures
            res@ == flipped_winding(self.spec_triangulations()[self.spec_current() as int].2@),
    {
        proof {
            use_type_invariant(self);
        }
        let source = &self.triangulations[self.current_triangulation_index].2;
        let mut indices: Vec<u32> = Vec::new();
        let mut j: usize = 0;
        while j < source.len()
            invariant
                j <= source@.len(),
                indices@ == source@.subrange(0, j as int),
            decreases source@.len() - j,
        {
            indices.push(source[j]);
            j = j + 1;
            assert(indices@ =~= source@.subrange(0, j as int));
        }
        assert(indices@ =~= source@);
        flip_triangle_winding(&mut indices);
        indices
    }
}

/// The position after stepping forward from `current` in a list of `len` entries.
pub open spec fn next_index(len: nat, current: nat) -> nat {
    if current + 1 >= len {
        0
    } else {
        current + 1
    }
}

/// The position after stepping back from `current` in a list of `len` entries.
pub open spec fn prev_index(len: nat, current: nat) -> nat {
    if current == 0 {
        (len - 1) as nat
    } else {
        (current - 1) as nat
    }
}

/// The position after stepping forward `steps` times.
pub open spec fn next_index_iter(len: nat, current: nat, steps: nat) -> nat
    decreases steps,
{
    if steps == 0 {
        current
    } else {
        next_index(len, next_index_iter(len, current, (steps - 1) as nat))
    }
}

/// Stepping forward and then back selects the triangulation that was selected before, and
/// so does stepping back and then forward.
pub proof fn lemma_next_prev_inverse(len: nat, current: nat)
    requires
        current < len,
    ensures
        prev_index(len, next_index(len, current)) == current,
        next_index(len, prev_index(len, current)) == current,
{
}

/// Stepping forward `steps` times moves `steps` places round the list; in particular
/// stepping forward once per entry comes back to the triangulation selected at the start.
pub proof fn lemma_next_cycles(len: nat, current: nat, steps: nat)
    requires
        current < len,
    ensures
        next_index_iter(len, current, steps) == (current + steps) as int % (len as int),
        next_index_iter(len, current, len) == current,
{
    lemma_next_cycles_mod(len, current, steps);
    lemma_next_cycles_full(len, current);
}

proof fn lemma_next_cycles_full(len: nat, current: nat)
    requires
        current < len,
    ensures
        next_index_iter(len, current, len) == current,
{
    lemma_next_cycles_mod(len, current, len);
    vstd::arithmetic::div_mod::lemma_mod_add_multiples_vanish(current as int, len as int);
    vstd::arithmetic::div_mod::lemma_small_mod(current, len);
}

proof fn lemma_add_one_mod(x: int, m: int)
    requires
        m > 0,
    ensures
        (x % m + 1) % m == (x + 1) % m,
{
    vstd::arithmetic::div_mod::lemma_add_mod_noop(x, 1, m);
    if m > 1 {
        vstd::arithmetic::div_mod::lemma_small_mod(1, m as nat);
    } else {
        assert(x % m == 0);
        assert((x + 1) % m == 0);
        assert((0int + 1) % 1 == 0);
    }
}

proof fn lemma_next_cycles_mod(len: nat, current: nat, steps: nat)
    requires
        current < len,
    ensures
        next_index_iter(len, current, steps) == (current + steps) as int % (len as int),
    decreases steps,
{
    if steps == 0 {
        vstd::arithmetic::div_mod::lemma_small_mod(current, len);
    } else {
        lemma_next_cycles_mod(len, current, (steps - 1) as nat);
        let prev = (current + steps - 1) as int % (len as int);
        vstd::arithmetic::div_mod::lemma_mod_bound((current + steps - 1) as int, len as int);
        lemma_add_one_mod((current + steps - 1) as int, len as int);
        if prev + 1 < len {
            vstd::arithmetic::div_mod::lemma_small_mod((prev + 1) as nat, len);
        } else {
            vstd::arithmetic::div_mod::lemma_mod_self_0(len as int);
        }
    }
}

} // verus!
