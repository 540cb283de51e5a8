//! Conversions between a set of CPU indices and the native affinity bitmask.
//!
//! A mask is a `usize` whose bit `i` says whether CPU `i` is selected. The
//! set side is a strictly increasing `Vec<usize>`, the representation the
//! rest of the crate uses for CPU index sets.

use vstd::prelude::*;

verus! {

/// Whether bit `i` of `mask` is set.
pub open spec fn mask_bit(mask: usize, i: usize) -> bool {
    (mask >> i) & 1 == 1
}

/// The set of CPU indices that `mask` selects: exactly the set bit
/// positions, which all lie below the native word width.
pub open spec fn mask_set(mask: usize) -> Set<usize> {
    Set::new(|i: usize| i < usize::BITS && mask_bit(mask, i))
}

/// A strictly increasing sequence: sorted, with no duplicates.
pub open spec fn strictly_sorted(s: Seq<usize>) -> bool {
    forall|i: int, j: int| 0 <= i < j < s.len() ==> s[i] < s[j]
}

/// No bit of the zero mask is set.
pub proof fn lemma_zero_mask_bit(i: usize)
    ensures
        !mask_bit(0usize, i),
{
    assert(!((0usize >> i) & 1 == 1)) by (bit_vector);
}

/// Setting bit `s` of a mask by an or leaves every other bit as it was.
pub proof fn lemma_mask_or_bit(m1: usize, m2: usize, s: usize, i: usize)
    requires
        m2 == m1 | (1usize << s),
        s < usize::BITS,
    ensures
        mask_bit(m2, i) <==> (mask_bit(m1, i) || i == s),
{
    assert(((m2 >> i) & 1 == 1) <==> (((m1 >> i) & 1 == 1) || i == s)) by (bit_vector)
        requires
            m2 == m1 | (1usize << s),
            s < usize::BITS,
    ;
}

/// Appending one value to a sequence adds exactly that value to its
/// membership.
pub proof fn lemma_push_contains(s: Seq<usize>, x: usize, i: usize)
    ensures
        s.push(x).contains(i) <==> (s.contains(i) || i == x),
{
    if s.push(x).contains(i) {
        let j = choose|j: int| 0 <= j < s.push(x).len() && s.push(x)[j] == i;
        if j < s.len() {
            assert(s[j] == i);
        }
    }
    if s.contains(i) {
        let j = choose|j: int| 0 <= j < s.len() && s[j] == i;
        assert(s.push(x)[j] == i);
    }
    assert(s.push(x)[s.len() as int] == x);
}

/// Appending one value to a sequence inserts exactly that value into the
/// set of its values.
pub proof fn lemma_push_to_set(s: Seq<usize>, x: usize)
    ensures
        s.push(x).to_set() == s.to_set().insert(x),
{
    assert(s.push(x).to_set() =~= s.to_set().insert(x)) by {
        assert forall|y: usize| #[trigger] s.push(x).to_set().contains(y) <==> s.to_set().insert(
            x,
        ).contains(y) by {
            lemma_push_contains(s, x, y);
        }
    }
}

/// Two strictly increasing sequences holding the same set of values are the
/// same sequence.
pub proof fn lemma_strictly_sorted_unique(a: Seq<usize>, b: Seq<usize>)
    requires
        strictly_sorted(a),
        strictly_sorted(b),
        a.to_set() == b.to_set(),
    ensures
        a == b,
    decreases a.len(),
{
    if a.len() == 0 {
        if b.len() > 0 {
            assert(a.to_set().contains(b[0]));
            assert(false);
        }
        assert(a =~= b);
    } else {
        if b.len() == 0 {
            assert(b.to_set().contains(a[0]));
            assert(false);
        }
        // The last elements are the respective maxima, so they agree.
        let la = a[a.len() - 1];
        let lb = b[b.len() - 1];
        assert(b.to_set().contains(la));
        assert(a.to_set().contains(lb));
        assert(forall|k: int| 0 <= k < a.len() ==> a[k] <= la);
        assert(forall|k: int| 0 <= k < b.len() ==> b[k] <= lb);
        assert(la == lb);
        let a0 = a.drop_last();
        let b0 = b.drop_last();
        assert forall|x: usize| a0.to_set().contains(x) implies b0.to_set().contains(x) by {
            let k = choose|k: int| 0 <= k < a0.len() && a0[k] == x;
            assert(a[k] == x);
            assert(x < la);
            assert(b.to_set().contains(x));
            let m = choose|m: int| 0 <= m < b.len() && b[m] == x;
            assert(m < b.len() - 1);
            assert(b0[m] == x);
        }
        assert forall|x: usize| b0.to_set().contains(x) implies a0.to_set().contains(x) by {
            let k = choose|k: int| 0 <= k < b0.len() && b0[k] == x;
            assert(b[k] == x);
            assert(x < lb);
            assert(a.to_set().contains(x));
            let m = choose|m: int| 0 <= m < a.len() && a[m] == x;
            assert(m < a.len() - 1);
            assert(a0[m] == x);
        }
        assert(a0.to_set() =~= b0.to_set());
        lemma_strictly_sorted_unique(a0, b0);
        assert(a.len() == b.len());
        assert forall|i: int| 0 <= i < a.len() implies a[i] == b[i] by {
            if i < a.len() - 1 {
                assert(a[i] == a0[i]);
                assert(a0[i] == b0[i]);
                assert(b0[i] == b[i]);
            }
        }
        assert(a =~= b);
    }
}

/// Builds the affinity bitmask whose set bits are exactly the given CPU
/// indices: bit `i` of the result is set iff `i` occurs in `selections`.
pub fn hashset_to_mask(selections: &Vec<usize>) -> (mask: usize)
    requires
        forall|k: int| 0 <= k < selections@.len() ==> selections@[k] < usize::BITS,
    ensures
        forall|i: usize| #[trigger] mask_bit(mask, i) <==> selections@.contains(i),
{
    let mut mask: usize = 0;
    proof {
        assert forall|i: usize| !mask_bit(0usize, i) by {
            lemma_zero_mask_bit(i);
        }
        assert(selections@.take(0).len() == 0);
    }
    let mut k: usize = 0;
    while k < selections.len()
        invariant
            k <= selections@.len(),
            forall|j: int| 0 <= j < selections@.len() ==> selections@[j] < usize::BITS,
            forall|i: usize| #[trigger] mask_bit(mask, i) <==> selections@.take(k as int).contains(i),
        decreases selections@.len() - k,
    {
        let s = selections[k];
        let old_mask = mask;
        mask = mask | (1usize << s);
        proof {
            assert forall|i: usize| #[trigger] mask_bit(mask, i) <==> (mask_bit(old_mask, i) || i
                == s) by {
                lemma_mask_or_bit(old_mask, mask, s, i);
            }
            assert(selections@.take(k as int + 1) =~= selections@.take(k as int).push(
                selections@[k as int]));
            assert forall|i: usize| #[trigger] selections@.take(k as int + 1).contains(i) <==>
                (selections@.take(k as int).contains(i) || i == selections@[k as int]) by {
                lemma_push_contains(selections@.take(k as int), selections@[k as int], i);
            }
        }
        k = k + 1;
    }
    assert(selections@.take(selections@.len() as int) =~= selections@);
    mask
}

/// Reads an affinity bitmask back into the list of selected CPU indices,
/// scanning the full width of the native word: the result is strictly
/// increasing and holds exactly the set bit positions.
pub fn mask_to_hashset(mask: &usize) -> (selections: Vec<usize>)
    ensures
        strictly_sorted(selections@),
        forall|i: usize| selections@.contains(i) <==> (i < usize::BITS && mask_bit(*mask, i)),
        selections@.to_set() == mask_set(*mask),
{
    let mut selections: Vec<usize> = Vec::new();
    let width = usize::BITS as usize;
    let mut bit_index: usize = 0;
    while bit_index < width
        invariant
            bit_index <= width,
            width == usize::BITS,
            strictly_sorted(selections@),
            forall|j: int| 0 <= j < selections@.len() ==> selections@[j] < bit_index,
            forall|i: usize| selections@.contains(i) <==> (i < bit_index && mask_bit(*mask, i)),
        decreases width - bit_index,
    {
        let is_selected = (*mask >> bit_index) & 1 == 1;
        if is_selected {
            let ghost prev = selections@;
            selections.push(bit_index);
            proof {
                assert forall|i: usize| selections@.contains(i) <==> (prev.contains(i) || i
                    == bit_index) by {
                    lemma_push_contains(prev, bit_index, i);
                }
            }
        }
        bit_index = bit_index + 1;
    }
    proof {
        assert(selections@.to_set() =~= mask_set(*mask));
    }
    selections
}

/// The bitwise round-trip law: turning a set of CPU indices (each within the
/// native word width) into a mask and reading that mask back yields the same
/// set of indices.
///
/// The hypotheses are exactly what `hashset_to_mask` and `mask_to_hashset`
/// ensure of their results.
pub proof fn lemma_mask_round_trip(sel: Seq<usize>, mask: usize, back: Seq<usize>)
    requires
        forall|k: int| 0 <= k < sel.len() ==> sel[k] < usize::BITS,
        forall|i: usize| #[trigger] mask_bit(mask, i) <==> sel.contains(i),
        forall|i: usize| back.contains(i) <==> (i < usize::BITS && mask_bit(mask, i)),
    ensures
        back.to_set() == sel.to_set(),
{
    assert forall|i: usize| back.to_set().contains(i) implies sel.to_set().contains(i) by {
        assert(mask_bit(mask, i));
    }
    assert forall|i: usize| sel.to_set().contains(i) implies back.to_set().contains(i) by {
        let k = choose|k: int| 0 <= k < sel.len() && sel[k] == i;
        assert(sel[k] < usize::BITS);
        assert(mask_bit(mask, i));
    }
    assert(back.to_set() =~= sel.to_set());
}

} // verus!
