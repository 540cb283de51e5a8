//! The CPU selection set and the persisted configuration.
//!
//! A [`CpuSelections`] pairs a set of selected CPU indices with the
//! machine's CPU count at the time the set was built. The selected indices
//! are held as a strictly increasing vector; the mathematical model is the
//! set of values in that vector, and equality of two selection sets goes by
//! that set alone, never by the recorded CPU count.

use vstd::prelude::*;

use crate::errors::AffinityError;
use crate::selections::{
    hashset_to_mask, lemma_push_contains, lemma_push_to_set, lemma_strictly_sorted_unique,
    mask_bit, strictly_sorted,
};
use crate::render::{comma_join, comma_joined, dec_chars, usize_to_string};
use vstd::std_specs::cmp::PartialEqSpec;
use vstd::string::StringExecFns;

verus! {

/// The fixed prefix of every rendered selection set.
pub open spec fn display_title() -> Seq<char> {
    seq!['C', 'P', 'U', 's', ':', ' ']
}

/// The rendering of an empty selection.
pub open spec fn none_chars() -> Seq<char> {
    seq!['N', 'o', 'n', 'e']
}

/// The rendering of a full selection on a machine with `cpu_count` CPUs.
pub open spec fn all_chars(cpu_count: usize) -> Seq<char> {
    seq!['A', 'l', 'l', ' ', '('] + dec_chars(cpu_count as int) + seq![')']
}

/// The three-way display rule for a selection holding the indices `s` on a
/// machine with `cpu_count` CPUs: empty renders as "None", full (as many
/// indices as CPUs) as "All (N)", and anything else as the sorted
/// comma-joined list of indices, always behind the fixed title.
pub open spec fn display_chars(s: Seq<usize>, cpu_count: usize) -> Seq<char> {
    display_title() + if s.len() == 0 {
        none_chars()
    } else if s.len() == cpu_count {
        all_chars(cpu_count)
    } else {
        comma_joined(s)
    }
}

/// A set of selected CPU indices plus the machine's total CPU count.
#[derive(Debug, Clone)]
pub struct CpuSelections {
    inner: Vec<usize>,
    cpu_count: usize,
}

impl View for CpuSelections {
    type V = Seq<usize>;

    closed spec fn view(&self) -> Seq<usize> {
        self.inner@
    }
}

impl CpuSelections {
    /// Well-formed: the indices are held in strictly increasing order.
    pub open spec fn wf(self) -> bool {
        strictly_sorted(self@)
    }

    /// The mathematical model: the set of selected CPU indices.
    pub open spec fn sel(self) -> Set<usize> {
        self@.to_set()
    }

    /// The CPU count recorded when the set was built.
    pub closed spec fn spec_cpu_count(self) -> usize {
        self.cpu_count
    }

    /// The same selection model as `other`: the same indices in the same
    /// order and the same recorded CPU count.
    pub open spec fn eqv(self, other: Self) -> bool {
        self@ == other@ && self.spec_cpu_count() == other.spec_cpu_count()
    }

    /// Every selected index fits as a bit position of the native affinity
    /// mask.
    pub open spec fn fits_mask(self) -> bool {
        forall|k: int| 0 <= k < self@.len() ==> self@[k] < usize::BITS
    }

    /// An empty selection set for a machine with `cpu_count` CPUs.
    pub fn new(cpu_count: usize) -> (r: Self)
        ensures
            r.wf(),
            r.sel() == Set::<usize>::empty(),
            r.spec_cpu_count() == cpu_count,
    {
        let r = Self { inner: Vec::new(), cpu_count };
        proof {
            assert(r.sel() =~= Set::<usize>::empty());
        }
        r
    }

    /// A selection set holding exactly the caller-supplied indices, which
    /// may come from an observed hardware mask and so may repeat or exceed
    /// `cpu_count`.
    pub fn new_preselected(cpu_selections: Vec<usize>, cpu_count: usize) -> (r: Self)
        ensures
            r.wf(),
            r.sel() == cpu_selections@.to_set(),
            r.spec_cpu_count() == cpu_count,
    {
        let mut inner: Vec<usize> = Vec::new();
        let mut k: usize = 0;
        proof {
            assert(inner@.to_set() =~= cpu_selections@.take(0).to_set());
        }
        while k < cpu_selections.len()
            invariant
                k <= cpu_selections@.len(),
                strictly_sorted(inner@),
                inner@.to_set() == cpu_selections@.take(k as int).to_set(),
            decreases cpu_selections@.len() - k,
        {
            let x = cpu_selections[k];
            insert_sorted(&mut inner, x);
            proof {
                assert(cpu_selections@.take(k as int + 1) =~= cpu_selections@.take(
                    k as int).push(x));
                lemma_push_to_set(cpu_selections@.take(k as int), x);
                assert(inner@.to_set() == cpu_selections@.take(k as int + 1).to_set());
            }
            k = k + 1;
        }
        proof {
            assert(cpu_selections@.take(cpu_selections@.len() as int) =~= cpu_selections@);
        }
        Self { inner, cpu_count }
    }

    /// A selection set with every CPU of the machine selected.
    pub fn new_all_selected(cpu_count: usize) -> (r: Self)
        ensures
            r.wf(),
            forall|i: usize| r.sel().contains(i) <==> i < cpu_count,
            r.spec_cpu_count() == cpu_count,
    {
        let mut inner: Vec<usize> = Vec::new();
        let mut k: usize = 0;
        while k < cpu_count
            invariant
                k <= cpu_count,
                strictly_sorted(inner@),
                forall|j: int| 0 <= j < inner@.len() ==> inner@[j] < k,
                forall|i: usize| inner@.contains(i) <==> i < k,
            decreases cpu_count - k,
        {
            let ghost prev = inner@;
            inner.push(k);
            proof {
                assert forall|i: usize| #[trigger] inner@.contains(i) <==> (prev.contains(i) || i
                    == k) by {
                    lemma_push_contains(prev, k, i);
                }
            }
            k = k + 1;
        }
        Self { inner, cpu_count }
    }

    /// Whether `cpu_id` is currently selected.
    pub fn get_is_selected(&self, cpu_id: &usize) -> (r: bool)
        ensures
            r == self.sel().contains(*cpu_id),
    {
        let mut k: usize = 0;
        while k < self.inner.len()
            invariant
                k <= self.inner@.len(),
                forall|j: int| 0 <= j < k ==> self.inner@[j] != *cpu_id,
            decreases self.inner@.len() - k,
        {
            if self.inner[k] == *cpu_id {
                return true;
            }
            k = k + 1;
        }
        false
    }

    /// The CPU count recorded when the set was built.
    pub fn get_cpu_count(&self) -> (r: usize)
        ensures
            r == self.spec_cpu_count(),
    {
        self.cpu_count
    }

    /// Inserts or removes `cpu_id` according to `should_activate`. Fails
    /// exactly when `cpu_id` lies at or beyond the machine's CPU count;
    /// re-activating an already selected index (or deactivating an absent
    /// one) is a no-op, not an error.
    pub fn toggle_selection(&mut self, cpu_id: usize, should_activate: bool) -> (r: Result<
        (),
        AffinityError,
    >)
        requires
            old(self).wf(),
        ensures
            final(self).wf(),
            final(self).spec_cpu_count() == old(self).spec_cpu_count(),
            r is Ok <==> cpu_id < old(self).spec_cpu_count(),
            r is Ok ==> final(self).sel() == (if should_activate {
                old(self).sel().insert(cpu_id)
            } else {
                old(self).sel().remove(cpu_id)
            }),
            r is Err ==> *final(self) == *old(self) && (r matches Err(
                AffinityError::SelectionOutOfBounds { cpu_id: c, cpu_count: n },
            ) && c == cpu_id && n == old(self).spec_cpu_count()),
    {
        if cpu_id >= self.cpu_count {
            return Err(
                AffinityError::SelectionOutOfBounds { cpu_id, cpu_count: self.cpu_count },
            );
        }
        if should_activate {
            insert_sorted(&mut self.inner, cpu_id);
        } else {
            remove_sorted(&mut self.inner, cpu_id);
        }
        Ok(())
    }

    /// The native affinity bitmask of this selection: bit `i` is set iff
    /// CPU `i` is selected. Defined only while every selected index fits
    /// within the native word width.
    pub fn to_mask(&self) -> (mask: usize)
        requires
            self.fits_mask(),
        ensures
            forall|i: usize| #[trigger] mask_bit(mask, i) <==> self.sel().contains(i),
    {
        hashset_to_mask(&self.inner)
    }

    /// Whether every selected index fits as a bit position of the native
    /// affinity mask, so that `to_mask` is defined.
    pub fn fits_native_mask(&self) -> (r: bool)
        ensures
            r == self.fits_mask(),
    {
        let mut k: usize = 0;
        while k < self.inner.len()
            invariant
                k <= self.inner@.len(),
                forall|j: int| 0 <= j < k ==> self.inner@[j] < usize::BITS,
            decreases self.inner@.len() - k,
        {
            if self.inner[k] >= usize::BITS as usize {
                proof {
                    assert(!(self@[k as int] < usize::BITS));
                }
                return false;
            }
            k = k + 1;
        }
        true
    }

    /// Renders the selection for display, by the three-way rule: "None"
    /// when nothing is selected, "All (N)" when as many indices are
    /// selected as the machine has CPUs, and otherwise the sorted
    /// comma-joined list of indices.
    pub fn get_display_string(&self) -> (r: String)
        requires
            self.wf(),
        ensures
            r@ == display_chars(self@, self.spec_cpu_count()),
    {
        proof {
            reveal_strlit("CPUs: ");
        }
        let mut s = "CPUs: ".to_owned();
        proof {
            assert(s@ =~= display_title());
        }
        if self.inner.len() == 0 {
            proof {
                reveal_strlit("None");
            }
            s.append("None");
            proof {
                assert(s@ =~= display_title() + none_chars());
            }
        } else if self.inner.len() == self.cpu_count {
            proof {
                reveal_strlit("All (");
                reveal_strlit(")");
            }
            s.append("All (");
            let d = usize_to_string(self.cpu_count);
            s.append(d.as_str());
            s.append(")");
            proof {
                assert(s@ =~= display_title() + all_chars(self.spec_cpu_count()));
            }
        } else {
            let rest = comma_join(&self.inner);
            s.append(rest.as_str());
        }
        s
    }

    /// The fixed text shown while no selection set is loaded yet: the
    /// display title followed by the empty-selection rendering.
    pub fn get_nonselected_string() -> (r: String)
        ensures
            r@ == display_title() + none_chars(),
    {
        proof {
            reveal_strlit("CPUs: None");
        }
        let s = "CPUs: None".to_owned();
        proof {
            assert(s@ =~= display_title() + none_chars());
        }
        s
    }

    /// Whether this set selects the same CPUs as `other`, ignoring the
    /// recorded CPU counts.
    pub fn eq_selected(&self, other: &Self) -> (r: bool)
        requires
            self.wf(),
            other.wf(),
        ensures
            r == (self.sel() == other.sel()),
    {
        let r = vecs_equal(&self.inner, &other.inner);
        proof {
            if r {
                assert(self@ =~= other@);
                assert(self.sel() =~= other.sel());
            } else {
                if self.sel() == other.sel() {
                    lemma_strictly_sorted_unique(self@, other@);
                }
            }
        }
        r
    }
}

impl PartialEq for CpuSelections {
    /// Equality goes by the selected indices alone: the recorded CPU
    /// counts play no part.
    fn eq(&self, other: &Self) -> (r: bool) {
        let r = vecs_equal(&self.inner, &other.inner);
        proof {
            if r {
                assert(self@ =~= other@);
            }
        }
        r
    }
}

impl vstd::std_specs::cmp::PartialEqSpecImpl for CpuSelections {
    open spec fn obeys_eq_spec() -> bool {
        true
    }

    open spec fn eq_spec(&self, other: &Self) -> bool {
        self@ == other@
    }
}

/// Element-by-element equality of two vectors of CPU indices.
fn vecs_equal(a: &Vec<usize>, b: &Vec<usize>) -> (r: bool)
    ensures
        r == (a@ == b@),
{
    if a.len() != b.len() {
        return false;
    }
    let mut k: usize = 0;
    while k < a.len()
        invariant
            a@.len() == b@.len(),
            k <= a@.len(),
            forall|j: int| 0 <= j < k ==> a@[j] == b@[j],
        decreases a@.len() - k,
    {
        if a[k] != b[k] {
            return false;
        }
        k = k + 1;
    }
    proof {
        assert(a@ =~= b@);
    }
    true
}

/// Membership after a `Seq::insert` is membership before, plus the new
/// value.
proof fn lemma_seq_insert_contains(s: Seq<usize>, at: int, x: usize, y: usize)
    requires
        0 <= at <= s.len(),
    ensures
        s.insert(at, x).contains(y) <==> (s.contains(y) || y == x),
{
    let t = s.insert(at, x);
    assert(t[at] == x);
    if t.contains(y) {
        let j = choose|j: int| 0 <= j < t.len() && t[j] == y;
        if j < at {
            assert(s[j] == y);
        } else if j > at {
            assert(s[j - 1] == y);
        }
    }
    if s.contains(y) {
        let j = choose|j: int| 0 <= j < s.len() && s[j] == y;
        if j < at {
            assert(t[j] == y);
        } else {
            assert(t[j + 1] == y);
        }
    }
}

/// Membership after a `Seq::remove` on a strictly sorted sequence is
/// membership before, minus the removed value.
proof fn lemma_seq_remove_contains(s: Seq<usize>, at: int, y: usize)
    requires
        strictly_sorted(s),
        0 <= at < s.len(),
    ensures
        s.remove(at).contains(y) <==> (s.contains(y) && y != s[at]),
{
    let t = s.remove(at);
    if t.contains(y) {
        let j = choose|j: int| 0 <= j < t.len() && t[j] == y;
        if j < at {
            assert(s[j] == y);
        } else {
            assert(s[j + 1] == y);
        }
    }
    if s.contains(y) && y != s[at] {
        let j = choose|j: int| 0 <= j < s.len() && s[j] == y;
        if j < at {
            assert(t[j] == y);
        } else {
            assert(j > at);
            assert(t[j - 1] == y);
        }
    }
}

/// Inserts `x` into a strictly sorted vector, keeping it strictly sorted;
/// the set of values gains exactly `x`.
fn insert_sorted(v: &mut Vec<usize>, x: usize)
    requires
        strictly_sorted(old(v)@),
    ensures
        strictly_sorted(final(v)@),
        final(v)@.to_set() == old(v)@.to_set().insert(x),
{
    let mut k: usize = 0;
    while k < v.len() && v[k] < x
        invariant
            strictly_sorted(v@),
            v@ == old(v)@,
            k <= v@.len(),
            forall|j: int| 0 <= j < k ==> v@[j] < x,
        decreases v@.len() - k,
    {
        k = k + 1;
    }
    if k < v.len() && v[k] == x {
        proof {
            assert(v@.contains(x));
            assert(final(v)@.to_set() =~= old(v)@.to_set().insert(x));
        }
        return;
    }
    proof {
        assert(forall|j: int| k <= j < v@.len() ==> v@[j] > x);
    }
    let ghost prev = v@;
    v.insert(k, x);
    proof {
        assert(v@.to_set() =~= prev.to_set().insert(x)) by {
            assert forall|y: usize| #[trigger] v@.to_set().contains(y)
                <==> prev.to_set().insert(x).contains(y) by {
                lemma_seq_insert_contains(prev, k as int, x, y);
            }
        }
        assert forall|i: int, j: int| 0 <= i < j < v@.len() implies v@[i] < v@[j] by {
            assert(v@[k as int] == x);
            if i < k {
                assert(v@[i] == prev[i]);
            } else if i > k {
                assert(v@[i] == prev[i - 1]);
            }
            if j < k {
                assert(v@[j] == prev[j]);
            } else if j > k {
                assert(v@[j] == prev[j - 1]);
            }
        }
    }
}

/// Removes `x` from a strictly sorted vector if present, keeping it
/// strictly sorted; the set of values loses exactly `x`.
fn remove_sorted(v: &mut Vec<usize>, x: usize)
    requires
        strictly_sorted(old(v)@),
    ensures
        strictly_sorted(final(v)@),
        final(v)@.to_set() == old(v)@.to_set().remove(x),
{
    let mut k: usize = 0;
    while k < v.len()
        invariant
            strictly_sorted(v@),
            v@ == old(v)@,
            k <= v@.len(),
            forall|j: int| 0 <= j < k ==> v@[j] != x,
        decreases v@.len() - k,
    {
        if v[k] == x {
            let ghost prev = v@;
            let ghost at = k as int;
            v.remove(k);
            proof {
                assert(v@.to_set() =~= prev.to_set().remove(x)) by {
                    assert forall|y: usize| #[trigger] v@.to_set().contains(y)
                        <==> prev.to_set().remove(x).contains(y) by {
                        lemma_seq_remove_contains(prev, at, y);
                    }
                }
                assert forall|i: int, j: int| 0 <= i < j < v@.len() implies v@[i] < v@[j] by {
                    if i >= at {
                        assert(v@[i] == prev[i + 1]);
                    } else {
                        assert(v@[i] == prev[i]);
                    }
                    if j >= at {
                        assert(v@[j] == prev[j + 1]);
                    } else {
                        assert(v@[j] == prev[j]);
                    }
                }
            }
            return;
        }
        k = k + 1;
    }
    proof {
        assert(!v@.to_set().contains(x));
        assert(final(v)@.to_set() =~= old(v)@.to_set().remove(x));
    }
}

/// The default target process when nothing is persisted yet: the simulator
/// executable this tool manages out of the box.
pub const DEFAULT_SIMULATOR_PROCESS: &'static str = "iRacingSim64DX11.exe";

/// Whether a persisted CPU index row can stand as a bit position of the
/// platform's native affinity mask.
pub open spec fn row_in_range(value: i64) -> bool {
    0 <= value < usize::BITS
}

/// The persisted pairing of a target process name with a CPU selection
/// set.
#[derive(Debug, Clone)]
pub struct PersistentStore {
    pub process: String,
    pub selections: CpuSelections,
}

impl PersistentStore {
    /// Builds the configuration from the persisted rows: the optional
    /// process-name row and the selected-CPU index rows, read on a machine
    /// with `cpu_count` CPUs.
    ///
    /// With no process row persisted, the default is synthesized: the
    /// default process name with every CPU selected. With a process row,
    /// every index row must stand as a bit position of the native affinity
    /// mask; the first that cannot is reported as malformed.
    #[verifier::loop_isolation(false)]
    pub fn from_rows(process_row: Option<String>, cpu_rows: Vec<i64>, cpu_count: usize) -> (r:
        Result<PersistentStore, AffinityError>)
        ensures
            r is Ok ==> r->Ok_0.selections.wf() && r->Ok_0.selections.spec_cpu_count()
                == cpu_count,
            process_row is None ==> r is Ok && r->Ok_0.process@ == DEFAULT_SIMULATOR_PROCESS@
                && (forall|i: usize| r->Ok_0.selections.sel().contains(i) <==> i < cpu_count)
                && (cpu_count <= usize::BITS ==> r->Ok_0.selections.fits_mask()),
            process_row matches Some(name) ==> {
                &&& r is Ok <==> (forall|j: int| 0 <= j < cpu_rows@.len() ==> row_in_range(
                    cpu_rows@[j],
                ))
                &&& r is Ok ==> r->Ok_0.process == name && r->Ok_0.selections.fits_mask() && (
                forall|i: usize|
                    r->Ok_0.selections.sel().contains(i) <==> (i < usize::BITS
                        && cpu_rows@.contains(i as i64)))
                &&& r is Err ==> (r matches Err(AffinityError::MalformedCpuIndex { value })
                    && exists|j: int|
                    {
                        &&& 0 <= j < cpu_rows@.len()
                        &&& cpu_rows@[j] == value
                        &&& !row_in_range(value)
                        &&& forall|j2: int| 0 <= j2 < j ==> row_in_range(#[trigger] cpu_rows@[j2])
                    })
            },
    {
        match process_row {
            None => {
                let selections = CpuSelections::new_all_selected(cpu_count);
                proof {
                    if cpu_count <= usize::BITS {
                        assert forall|k: int| 0 <= k < selections@.len() implies selections@[k]
                            < usize::BITS by {
                            assert(selections.sel().contains(selections@[k]));
                        }
                    }
                }
                Ok(PersistentStore { process: DEFAULT_SIMULATOR_PROCESS.to_owned(), selections })
            },
            Some(name) => {
                let mut indices: Vec<usize> = Vec::new();
                let mut k: usize = 0;
                while k < cpu_rows.len()
                    invariant
                        k <= cpu_rows@.len(),
                        indices@.len() == k,
                        forall|j: int| 0 <= j < k ==> row_in_range(#[trigger] cpu_rows@[j]),
                        forall|j: int| 0 <= j < k ==> indices@[j] == cpu_rows@[j] as usize,
                        forall|j: int| 0 <= j < k ==> indices@[j] < usize::BITS,
                    decreases cpu_rows@.len() - k,
                {
                    let row = cpu_rows[k];
                    if row < 0 || row >= usize::BITS as i64 {
                        return Err(AffinityError::MalformedCpuIndex { value: row });
                    }
                    indices.push(row as usize);
                    k = k + 1;
                }
                let ghost index_seq = indices@;
                let selections = CpuSelections::new_preselected(indices, cpu_count);
                proof {
                    assert forall|i: usize| selections.sel().contains(i) <==> (i < usize::BITS
                        && cpu_rows@.contains(i as i64)) by {
                        if index_seq.to_set().contains(i) {
                            let j = choose|j: int| 0 <= j < index_seq.len() && index_seq[j] == i;
                            assert(index_seq[j] < usize::BITS);
                            assert(cpu_rows@[j] == i as i64);
                        }
                        if i < usize::BITS && cpu_rows@.contains(i as i64) {
                            let j = choose|j: int|
                                0 <= j < cpu_rows@.len() && cpu_rows@[j] == i as i64;
                            assert(index_seq[j] == i);
                        }
                    }
                    assert forall|k2: int| 0 <= k2 < selections@.len() implies selections@[k2]
                        < usize::BITS by {
                        assert(selections.sel().contains(selections@[k2]));
                    }
                }
                Ok(PersistentStore { process: name, selections })
            },
        }
    }

    /// The full path of the configuration database file: the per-user
    /// configuration directory, if one can be determined, with the fixed
    /// database file name appended.
    pub fn get_configuration_file() -> (r: Result<String, AffinityError>)
        ensures
            r matches Ok(p) ==> exists|dir: Seq<char>|
                p@ == dir + seq!['/'] + configuration_filename(),
            r is Err ==> r matches Err(AffinityError::MissingConfigurationDirectory),
    {
        match get_configuration_directory() {
            Ok(dir) => {
                let ghost dir_view = dir@;
                let p = configuration_file_in(dir);
                proof {
                    assert(p@ == dir_view + seq!['/'] + configuration_filename());
                }
                Ok(p)
            },
            Err(e) => Err(e),
        }
    }

    /// The selected CPU indices in the persisted row format, in increasing
    /// order. Fails on the first selected index too large for a row.
    pub fn save_rows(&self) -> (r: Result<Vec<u32>, AffinityError>)
        ensures
            r is Ok <==> (forall|j: int|
                0 <= j < self.selections@.len() ==> #[trigger] self.selections@[j] <= u32::MAX),
            r matches Ok(v) ==> v@.len() == self.selections@.len() && (forall|j: int|
                0 <= j < v@.len() ==> v@[j] == #[trigger] self.selections@[j] as u32),
            r is Err ==> (r matches Err(AffinityError::SelectionTooLarge { cpu_id }) && exists|
                j: int,
            |
                {
                    &&& 0 <= j < self.selections@.len()
                    &&& self.selections@[j] == cpu_id
                    &&& cpu_id > u32::MAX
                    &&& forall|j2: int|
                        0 <= j2 < j ==> #[trigger] self.selections@[j2] <= u32::MAX
                }),
    {
        let source = &self.selections.inner;
        let mut rows: Vec<u32> = Vec::new();
        let mut k: usize = 0;
        while k < source.len()
            invariant
                source@ == self.selections@,
                k <= source@.len(),
                rows@.len() == k,
                forall|j: int| 0 <= j < k ==> #[trigger] source@[j] <= u32::MAX,
                forall|j: int| 0 <= j < k ==> rows@[j] == #[trigger] source@[j] as u32,
            decreases source@.len() - k,
        {
            let value = source[k];
            if value > u32::MAX as usize {
                return Err(AffinityError::SelectionTooLarge { cpu_id: value });
            }
            rows.push(value as u32);
            k = k + 1;
        }
        Ok(rows)
    }
}

/// The name of the configuration database file.
pub open spec fn configuration_filename() -> Seq<char> {
    seq!['s', 't', 'o', 'r', 'e', '.', 's', 'q', 'l', 'i', 't', 'e']
}

/// Appends the fixed configuration database file name to a directory path.
pub fn configuration_file_in(dir: String) -> (r: String)
    ensures
        r@ == dir@ + seq!['/'] + configuration_filename(),
{
    let ghost dir_view = dir@;
    let mut s = dir;
    proof {
        reveal_strlit("/store.sqlite");
    }
    s.append("/store.sqlite");
    proof {
        assert(s@ =~= dir_view + seq!['/'] + configuration_filename());
    }
    s
}

/// Relies on directories::ProjectDirs::from and config_local_dir: the
/// platform's per-user local configuration directory for this project, if
/// one can be determined from the environment.
#[verifier::external_body]
fn config_directory() -> (r: Option<String>) {
    directories::ProjectDirs::from("com", "jxo", "ir_affinity")
        .map(|d| d.config_local_dir().to_string_lossy().into_owned())
}

/// The per-user directory holding this tool's configuration, or the error
/// that no such directory can be determined. What the directory is depends
/// on the platform and the environment.
pub fn get_configuration_directory() -> (r: Result<String, AffinityError>)
    ensures
        r is Err ==> r matches Err(AffinityError::MissingConfigurationDirectory),
{
    match config_directory() {
        Some(dir) => Ok(dir),
        None => Err(AffinityError::MissingConfigurationDirectory),
    }
}

/// Equality of CPU selection sets ignores the recorded CPU count: two
/// well-formed selection sets selecting the same CPUs compare equal, and
/// equal ones select the same CPUs, whatever their counts.
pub proof fn lemma_equality_ignores_capacity(a: CpuSelections, b: CpuSelections)
    requires
        a.wf(),
        b.wf(),
    ensures
        a.eq_spec(&b) <==> a.sel() == b.sel(),
{
    if a.sel() == b.sel() {
        lemma_strictly_sorted_unique(a@, b@);
    }
    if a.eq_spec(&b) {
        assert(a.sel() =~= b.sel());
    }
}

/// The bitwise round trip at the selection-set level: turning a selection
/// set whose indices fit the native word into its affinity mask
/// (`to_mask`) and building a new set from that mask (`mask_to_hashset`
/// fed to `new_preselected`) selects exactly the original CPUs, whatever
/// CPU count the new set records.
///
/// The hypotheses are exactly what `to_mask` ensures of `mask` and what
/// the rebuild ensures of `t`.
pub proof fn lemma_selection_mask_round_trip(s: CpuSelections, mask: usize, t: CpuSelections)
    requires
        s.wf(),
        s.fits_mask(),
        forall|i: usize| #[trigger] mask_bit(mask, i) <==> s.sel().contains(i),
        t.sel() == crate::selections::mask_set(mask),
    ensures
        t.sel() == s.sel(),
{
    assert forall|i: usize| s.sel().contains(i) implies t.sel().contains(i) by {
        let k = choose|k: int| 0 <= k < s@.len() && s@[k] == i;
        assert(s@[k] < usize::BITS);
        assert(mask_bit(mask, i));
    }
    assert forall|i: usize| t.sel().contains(i) implies s.sel().contains(i) by {
        assert(mask_bit(mask, i));
    }
    assert(t.sel() =~= s.sel());
}

/// Toggling a selection is idempotent: by `toggle_selection`'s contract a
/// successful toggle maps the selected set through a set insert or a set
/// remove, and repeating either with the same index leaves the set where
/// the first application put it.
pub proof fn lemma_toggle_idempotent(sel: Set<usize>, cpu_id: usize)
    ensures
        sel.insert(cpu_id).insert(cpu_id) == sel.insert(cpu_id),
        sel.remove(cpu_id).remove(cpu_id) == sel.remove(cpu_id),
{
    assert(sel.insert(cpu_id).insert(cpu_id) =~= sel.insert(cpu_id));
    assert(sel.remove(cpu_id).remove(cpu_id) =~= sel.remove(cpu_id));
}

} // verus!
