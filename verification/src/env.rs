//! The environment: a mapping from names to dense arrays, owned by the
//! aggregator and handed as a snapshot to the interpreter on every run.
//! Insertion is last-write-wins per name.

use crate::tensor::DenseArray;
use crate::tensor::TensorModel;
use vstd::prelude::*;

verus! {

/// A named array value, as a row or a preset proposes it.
pub struct NamedValue {
    pub name: String,
    pub value: DenseArray,
}

/// The mapping that a list of named values denotes; later entries
/// overwrite earlier ones of the same name.
pub open spec fn env_map(entries: Seq<NamedValue>) -> Map<Seq<char>, TensorModel>
    decreases entries.len(),
{
    if entries.len() == 0 {
        Map::empty()
    } else {
        env_map(entries.drop_last()).insert(entries.last().name@, entries.last().value@)
    }
}

/// The environment mapping, stored as a list of entries with pairwise
/// distinct names.
pub struct Environment {
    pub entries: Vec<NamedValue>,
}

impl View for Environment {
    type V = Map<Seq<char>, TensorModel>;

    open spec fn view(&self) -> Map<Seq<char>, TensorModel> {
        env_map(self.entries@)
    }
}

impl Environment {
    /// Names are pairwise distinct and every stored array matches its
    /// shape.
    pub open spec fn wf(&self) -> bool {
        &&& forall|i: int, j: int|
            0 <= i < j < self.entries@.len() ==> self.entries@[i].name@ != self.entries@[j].name@
        &&& forall|i: int| 0 <= i < self.entries@.len() ==> (#[trigger] self.entries@[i]).value.wf()
    }

    /// The empty environment.
    pub fn new() -> (r: Environment)
        ensures
            r@ == Map::<Seq<char>, TensorModel>::empty(),
            r.wf(),
            r.entries@.len() == 0,
    {
        Environment { entries: Vec::new() }
    }

    /// Number of distinct names in the environment.
    pub fn len(&self) -> (r: usize)
        ensures
            r == self.entries@.len(),
    {
        self.entries.len()
    }

    /// Insert or overwrite the entry for `nv.name`.
    pub fn insert(&mut self, nv: NamedValue)
        requires
            old(self).wf(),
            nv.value.wf(),
        ensures
            final(self).wf(),
            final(self)@ == old(self)@.insert(nv.name@, nv.value@),
            final(self).entries@.len() <= old(self).entries@.len() + 1,
    {
        let n = self.entries.len();
        let mut i: usize = 0;
        while i < n
            invariant
                i <= n,
                n == self.entries@.len(),
                self == old(self),
                old(self).wf(),
                nv.value.wf(),
                forall|k: int| 0 <= k < i ==> self.entries@[k].name@ != nv.name@,
            decreases n - i,
        {
            if str_eq(self.entries[i].name.as_str(), nv.name.as_str()) {
                proof {
                    lemma_env_map_update(self.entries@, i as int, nv);
                }
                self.entries.set(i, nv);
                proof {
                    assert forall|a: int, b: int|
                        0 <= a < b < self.entries@.len() implies self.entries@[a].name@
                        != self.entries@[b].name@ by {
                        assert(old(self).entries@[a].name@ != old(self).entries@[b].name@);
                    }
                }
                return ;
            }
            i = i + 1;
        }
        self.entries.push(nv);
        proof {
            assert(self.entries@.drop_last() =~= old(self).entries@);
            assert(self.entries@.last() == nv);
        }
    }

    /// Look a name up.
    pub fn get(&self, name: &str) -> (r: Option<&DenseArray>)
        requires
            self.wf(),
        ensures
            match r {
                Some(a) => self@.contains_key(name@) && a@ == self@[name@] && a.wf(),
                None => !self@.contains_key(name@),
            },
    {
        proof {
            lemma_env_map_props(self.entries@);
        }
        let n = self.entries.len();
        let mut i: usize = 0;
        while i < n
            invariant
                i <= n,
                n == self.entries@.len(),
                self.wf(),
                forall|k: int| 0 <= k < i ==> self.entries@[k].name@ != name@,
            decreases n - i,
        {
            if str_eq(self.entries[i].name.as_str(), name) {
                proof {
                    lemma_env_map_props(self.entries@);
                }
                return Some(&self.entries[i].value);
            }
            i = i + 1;
        }
        proof {
            lemma_env_map_props(self.entries@);
            if self@.contains_key(name@) {
                let w = choose|w: int|
                    0 <= w < self.entries@.len() && self.entries@[w].name@ == name@;
                assert(false);
            }
        }
        None
    }

    /// A deep copy with the same mapping.
    pub fn duplicate(&self) -> (r: Environment)
        requires
            self.wf(),
        ensures
            r@ == self@,
            r.wf(),
            r.entries@.len() == self.entries@.len(),
    {
        let n = self.entries.len();
        let mut entries: Vec<NamedValue> = Vec::new();
        let mut i: usize = 0;
        while i < n
            invariant
                i <= n,
                n == self.entries@.len(),
                self.wf(),
                entries@.len() == i,
                forall|k: int|
                    0 <= k < i ==> #[trigger] entries@[k].name@ == self.entries@[k].name@
                        && entries@[k].value@ == self.entries@[k].value@,
            decreases n - i,
        {
            let name = self.entries[i].name.clone();
            let value = self.entries[i].value.duplicate();
            entries.push(NamedValue { name, value });
            i = i + 1;
        }
        let r = Environment { entries };
        proof {
            lemma_env_map_congruent(r.entries@, self.entries@);
            assert forall|a: int| 0 <= a < r.entries@.len() implies (
            #[trigger] r.entries@[a]).value.wf() by {
                assert(r.entries@[a].name@ == self.entries@[a].name@);
                assert(r.entries@[a].value@ == self.entries@[a].value@);
                assert(self.entries@[a].value.wf());
            }
        }
        r
    }
}

/// Two entry lists with equal names and values denote the same mapping.
proof fn lemma_env_map_congruent(a: Seq<NamedValue>, b: Seq<NamedValue>)
    requires
        a.len() == b.len(),
        forall|i: int|
            0 <= i < a.len() ==> #[trigger] a[i].name@ == b[i].name@ && a[i].value@ == b[i].value@,
    ensures
        env_map(a) == env_map(b),
    decreases a.len(),
{
    if a.len() > 0 {
        assert(a.drop_last().len() == b.drop_last().len());
        lemma_env_map_congruent(a.drop_last(), b.drop_last());
        assert(a.last().name@ == b.last().name@);
        assert(a.last().value@ == b.last().value@);
    }
}

/// Overwriting the entry that holds a name denotes insertion into the
/// mapping.
proof fn lemma_env_map_update(entries: Seq<NamedValue>, idx: int, nv: NamedValue)
    requires
        0 <= idx < entries.len(),
        entries[idx].name@ == nv.name@,
        forall|i: int, j: int| 0 <= i < j < entries.len() ==> entries[i].name@ != entries[j].name@,
    ensures
        env_map(entries.update(idx, nv)) == env_map(entries).insert(nv.name@, nv.value@),
    decreases entries.len(),
{
    let u = entries.update(idx, nv);
    if idx == entries.len() - 1 {
        assert(u.drop_last() =~= entries.drop_last());
        assert(u.last() == nv);
        assert(env_map(u) == env_map(entries.drop_last()).insert(nv.name@, nv.value@));
        assert(env_map(entries.drop_last()).insert(nv.name@, nv.value@) =~= env_map(
            entries.drop_last(),
        ).insert(entries.last().name@, entries.last().value@).insert(nv.name@, nv.value@));
    } else {
        assert(u.drop_last() =~= entries.drop_last().update(idx, nv));
        assert(u.last() == entries.last());
        lemma_env_map_update(entries.drop_last(), idx, nv);
        assert(entries.last().name@ != nv.name@);
        assert(env_map(entries.drop_last()).insert(nv.name@, nv.value@).insert(
            entries.last().name@,
            entries.last().value@,
        ) =~= env_map(entries.drop_last()).insert(entries.last().name@, entries.last().value@)
            .insert(nv.name@, nv.value@));
    }
}

/// With distinct names, every entry is present in the mapping with its
/// own value, and every key of the mapping comes from some entry.
proof fn lemma_env_map_props(entries: Seq<NamedValue>)
    requires
        forall|i: int, j: int| 0 <= i < j < entries.len() ==> entries[i].name@ != entries[j].name@,
    ensures
        forall|i: int|
            0 <= i < entries.len() ==> env_map(entries).contains_key(
                (#[trigger] entries[i]).name@,
            ) && env_map(entries)[entries[i].name@] == entries[i].value@,
        forall|k: Seq<char>|
            #[trigger] env_map(entries).contains_key(k) ==> exists|i: int|
                0 <= i < entries.len() && entries[i].name@ == k,
    decreases entries.len(),
{
    if entries.len() > 0 {
        lemma_env_map_props(entries.drop_last());
        let m = env_map(entries);
        assert forall|i: int| 0 <= i < entries.len() implies m.contains_key(
            (#[trigger] entries[i]).name@,
        ) && m[entries[i].name@] == entries[i].value@ by {
            if i < entries.len() - 1 {
                assert(entries.drop_last()[i] == entries[i]);
                assert(entries[i].name@ != entries.last().name@);
            }
        }
        assert forall|k: Seq<char>| #[trigger] m.contains_key(k) implies exists|i: int|
            0 <= i < entries.len() && entries[i].name@ == k by {
            if k != entries.last().name@ {
                assert(env_map(entries.drop_last()).contains_key(k));
                let w = choose|w: int|
                    0 <= w < entries.drop_last().len() && entries.drop_last()[w].name@ == k;
                assert(entries[w].name@ == k);
            } else {
                assert(entries[entries.len() - 1].name@ == k);
            }
        }
    }
}

/// Character-for-character string comparison.
pub fn str_eq(a: &str, b: &str) -> (r: bool)
    ensures
        r == (a@ == b@),
{
    let n = a.unicode_len();
    let m = b.unicode_len();
    if n != m {
        return false;
    }
    let mut i: usize = 0;
    while i < n
        invariant
            i <= n,
            n == a@.len(),
            n == b@.len(),
            forall|k: int| 0 <= k < i ==> a@[k] == b@[k],
        decreases n - i,
    {
        if a.get_char(i) != b.get_char(i) {
            return false;
        }
        i = i + 1;
    }
    proof {
        assert(a@ =~= b@);
    }
    true
}

/// Inserting every entry of a list, first to last.
pub open spec fn insert_all(
    m: Map<Seq<char>, TensorModel>,
    entries: Seq<NamedValue>,
) -> Map<Seq<char>, TensorModel>
    decreases entries.len(),
{
    if entries.len() == 0 {
        m
    } else {
        insert_all(m, entries.drop_last()).insert(entries.last().name@, entries.last().value@)
    }
}

/// The owner of the canonical environment for a session. Rows and presets
/// propose entries; only the aggregator writes the mapping.
pub struct Aggregator {
    pub env: Environment,
}

impl Aggregator {
    /// Start with an empty environment.
    pub fn new() -> (r: Aggregator)
        ensures
            r.env@ == Map::<Seq<char>, TensorModel>::empty(),
            r.env.wf(),
            r.env.entries@.len() == 0,
    {
        Aggregator { env: Environment::new() }
    }

    /// A row reported a new value: insert or overwrite its entry.
    pub fn on_row_update(&mut self, nv: NamedValue)
        requires
            old(self).env.wf(),
            nv.value.wf(),
        ensures
            final(self).env.wf(),
            final(self).env@ == old(self).env@.insert(nv.name@, nv.value@),
    {
        self.env.insert(nv);
    }

    /// A preset was selected: insert all of its pairs, in order. Entries
    /// contributed before stay unless overwritten.
    pub fn apply_preset(&mut self, entries: &Vec<NamedValue>)
        requires
            old(self).env.wf(),
            forall|i: int| 0 <= i < entries@.len() ==> (#[trigger] entries@[i]).value.wf(),
        ensures
            final(self).env.wf(),
            final(self).env@ == insert_all(old(self).env@, entries@),
    {
        let n = entries.len();
        let mut i: usize = 0;
        while i < n
            invariant
                i <= n,
                n == entries@.len(),
                self.env.wf(),
                forall|k: int| 0 <= k < n ==> (#[trigger] entries@[k]).value.wf(),
                self.env@ == insert_all(old(self).env@, entries@.take(i as int)),
            decreases n - i,
    {
            let name = entries[i].name.clone();
            let value = entries[i].value.duplicate();
            self.env.insert(NamedValue { name, value });
            i = i + 1;
            proof {
                assert(entries@.take(i as int).drop_last() =~= entries@.take(i - 1));
                assert(entries@.take(i as int).last() == entries@[i - 1]);
            }
        }
        proof {
            assert(entries@.take(n as int) =~= entries@);
        }
    }

    /// The mapping as it stands, for the run action.
    pub fn snapshot(&self) -> (r: Environment)
        requires
            self.env.wf(),
        ensures
            r@ == self.env@,
            r.wf(),
    {
        self.env.duplicate()
    }

    /// Replace the mapping wholesale, as when a preset is deselected and
    /// a saved environment is restored.
    pub fn reset(&mut self, base: Environment)
        ensures
            final(self).env == base,
    {
        self.env = base;
    }
}

} // verus!
