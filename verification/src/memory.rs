//! The machine memory: a mapping from values to values.
//!
//! The memory is held as an association list whose keys are pairwise
//! distinct under the mathematical reading of values, so its view is a
//! `Map<AbsValue, AbsValue>`.  A missing key reads as null.

use vstd::prelude::*;

use crate::ast::{Value, AbsValue, vabs, value_wf, value_eq, value_clone};

verus! {

pub struct Memory {
    pub entries: Vec<(Value, Value)>,
}

/// The mapping denoted by an entry list; later entries win.
pub open spec fn entries_map(s: Seq<(Value, Value)>) -> Map<AbsValue, AbsValue>
    decreases s.len(),
{
    if s.len() == 0 {
        Map::empty()
    } else {
        entries_map(s.drop_last()).insert(vabs(s.last().0), vabs(s.last().1))
    }
}

impl View for Memory {
    type V = Map<AbsValue, AbsValue>;

    open spec fn view(&self) -> Map<AbsValue, AbsValue> {
        entries_map(self.entries@)
    }
}

pub open spec fn keys_distinct(s: Seq<(Value, Value)>) -> bool {
    forall|i: int, j: int| 0 <= i < j < s.len() ==> vabs(s[i].0) != vabs(s[j].0)
}

pub open spec fn entries_wf(s: Seq<(Value, Value)>) -> bool {
    forall|i: int| 0 <= i < s.len() ==> value_wf(#[trigger] s[i].0) && value_wf(s[i].1)
}

/// Well-formed memory: keys are distinct readings and every stored value
/// keeps the compression invariant.
pub open spec fn mem_wf(m: Memory) -> bool {
    keys_distinct(m.entries@) && entries_wf(m.entries@)
}

proof fn lemma_wf_entries_update(s: Seq<(Value, Value)>, i: int, kv: (Value, Value))
    requires
        0 <= i < s.len(),
        keys_distinct(s),
        entries_wf(s),
        value_wf(kv.0),
        value_wf(kv.1),
        vabs(s[i].0) == vabs(kv.0),
    ensures
        keys_distinct(s.update(i, kv)),
        entries_wf(s.update(i, kv)),
{
    let t = s.update(i, kv);
    assert forall|p: int, q: int| 0 <= p < q < t.len() implies vabs(t[p].0) != vabs(t[q].0) by {
        assert(vabs(t[p].0) == vabs(s[p].0));
        assert(vabs(t[q].0) == vabs(s[q].0));
    }
    assert forall|j: int| 0 <= j < t.len() implies value_wf(#[trigger] t[j].0) && value_wf(
        t[j].1,
    ) by {
        if j != i {
            assert(t[j] == s[j]);
        }
    }
}

/// Reading a mapping totally: a missing key reads as null.
pub open spec fn mget(mm: Map<AbsValue, AbsValue>, k: AbsValue) -> AbsValue {
    if mm.dom().contains(k) {
        mm[k]
    } else {
        AbsValue::Null
    }
}

proof fn lemma_entries_found(s: Seq<(Value, Value)>, i: int)
    requires
        0 <= i < s.len(),
        forall|p: int, q: int| 0 <= p < q < s.len() ==> vabs(s[p].0) != vabs(s[q].0),
    ensures
        entries_map(s).dom().contains(vabs(s[i].0)),
        entries_map(s)[vabs(s[i].0)] == vabs(s[i].1),
    decreases s.len(),
{
    if i == s.len() - 1 {
    } else {
        lemma_entries_found(s.drop_last(), i);
        assert(vabs(s[i].0) != vabs(s.last().0));
    }
}

proof fn lemma_entries_absent(s: Seq<(Value, Value)>, k: AbsValue)
    requires
        forall|i: int| 0 <= i < s.len() ==> vabs(#[trigger] s[i].0) != k,
    ensures
        !entries_map(s).dom().contains(k),
    decreases s.len(),
{
    if s.len() > 0 {
        lemma_entries_absent(s.drop_last(), k);
    }
}

proof fn lemma_entries_update(s: Seq<(Value, Value)>, i: int, kv: (Value, Value))
    requires
        0 <= i < s.len(),
        forall|p: int, q: int| 0 <= p < q < s.len() ==> vabs(s[p].0) != vabs(s[q].0),
        vabs(s[i].0) == vabs(kv.0),
    ensures
        entries_map(s.update(i, kv)) == entries_map(s).insert(vabs(kv.0), vabs(kv.1)),
    decreases s.len(),
{
    let t = s.update(i, kv);
    if i == s.len() - 1 {
        assert(t.drop_last() =~= s.drop_last());
        assert(entries_map(t) =~= entries_map(s).insert(vabs(kv.0), vabs(kv.1)));
    } else {
        assert(t.drop_last() =~= s.drop_last().update(i, kv));
        lemma_entries_update(s.drop_last(), i, kv);
        assert(t.last() == s.last());
        assert(vabs(kv.0) != vabs(s.last().0));
        assert(entries_map(t) =~= entries_map(s).insert(vabs(kv.0), vabs(kv.1)));
    }
}

impl Memory {
    pub fn new() -> (r: Memory)
        ensures
            mem_wf(r),
            r@ == Map::<AbsValue, AbsValue>::empty(),
    {
        Memory { entries: Vec::new() }
    }

    /// Look a key up; a missing key reads as null.
    pub fn lookup(&self, k: &Value) -> (r: Value)
        requires
            mem_wf(*self),
        ensures
            vabs(r) == mget(self@, vabs(*k)),
            value_wf(r),
    {
        let n = self.entries.len();
        let mut i: usize = 0;
        while i < n
            invariant
                n == self.entries@.len(),
                i <= n,
                mem_wf(*self),
                forall|j: int| 0 <= j < i ==> vabs(#[trigger] self.entries@[j].0) != vabs(*k),
            decreases n - i,
        {
            if value_eq(&self.entries[i].0, k) {
                proof {
                    lemma_entries_found(self.entries@, i as int);
                }
                return value_clone(&self.entries[i].1);
            }
            i += 1;
        }
        proof {
            lemma_entries_absent(self.entries@, vabs(*k));
        }
        Value::Null
    }

    /// Whether a key is present.
    pub fn contains(&self, k: &Value) -> (r: bool)
        requires
            mem_wf(*self),
        ensures
            r == self@.dom().contains(vabs(*k)),
    {
        let n = self.entries.len();
        let mut i: usize = 0;
        while i < n
            invariant
                n == self.entries@.len(),
                i <= n,
                mem_wf(*self),
                forall|j: int| 0 <= j < i ==> vabs(#[trigger] self.entries@[j].0) != vabs(*k),
            decreases n - i,
        {
            if value_eq(&self.entries[i].0, k) {
                proof {
                    lemma_entries_found(self.entries@, i as int);
                }
                return true;
            }
            i += 1;
        }
        proof {
            lemma_entries_absent(self.entries@, vabs(*k));
        }
        false
    }

    /// Store a value at a key, overwriting any earlier entry.
    pub fn store(&mut self, k: Value, v: Value)
        requires
            mem_wf(*old(self)),
            value_wf(k),
            value_wf(v),
        ensures
            mem_wf(*final(self)),
            final(self)@ == old(self)@.insert(vabs(k), vabs(v)),
    {
        let n = self.entries.len();
        let mut i: usize = 0;
        while i < n
            invariant
                n == self.entries@.len(),
                i <= n,
                mem_wf(*self),
                self == old(self),
                value_wf(k),
                value_wf(v),
                forall|j: int| 0 <= j < i ==> vabs(#[trigger] self.entries@[j].0) != vabs(k),
            decreases n - i,
        {
            if value_eq(&self.entries[i].0, &k) {
                proof {
                    lemma_entries_update(self.entries@, i as int, (k, v));
                    lemma_wf_entries_update(self.entries@, i as int, (k, v));
                }
                self.entries.set(i, (k, v));
                return;
            }
            i += 1;
        }
        self.entries.push((k, v));
        proof {
            assert(self.entries@.drop_last() =~= old(self).entries@);
        }
    }
}

} // verus!
