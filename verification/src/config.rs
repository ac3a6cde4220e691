pub mod keymap;
pub mod layout;
pub mod settings;

use vstd::prelude::*;

verus! {

/// Why the configuration could not be used.
#[derive(Debug)]
pub enum ConfigError {
    /// The configuration is wrong; the words say how.
    Invalid(String),
    /// A key binding names a layout or workspace action with index 0 (names count from
    /// 1); the named action.
    IndexFromZero(String),
}

/// What is kept across runs: the layout slot of the first workspace of each monitor,
/// by monitor key.
pub struct SavedState {
    pub monitor_layouts: Vec<(String, usize)>,
}

impl Default for SavedState {
    fn default() -> (s: Self)
        ensures
            s.monitor_layouts@.len() == 0,
    {
        SavedState { monitor_layouts: Vec::new() }
    }
}

/// The layout slot saved in `es` for monitor `key`: that of its first entry.
pub open spec fn saved_layout(es: Seq<(String, usize)>, key: Seq<char>) -> Option<usize> {
    if exists|i: int| 0 <= i < es.len() && es[i].0@ == key {
        let i = choose|i: int| 0 <= i < es.len() && es[i].0@ == key && forall|k: int| 0 <= k < i ==> (#[trigger] es[k]).0@ != key;
        Some(es[i].1)
    } else {
        None
    }
}

proof fn lemma_saved_first(es: Seq<(String, usize)>, i: int, key: Seq<char>)
    requires
        0 <= i < es.len(),
        es[i].0@ == key,
        forall|k: int| 0 <= k < i ==> (#[trigger] es[k]).0@ != key,
    ensures
        saved_layout(es, key) == Some(es[i].1),
{
    let c = choose|c: int| 0 <= c < es.len() && es[c].0@ == key && forall|k: int| 0 <= k < c ==> (#[trigger] es[k]).0@ != key;
    assert(0 <= c < es.len() && es[c].0@ == key && forall|k: int| 0 <= k < c ==> (#[trigger] es[k]).0@ != key);
    if c < i {
        assert(es[c].0@ != key);
    } else if c > i {
        assert(es[i].0@ != key);
    }
}

/// Entries that agree, position by position, on every entry saved under `key` or whose
/// key is `key`, save the same slot for `key`.
proof fn lemma_saved_same(a: Seq<(String, usize)>, b: Seq<(String, usize)>, key: Seq<char>)
    requires
        a.len() <= b.len(),
        forall|k: int| 0 <= k < a.len() ==> ((#[trigger] a[k]).0@ == key <==> b[k].0@ == key),
        forall|k: int| 0 <= k < a.len() && a[k].0@ == key ==> (#[trigger] a[k]).1 == b[k].1,
        forall|k: int| a.len() <= k < b.len() ==> (#[trigger] b[k]).0@ != key,
    ensures
        saved_layout(a, key) == saved_layout(b, key),
{
    if exists|i: int| 0 <= i < a.len() && a[i].0@ == key {
        let i = choose|i: int| 0 <= i < a.len() && a[i].0@ == key && forall|k: int| 0 <= k < i ==> (#[trigger] a[k]).0@ != key;
        assert(exists|i: int| 0 <= i < a.len() && a[i].0@ == key && forall|k: int| 0 <= k < i ==> (#[trigger] a[k]).0@ != key) by {
            let j = choose|j: int| 0 <= j < a.len() && a[j].0@ == key;
            lemma_first_exists(a, key, j);
        }
        lemma_saved_first(a, i, key);
        assert forall|k: int| 0 <= k < i implies (#[trigger] b[k]).0@ != key by {
            assert(a[k].0@ != key);
        }
        lemma_saved_first(b, i, key);
    } else {
        assert forall|k: int| 0 <= k < b.len() implies (#[trigger] b[k]).0@ != key by {
            if k < a.len() {
                assert(a[k].0@ != key);
            }
        }
    }
}

proof fn lemma_first_exists(a: Seq<(String, usize)>, key: Seq<char>, j: int)
    requires
        0 <= j < a.len(),
        a[j].0@ == key,
    ensures
        exists|i: int| 0 <= i < a.len() && a[i].0@ == key && forall|k: int| 0 <= k < i ==> (#[trigger] a[k]).0@ != key,
    decreases j,
{
    if exists|k: int| 0 <= k < j && a[k].0@ == key {
        let k = choose|k: int| 0 <= k < j && a[k].0@ == key;
        lemma_first_exists(a, key, k);
    } else {
        assert(forall|k: int| 0 <= k < j ==> (#[trigger] a[k]).0@ != key);
    }
}

impl SavedState {
    /// The layout slot saved for monitor `key`: that of its first entry.
    pub open spec fn spec_layout_for(self, key: Seq<char>) -> Option<usize> {
        saved_layout(self.monitor_layouts@, key)
    }

    pub fn layout_for(&self, key: &String) -> (r: Option<usize>)
        ensures
            r == self.spec_layout_for(key@),
    {
        let mut i: usize = 0;
        while i < self.monitor_layouts.len()
            invariant
                i <= self.monitor_layouts@.len(),
                forall|k: int| 0 <= k < i ==> (#[trigger] self.monitor_layouts@[k]).0@ != key@,
            decreases self.monitor_layouts@.len() - i,
        {
            if self.monitor_layouts[i].0 == *key {
                proof { lemma_saved_first(self.monitor_layouts@, i as int, key@); }
                return Some(self.monitor_layouts[i].1);
            }
            i = i + 1;
        }
        None
    }

    /// Saves layout slot `idx` for monitor `key`, in place of what was saved for it.
    pub fn insert(&mut self, key: String, idx: usize)
        ensures
            final(self).spec_layout_for(key@) == Some(idx),
            forall|k: Seq<char>| k != key@ ==> #[trigger] final(self).spec_layout_for(k) == old(self).spec_layout_for(k),
    {
        let ghost kv = key@;
        let mut i: usize = 0;
        while i < self.monitor_layouts.len()
            invariant
                i <= self.monitor_layouts@.len(),
                *self == *old(self),
                kv == key@,
                forall|k: int| 0 <= k < i ==> (#[trigger] self.monitor_layouts@[k]).0@ != kv,
            decreases self.monitor_layouts@.len() - i,
        {
            if self.monitor_layouts[i].0 == key {
                let ghost o = self.monitor_layouts@;
                self.monitor_layouts.set(i, (key, idx));
                proof {
                    let n = self.monitor_layouts@;
                    lemma_saved_first(n, i as int, kv);
                    assert forall|k: Seq<char>| k != kv implies #[trigger] saved_layout(n, k) == saved_layout(o, k) by {
                        lemma_saved_same(o, n, k);
                    }
                }
                return;
            }
            i = i + 1;
        }
        let ghost o = self.monitor_layouts@;
        self.monitor_layouts.push((key, idx));
        proof {
            let n = self.monitor_layouts@;
            lemma_saved_first(n, o.len() as int, kv);
            assert forall|k: Seq<char>| k != kv implies #[trigger] saved_layout(n, k) == saved_layout(o, k) by {
                lemma_saved_same(o, n, k);
            }
        }
    }
}

} // verus!
