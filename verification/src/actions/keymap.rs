use std::collections::HashMap;

use vstd::prelude::*;
use vstd::string::*;

use crate::actions::Action;

verus! {

broadcast use vstd::std_specs::hash::group_hash_axioms;

/// A key combination: modifier bits and a virtual-key code.
#[derive(PartialEq, Eq, Hash, Clone, Copy, Debug, Structural)]
pub struct Keymap {
    pub mods: u32,
    pub vk: u32,
}

/// Why a key combo could not be registered.
#[derive(Debug)]
pub enum KeymapError {
    /// The combo is not a valid key combination.
    Invalid,
    /// The combo is already bound: the names of the action bound to it and of the one
    /// that asked for it.
    Duplicate(String, String),
}

/// The number under which the registry files `k`: its modifiers above its key code.
pub open spec fn key_code(k: Keymap) -> u64 {
    (k.mods as u64 * 0x1_0000_0000 + k.vk as u64) as u64
}

proof fn lemma_key_code_injective(a: Keymap, b: Keymap)
    requires
        key_code(a) == key_code(b),
    ensures
        a == b,
{
    assert(a.mods as int * 0x1_0000_0000 + a.vk as int == key_code(a));
    assert(b.mods as int * 0x1_0000_0000 + b.vk as int == key_code(b));
}

impl Keymap {
    /// The number under which the registry files this combo.
    pub fn code(&self) -> (c: u64)
        ensures
            c == key_code(*self),
    {
        (self.mods as u64) * 0x1_0000_0000 + (self.vk as u64)
    }
}

/// The words of a duplicate-combo error naming actions `a` and `b`.
pub open spec fn duplicate_message(a: Seq<char>, b: Seq<char>) -> Seq<char> {
    "Duplicate keymap found for action '"@ + a + "' and '"@ + b + "'"@
}

/// The id filed under `k` in `ids`, if any.
pub open spec fn id_in(ids: Map<u64, i32>, k: Keymap) -> Option<i32> {
    if ids.contains_key(key_code(k)) {
        Some(ids[key_code(k)])
    } else {
        None
    }
}

/// The action that id `id` names in `actions`, if any.
pub open spec fn action_at(actions: Seq<Action>, id: i32) -> Option<Action> {
    if 0 <= id < actions.len() {
        Some(actions[id as int])
    } else {
        None
    }
}

/// The name of the action bound to `k`, or `none` if there is none.
pub open spec fn bound_name_in(ids: Map<u64, i32>, actions: Seq<Action>, k: Keymap) -> Seq<char> {
    match id_in(ids, k) {
        Some(id) => match action_at(actions, id) {
            Some(a) => a.name(),
            None => "none"@,
        },
        None => "none"@,
    }
}

impl KeymapError {
    /// What went wrong, in words.
    pub open spec fn spec_message(&self) -> Seq<char> {
        match self {
            KeymapError::Invalid => "Invalid key combo"@,
            KeymapError::Duplicate(a, b) => duplicate_message(a@, b@),
        }
    }

    /// What went wrong, in words.
    pub fn message(&self) -> (s: String)
        ensures
            s@ == self.spec_message(),
    {
        match self {
            KeymapError::Invalid => String::from_str("Invalid key combo"),
            KeymapError::Duplicate(a, b) => {
                let mut s = String::from_str("Duplicate keymap found for action '");
                s.append(a.as_str());
                s.append("' and '");
                s.append(b.as_str());
                s.append("'");
                s
            },
        }
    }
}

/// Which action each key combo triggers. Each registered combo gets the next id, and
/// each id names the action registered with it.
pub struct KeymapRegistry {
    pub keymap_to_id: HashMap<u64, i32>,
    pub id_to_action: Vec<Action>,
}

impl KeymapRegistry {
    /// Every id in use names a registered action, ids fit in an `i32`, no two combos share
    /// an id, and every id below the number of actions is in use.
    pub open spec fn wf(self) -> bool {
        &&& self.id_to_action@.len() <= i32::MAX
        &&& forall|c: u64| #[trigger] self.keymap_to_id@.contains_key(c) ==> 0 <= self.keymap_to_id@[c] < self.id_to_action@.len()
        &&& forall|c1: u64, c2: u64|
            #![trigger self.keymap_to_id@[c1], self.keymap_to_id@[c2]]
            self.keymap_to_id@.contains_key(c1) && self.keymap_to_id@.contains_key(c2)
                && self.keymap_to_id@[c1] == self.keymap_to_id@[c2] ==> c1 == c2
        &&& forall|i: int| 0 <= i < self.id_to_action@.len() ==> #[trigger] self.code_with_id(i)
    }

    /// Some combo code is filed under id `i`.
    pub open spec fn code_with_id(self, i: int) -> bool {
        exists|c: u64| self.keymap_to_id@.contains_key(c) && #[trigger] self.keymap_to_id@[c] == i
    }

    /// The id registered for `k`, if any.
    pub open spec fn spec_id(self, k: Keymap) -> Option<i32> {
        id_in(self.keymap_to_id@, k)
    }

    /// The action that id `id` names, if any.
    pub open spec fn spec_action(self, id: i32) -> Option<Action> {
        action_at(self.id_to_action@, id)
    }

    /// The action that `k` triggers, if any.
    pub open spec fn action_for(self, k: Keymap) -> Option<Action> {
        match self.spec_id(k) {
            Some(id) => self.spec_action(id),
            None => None,
        }
    }

    /// The name of the action bound to `k`, or `none` if there is none.
    pub open spec fn bound_name(self, k: Keymap) -> Seq<char> {
        bound_name_in(self.keymap_to_id@, self.id_to_action@, k)
    }

    /// An empty registry.
    pub fn new() -> (r: Self)
        ensures
            r.wf(),
            r.keymap_to_id@ == Map::<u64, i32>::empty(),
            r.id_to_action@ == Seq::<Action>::empty(),
    {
        KeymapRegistry { keymap_to_id: HashMap::new(), id_to_action: Vec::new() }
    }

    /// Binds `keymap` to `action` under the next id, unless `keymap` is bound already, in
    /// which case nothing changes and the error names both actions. An action may be bound
    /// to several combos.
    pub fn add_keymap(&mut self, keymap: Keymap, action: Action) -> (r: Result<(), KeymapError>)
        requires
            old(self).wf(),
            old(self).spec_id(keymap) is None ==> old(self).id_to_action@.len() < i32::MAX,
        ensures
            final(self).wf(),
            match r {
                Ok(()) => {
                    &&& old(self).spec_id(keymap) is None
                    &&& final(self).id_to_action@ == old(self).id_to_action@.push(action)
                    &&& final(self).keymap_to_id@ == old(self).keymap_to_id@.insert(key_code(keymap), old(self).id_to_action@.len() as i32)
                    &&& final(self).action_for(keymap) == Some(action)
                    &&& forall|k: Keymap| k != keymap ==> #[trigger] final(self).action_for(k) == old(self).action_for(k)
                },
                Err(e) => {
                    &&& old(self).spec_id(keymap) is Some
                    &&& *final(self) == *old(self)
                    &&& e matches KeymapError::Duplicate(p, n) && p@ == old(self).bound_name(keymap) && n@ == action.name()
                },
            },
    {
        let code = keymap.code();
        if self.keymap_to_id.contains_key(&code) {
            let prev = match self.keymap_to_id.get(&code) {
                Some(i) => {
                    let i = *i;
                    if i >= 0 && (i as usize) < self.id_to_action.len() {
                        self.id_to_action[i as usize].to_string()
                    } else {
                        String::from_str("none")
                    }
                },
                None => String::from_str("none"),
            };
            Err(KeymapError::Duplicate(prev, action.to_string()))
        } else {
            self.id_to_action.push(action);
            let id = (self.id_to_action.len() - 1) as i32;
            self.keymap_to_id.insert(code, id);
            proof {
                let n = old(self).id_to_action@.len() as int;
                assert forall|i: int| 0 <= i < self.id_to_action@.len() implies #[trigger] self.code_with_id(i) by {
                    if i < n {
                        assert(old(self).code_with_id(i));
                        let c = choose|c: u64| old(self).keymap_to_id@.contains_key(c) && #[trigger] old(self).keymap_to_id@[c] == i;
                        assert(self.keymap_to_id@.contains_key(c) && self.keymap_to_id@[c] == i);
                    } else {
                        assert(self.keymap_to_id@.contains_key(code) && self.keymap_to_id@[code] == i);
                    }
                }
                assert forall|k: Keymap| k != keymap implies #[trigger] self.action_for(k) == old(self).action_for(k) by {
                    if key_code(k) == code {
                        lemma_key_code_injective(k, keymap);
                    }
                }
            }
            Ok(())
        }
    }

    /// Some combo is bound to id `id`.
    pub open spec fn id_has_combo(self, id: i32) -> bool {
        exists|k: Keymap| #[trigger] self.spec_id(k) == Some(id)
    }

    /// The combo filed under code `c`.
    pub open spec fn keymap_of_code(c: u64) -> Keymap {
        Keymap { mods: (c / 0x1_0000_0000) as u32, vk: (c % 0x1_0000_0000) as u32 }
    }

    /// The id bound to `keymap`, if any.
    pub fn get_id_from_keymap(&self, keymap: Keymap) -> (r: Option<i32>)
        ensures
            r == self.spec_id(keymap),
    {
        match self.keymap_to_id.get(&keymap.code()) {
            Some(i) => Some(*i),
            None => None,
        }
    }

    /// The action that id `id` names, if any.
    pub fn get_action_from_id(&self, id: i32) -> (r: Option<Action>)
        ensures
            r == self.spec_action(id),
    {
        if id >= 0 && (id as usize) < self.id_to_action.len() {
            Some(self.id_to_action[id as usize])
        } else {
            None
        }
    }
}

proof fn lemma_code_of_keymap(c: u64)
    ensures
        key_code(KeymapRegistry::keymap_of_code(c)) == c,
{
    let q = c / 0x1_0000_0000;
    let r = c % 0x1_0000_0000;
    assert(q * 0x1_0000_0000 + r == c && q < 0x1_0000_0000 && r < 0x1_0000_0000) by (nonlinear_arith)
        requires
            q == c / 0x1_0000_0000,
            r == c % 0x1_0000_0000,
            c < 0x1_0000_0000_0000_0000,
    ;
}

/// In a registry kept well formed by `new` and `add_keymap`, the ids in use run from 0 up
/// to the number of successful registrations, without a gap: each is the id of exactly one
/// combo, and exactly those ids name an action.
pub proof fn lemma_registry_ids_dense(r: KeymapRegistry)
    requires
        r.wf(),
    ensures
        forall|k: Keymap| #[trigger] r.spec_id(k) matches Some(i) ==> 0 <= i < r.id_to_action@.len(),
        forall|id: i32| #[trigger] r.spec_action(id) is Some <==> 0 <= id < r.id_to_action@.len(),
        forall|id: i32| 0 <= id < r.id_to_action@.len() ==> #[trigger] r.id_has_combo(id),
        forall|k1: Keymap, k2: Keymap| r.spec_id(k1) is Some && #[trigger] r.spec_id(k1) == #[trigger] r.spec_id(k2) ==> k1 == k2,
{
    assert forall|id: i32| 0 <= id < r.id_to_action@.len() implies #[trigger] r.id_has_combo(id) by {
        assert(r.code_with_id(id as int));
        let c = choose|c: u64| r.keymap_to_id@.contains_key(c) && #[trigger] r.keymap_to_id@[c] == id as int;
        lemma_code_of_keymap(c);
        assert(r.spec_id(KeymapRegistry::keymap_of_code(c)) == Some(id));
    }
    assert forall|k1: Keymap, k2: Keymap| r.spec_id(k1) is Some && #[trigger] r.spec_id(k1) == #[trigger] r.spec_id(k2) implies k1 == k2 by {
        assert(r.keymap_to_id@[key_code(k1)] == r.keymap_to_id@[key_code(k2)]);
        lemma_key_code_injective(k1, k2);
    }
}

/// The id map that registering the combos of `ks` in order gives: the `j`-th under id `j`.
pub open spec fn ids_of(ks: Seq<Keymap>) -> Map<u64, i32>
    decreases ks.len(),
{
    if ks.len() == 0 {
        Map::empty()
    } else {
        ids_of(ks.drop_last()).insert(key_code(ks.last()), (ks.len() - 1) as i32)
    }
}

proof fn lemma_ids_of(ks: Seq<Keymap>)
    requires
        ks.no_duplicates(),
        ks.len() <= i32::MAX,
    ensures
        forall|j: int| 0 <= j < ks.len() ==> #[trigger] ids_of(ks).contains_key(key_code(ks[j])) && ids_of(ks)[key_code(ks[j])] == j,
        forall|k: Keymap| #[trigger] ids_of(ks).contains_key(key_code(k)) ==> ks.contains(k),
    decreases ks.len(),
{
    if ks.len() > 0 {
        let init = ks.drop_last();
        let last = ks.last();
        assert forall|a: int, b: int| 0 <= a < b < init.len() implies init[a] != init[b] by {
            assert(ks[a] != ks[b]);
        }
        lemma_ids_of(init);
        assert forall|j: int| 0 <= j < ks.len() implies #[trigger] ids_of(ks).contains_key(key_code(ks[j])) && ids_of(ks)[key_code(ks[j])] == j by {
            if j < ks.len() - 1 {
                assert(init[j] == ks[j]);
                if key_code(ks[j]) == key_code(last) {
                    lemma_key_code_injective(ks[j], last);
                    assert(ks[j] != ks[ks.len() - 1]);
                }
                assert(ids_of(init).contains_key(key_code(init[j])));
            }
        }
        assert forall|k: Keymap| #[trigger] ids_of(ks).contains_key(key_code(k)) implies ks.contains(k) by {
            if key_code(k) == key_code(last) {
                lemma_key_code_injective(k, last);
                assert(ks[ks.len() - 1] == k);
            } else {
                assert(ids_of(init).contains_key(key_code(k)));
                assert(init.contains(k));
                let j = choose|j: int| 0 <= j < init.len() && init[j] == k;
                assert(ks[j] == k);
            }
        }
    }
}

/// A registry that holds the combos `ks`, all different, registered in order with the
/// actions `acts` (what `new` followed by one successful `add_keymap` per combo gives: each
/// success files its combo under the next id) finds the `j`-th combo under id `j`, no id
/// for any other combo, and under id `id` the `id`-th action when `0 <= id < n`, none
/// otherwise.
pub proof fn lemma_registered_in_order(r: KeymapRegistry, ks: Seq<Keymap>, acts: Seq<Action>)
    requires
        r.keymap_to_id@ == ids_of(ks),
        r.id_to_action@ == acts,
        ks.len() == acts.len(),
        ks.len() <= i32::MAX,
        ks.no_duplicates(),
    ensures
        forall|j: int| 0 <= j < ks.len() ==> r.spec_id(#[trigger] ks[j]) == Some(j as i32),
        forall|k: Keymap| !ks.contains(k) ==> #[trigger] r.spec_id(k) is None,
        forall|id: i32| #[trigger] r.spec_action(id) == if 0 <= id < acts.len() { Some(acts[id as int]) } else { None },
{
    lemma_ids_of(ks);
    assert forall|j: int| 0 <= j < ks.len() implies r.spec_id(#[trigger] ks[j]) == Some(j as i32) by {
        assert(ids_of(ks).contains_key(key_code(ks[j])));
    }
}

/// Registering one more combo `k` files it under the next id: the map `add_keymap`
/// leaves after a success is that of the longer list.
pub proof fn lemma_ids_of_push(ks: Seq<Keymap>, k: Keymap)
    ensures
        ids_of(ks.push(k)) == ids_of(ks).insert(key_code(k), ks.len() as i32),
{
    assert(ks.push(k).drop_last() =~= ks);
}

} // verus!
