//! The display names that callers have set for themselves.

use candid::Principal;
use vstd::prelude::*;

use crate::principal::same_principal;

verus! {

/// One caller and the display name they set.
struct NameEntry {
    caller: Principal,
    name: String,
}

/// A map from caller to display name, with at most one name per caller.
///
/// The entries are kept in a vector in which no caller occurs twice.
pub struct UserNames {
    entries: Vec<NameEntry>,
}

/// Whether entry `i` of `entries` belongs to `caller`.
spec fn is_entry_of(entries: Seq<NameEntry>, i: int, caller: Principal) -> bool {
    0 <= i < entries.len() && entries[i].caller == caller
}

/// Whether no caller has two entries.
spec fn callers_distinct(entries: Seq<NameEntry>) -> bool {
    forall|i: int, j: int|
        0 <= i < entries.len() && 0 <= j < entries.len() && i != j
            ==> #[trigger] entries[i].caller != #[trigger] entries[j].caller
}

/// The map that `entries` stands for.
spec fn names_of(entries: Seq<NameEntry>) -> Map<Principal, Seq<char>> {
    Map::new(
        |caller: Principal| exists|i: int| is_entry_of(entries, i, caller),
        |caller: Principal| entries[choose|i: int| is_entry_of(entries, i, caller)].name@,
    )
}

impl View for UserNames {
    type V = Map<Principal, Seq<char>>;

    closed spec fn view(&self) -> Map<Principal, Seq<char>> {
        names_of(self.entries@)
    }
}

impl UserNames {
    #[verifier::type_invariant]
    spec fn wf(self) -> bool {
        callers_distinct(self.entries@)
    }

    /// The map in which nobody has a name.
    pub fn new() -> (names: UserNames)
        ensures
            names@ == Map::<Principal, Seq<char>>::empty(),
    {
        let names = UserNames { entries: Vec::new() };
        assert(names@ =~= Map::<Principal, Seq<char>>::empty());
        names
    }

    /// The position of `caller`'s entry, if they have one.
    fn position(&self, caller: &Principal) -> (found: Option<usize>)
        ensures
            match found {
                Some(i) => is_entry_of(self.entries@, i as int, *caller),
                None => forall|i: int| !is_entry_of(self.entries@, i, *caller),
            },
    {
        let mut i: usize = 0;
        while i < self.entries.len()
            invariant
                i <= self.entries@.len(),
                forall|j: int| 0 <= j < i ==> !is_entry_of(self.entries@, j, *caller),
            decreases self.entries@.len() - i,
        {
            if same_principal(&self.entries[i].caller, caller) {
                return Some(i);
            }
            i += 1;
        }
        None
    }

    /// The name that `caller` set last, if they ever set one.
    pub fn get(&self, caller: &Principal) -> (name: Option<&String>)
        ensures
            match name {
                Some(n) => self@.contains_key(*caller) && self@[*caller] == n@,
                None => !self@.contains_key(*caller),
            },
    {
        proof {
            use_type_invariant(self);
        }
        match self.position(caller) {
            Some(i) => {
                assert(is_entry_of(self.entries@, i as int, *caller));
                Some(&self.entries[i].name)
            },
            None => None,
        }
    }

    /// Gives `caller` the display name `name`, in place of any they had.
    pub fn insert(&mut self, caller: Principal, name: String)
        ensures
            final(self)@ == old(self)@.insert(caller, name@),
    {
        proof {
            use_type_invariant(&*self);
        }
        let found = self.position(&caller);
        let mut entries: Vec<NameEntry> = Vec::new();
        std::mem::swap(&mut entries, &mut self.entries);
        let ghost before = entries@;
        match found {
            Some(i) => {
                entries.set(i, NameEntry { caller, name });
                proof {
                    lemma_replace(before, entries@, i as int);
                }
            },
            None => {
                entries.push(NameEntry { caller, name });
                proof {
                    lemma_append(before, entries@);
                }
            },
        }
        self.entries = entries;
    }
}

/// Replacing the name in a caller's entry keeps the callers distinct and
/// changes the map at that caller only.
proof fn lemma_replace(before: Seq<NameEntry>, after: Seq<NameEntry>, at: int)
    requires
        callers_distinct(before),
        0 <= at < before.len(),
        after.len() == before.len(),
        after[at].caller == before[at].caller,
        forall|i: int| 0 <= i < before.len() && i != at ==> after[i] == before[i],
    ensures
        callers_distinct(after),
        names_of(after) == names_of(before).insert(after[at].caller, after[at].name@),
{
    assert forall|i: int| 0 <= i < before.len() implies #[trigger] after[i].caller
        == before[i].caller by {}
    let target = names_of(before).insert(after[at].caller, after[at].name@);
    assert forall|caller: Principal| #[trigger]
        names_of(after).contains_key(caller) == target.contains_key(caller) by {
        if names_of(after).contains_key(caller) {
            let i: int = choose|i: int| is_entry_of(after, i, caller);
            assert(is_entry_of(before, i, caller));
        }
        if target.contains_key(caller) && caller != after[at].caller {
            let i: int = choose|i: int| is_entry_of(before, i, caller);
            assert(is_entry_of(after, i, caller));
        }
        assert(is_entry_of(after, at, after[at].caller));
    }
    assert forall|caller: Principal| #[trigger]
        names_of(after).contains_key(caller) implies names_of(after)[caller] == target[caller] by {
        let i: int = choose|i: int| is_entry_of(after, i, caller);
        if caller == after[at].caller {
            assert(is_entry_of(after, at, caller));
            assert(i == at);
        } else {
            assert(is_entry_of(before, i, caller));
            let j: int = choose|j: int| is_entry_of(before, j, caller);
            assert(i == j);
        }
    }
    assert(names_of(after) =~= target);
}

/// Appending an entry for a caller who has none keeps the callers distinct
/// and adds that caller to the map.
proof fn lemma_append(before: Seq<NameEntry>, after: Seq<NameEntry>)
    requires
        callers_distinct(before),
        after.len() == before.len() + 1,
        forall|i: int| 0 <= i < before.len() ==> after[i] == before[i],
        forall|i: int| !is_entry_of(before, i, after.last().caller),
    ensures
        callers_distinct(after),
        names_of(after) == names_of(before).insert(after.last().caller, after.last().name@),
{
    let at: int = before.len() as int;
    assert forall|i: int, j: int|
        0 <= i < after.len() && 0 <= j < after.len() && i != j implies #[trigger] after[i].caller
        != #[trigger] after[j].caller by {
        if i < at && j < at {
            assert(before[i].caller != before[j].caller);
        } else if i < at {
            assert(!is_entry_of(before, i, after.last().caller));
        } else {
            assert(!is_entry_of(before, j, after.last().caller));
        }
    }
    let target = names_of(before).insert(after[at].caller, after[at].name@);
    assert forall|caller: Principal| #[trigger]
        names_of(after).contains_key(caller) == target.contains_key(caller) by {
        if names_of(after).contains_key(caller) && caller != after[at].caller {
            let i: int = choose|i: int| is_entry_of(after, i, caller);
            assert(is_entry_of(before, i, caller));
        }
        if target.contains_key(caller) && caller != after[at].caller {
            let i: int = choose|i: int| is_entry_of(before, i, caller);
            assert(is_entry_of(after, i, caller));
        }
        assert(is_entry_of(after, at, after[at].caller));
    }
    assert forall|caller: Principal| #[trigger]
        names_of(after).contains_key(caller) implies names_of(after)[caller] == target[caller] by {
        let i: int = choose|i: int| is_entry_of(after, i, caller);
        if caller == after[at].caller {
            assert(is_entry_of(after, at, caller));
            assert(i == at);
        } else {
            assert(is_entry_of(before, i, caller));
            let j: int = choose|j: int| is_entry_of(before, j, caller);
            assert(i == j);
        }
    }
    assert(names_of(after) =~= target);
}

} // verus!
