//! The central routing registry: a table from user names to aggregator
//! handles.
//!
//! The registry is the one owning unit through which all cross-user
//! traffic flows. It maps each user name to the identifier of that
//! user's aggregator; the driver keeps, under the same identifiers, the
//! mailbox senders the identifiers stand for. A name is present exactly
//! while its user has at least one live session: the aggregator reports
//! its own removal when its last session goes away.

use vstd::prelude::*;
use crate::msg::ChatMessage;

verus! {

/// Mathematical value of a [`Registry`]: the table as an association
/// sequence (name, aggregator id), plus the next identifier to hand out.
pub struct RegistryView {
    pub entries: Seq<(Seq<char>, u64)>,
    pub next: int,
}

/// First aggregator id bound to `name` in `entries`, if any.
pub open spec fn lookup(entries: Seq<(Seq<char>, u64)>, name: Seq<char>) -> Option<u64>
    decreases entries.len(),
{
    if entries.len() == 0 {
        None
    } else if entries[0].0 == name {
        Some(entries[0].1)
    } else {
        lookup(entries.skip(1), name)
    }
}

/// Whether `name` is bound in `entries`.
pub open spec fn contains_name(entries: Seq<(Seq<char>, u64)>, name: Seq<char>) -> bool {
    lookup(entries, name) is Some
}

/// No user name occurs twice.
pub open spec fn distinct_names(entries: Seq<(Seq<char>, u64)>) -> bool {
    forall|i: int, j: int|
        0 <= i < j < entries.len() ==> entries[i].0 != entries[j].0
}

/// `entries` with the first binding of `name` removed.
pub open spec fn remove_entry(entries: Seq<(Seq<char>, u64)>, name: Seq<char>) -> Seq<
    (Seq<char>, u64),
>
    decreases entries.len(),
{
    if entries.len() == 0 {
        entries
    } else if entries[0].0 == name {
        entries.skip(1)
    } else {
        seq![entries[0]] + remove_entry(entries.skip(1), name)
    }
}

impl RegistryView {
    /// Well-formedness: names are unique, and every id already handed
    /// out is below `next`, so `next` is fresh.
    pub open spec fn wf(self) -> bool {
        &&& distinct_names(self.entries)
        &&& 0 <= self.next <= u64::MAX
        &&& forall|i: int| 0 <= i < self.entries.len() ==> (#[trigger] self.entries[i]).1 < self.next
    }
}

/// Transition of `get_or_insert`: the table afterwards, and the id
/// returned. An absent name is bound to the fresh id `v.next`.
pub open spec fn spec_get_or_insert(v: RegistryView, name: Seq<char>) -> (RegistryView, u64) {
    match lookup(v.entries, name) {
        Some(id) => (v, id),
        None => (
            RegistryView {
                entries: v.entries.push((name, v.next as u64)),
                next: v.next + 1,
            },
            v.next as u64,
        ),
    }
}

/// Transition of `remove`: the binding of `name` is gone, everything
/// else stays.
pub open spec fn spec_remove(v: RegistryView, name: Seq<char>) -> RegistryView {
    RegistryView { entries: remove_entry(v.entries, name), next: v.next }
}

/// Decision of `route`: the aggregator a message to `recipient` goes
/// to, or nothing when the recipient is not registered (the message is
/// then dropped).
pub open spec fn spec_route(v: RegistryView, recipient: Seq<char>) -> Option<u64> {
    lookup(v.entries, recipient)
}

/// A name is bound iff some entry carries it.
pub proof fn lemma_lookup_some_iff(entries: Seq<(Seq<char>, u64)>, name: Seq<char>)
    ensures
        contains_name(entries, name) <==> exists|i: int|
            0 <= i < entries.len() && (#[trigger] entries[i]).0 == name,
    decreases entries.len(),
{
    if entries.len() > 0 {
        lemma_lookup_some_iff(entries.skip(1), name);
        if entries[0].0 == name {
            assert(entries[0].0 == name);
        } else {
            if contains_name(entries, name) {
                let i = choose|i: int|
                    0 <= i < entries.skip(1).len() && (#[trigger] entries.skip(1)[i]).0 == name;
                assert(entries[i + 1].0 == name);
            }
            if exists|i: int| 0 <= i < entries.len() && (#[trigger] entries[i]).0 == name {
                let i = choose|i: int| 0 <= i < entries.len() && (#[trigger] entries[i]).0 == name;
                assert(entries.skip(1)[i - 1].0 == name);
            }
        }
    }
}

/// Appending a fresh binding makes it the one `lookup` finds.
pub proof fn lemma_lookup_push_absent(entries: Seq<(Seq<char>, u64)>, name: Seq<char>, id: u64)
    requires
        lookup(entries, name) is None,
    ensures
        lookup(entries.push((name, id)), name) == Some(id),
    decreases entries.len(),
{
    if entries.len() == 0 {
        assert(entries.push((name, id))[0].0 == name);
    } else {
        lemma_lookup_push_absent(entries.skip(1), name, id);
        assert(entries.push((name, id)).skip(1) =~= entries.skip(1).push((name, id)));
    }
}

/// Appending a binding for one name leaves every other name's binding
/// as it was.
pub proof fn lemma_lookup_push_other(
    entries: Seq<(Seq<char>, u64)>,
    name: Seq<char>,
    id: u64,
    other: Seq<char>,
)
    requires
        other != name,
    ensures
        lookup(entries.push((name, id)), other) == lookup(entries, other),
    decreases entries.len(),
{
    if entries.len() == 0 {
        assert(entries.push((name, id))[0] == (name, id));
        assert(entries.push((name, id)).skip(1) =~= entries);
    } else {
        lemma_lookup_push_other(entries.skip(1), name, id, other);
        assert(entries.push((name, id))[0] == entries[0]);
        assert(entries.push((name, id)).skip(1) =~= entries.skip(1).push((name, id)));
    }
}

/// Removing the first binding of a name at its (first) index is what
/// `remove_entry` does.
pub proof fn lemma_remove_entry_at(entries: Seq<(Seq<char>, u64)>, name: Seq<char>, i: int)
    requires
        0 <= i < entries.len(),
        entries[i].0 == name,
        forall|k: int| 0 <= k < i ==> (#[trigger] entries[k]).0 != name,
    ensures
        remove_entry(entries, name) =~= entries.remove(i),
    decreases i,
{
    if i == 0 {
        assert(entries.remove(0) =~= entries.skip(1));
    } else {
        assert(entries.skip(1)[i - 1].0 == name);
        assert(forall|k: int| 0 <= k < i - 1 ==> (#[trigger] entries.skip(1)[k]).0 != name);
        lemma_remove_entry_at(entries.skip(1), name, i - 1);
        assert(seq![entries[0]] + entries.skip(1).remove(i - 1) =~= entries.remove(i));
    }
}

/// When no entry carries `name`, `remove_entry` changes nothing.
pub proof fn lemma_remove_entry_absent(entries: Seq<(Seq<char>, u64)>, name: Seq<char>)
    requires
        lookup(entries, name) is None,
    ensures
        remove_entry(entries, name) =~= entries,
    decreases entries.len(),
{
    if entries.len() > 0 {
        lemma_remove_entry_absent(entries.skip(1), name);
        assert(seq![entries[0]] + entries.skip(1) =~= entries);
    }
}

/// After `remove_entry`, with unique names, the removed name is gone.
pub proof fn lemma_lookup_after_remove(entries: Seq<(Seq<char>, u64)>, name: Seq<char>)
    requires
        distinct_names(entries),
    ensures
        lookup(remove_entry(entries, name), name) is None,
    decreases entries.len(),
{
    if entries.len() > 0 {
        assert(forall|i: int, j: int|
            0 <= i < j < entries.skip(1).len() ==> entries.skip(1)[i].0 != entries.skip(1)[j].0)
            by {
            assert(forall|i: int| 0 <= i < entries.skip(1).len()
                ==> entries.skip(1)[i] == entries[i + 1]);
        }
        if entries[0].0 == name {
            // the tail holds no second binding of `name`
            lemma_lookup_some_iff(entries.skip(1), name);
            assert(forall|i: int| 0 <= i < entries.skip(1).len()
                ==> (#[trigger] entries.skip(1)[i]).0 != name) by {
                assert(forall|i: int| 0 <= i < entries.skip(1).len()
                    ==> entries.skip(1)[i] == entries[i + 1]);
            }
        } else {
            lemma_lookup_after_remove(entries.skip(1), name);
            let r = seq![entries[0]] + remove_entry(entries.skip(1), name);
            assert(r.skip(1) =~= remove_entry(entries.skip(1), name));
        }
    }
}

/// `remove_entry` for one name leaves every other name's binding as it
/// was.
pub proof fn lemma_lookup_remove_other(
    entries: Seq<(Seq<char>, u64)>,
    name: Seq<char>,
    other: Seq<char>,
)
    requires
        other != name,
    ensures
        lookup(remove_entry(entries, name), other) == lookup(entries, other),
    decreases entries.len(),
{
    if entries.len() > 0 {
        lemma_lookup_remove_other(entries.skip(1), name, other);
        if entries[0].0 == name {
        } else {
            let r = seq![entries[0]] + remove_entry(entries.skip(1), name);
            assert(r.skip(1) =~= remove_entry(entries.skip(1), name));
            if entries[0].0 == other {
            }
        }
    }
}

/// One entry of the routing table.
struct RegistryEntry {
    name: Vec<char>,
    agg: u64,
}

/// The central routing registry. All mutation goes through `&mut self`
/// methods; the driver serializes them in its one processing loop.
pub struct Registry {
    entries: Vec<RegistryEntry>,
    next_agg: u64,
}

/// Character-wise equality of a slice and a vector of characters.
pub fn chars_eq(a: &[char], b: &Vec<char>) -> (r: bool)
    ensures
        r == (a@ == b@),
{
    if a.len() != b.len() {
        assert(a@.len() != b@.len());
        return false;
    }
    let mut i: usize = 0;
    while i < a.len()
        invariant
            i <= a.len(),
            a@.len() == b@.len(),
            forall|k: int| 0 <= k < i ==> a@[k] == b@[k],
        decreases a.len() - i,
    {
        if a[i] != b[i] {
            return false;
        }
        i = i + 1;
    }
    assert(a@ =~= b@);
    true
}

impl View for Registry {
    type V = RegistryView;

    closed spec fn view(&self) -> RegistryView {
        RegistryView {
            entries: Seq::new(self.entries@.len(), |i: int| (self.entries@[i].name@, self.entries@[i].agg)),
            next: self.next_agg as int,
        }
    }
}

impl Registry {
    /// Whether the registry is well formed; established by [`Registry::new`]
    /// and preserved by every method.
    pub open spec fn wf(self) -> bool {
        self@.wf()
    }

    /// An empty registry: no users, ids start at zero.
    pub fn new() -> (r: Registry)
        ensures
            r.wf(),
            r@.entries == Seq::<(Seq<char>, u64)>::empty(),
            r@.next == 0,
    {
        let r = Registry { entries: Vec::new(), next_agg: 0 };
        proof {
            assert(r@.entries =~= Seq::<(Seq<char>, u64)>::empty());
        }
        r
    }

    /// Index of the entry bound to `name`, if any.
    fn find(&self, name: &[char]) -> (r: Option<usize>)
        ensures
            match r {
                Some(i) => {
                    &&& i < self.entries@.len()
                    &&& self@.entries[i as int].0 == name@
                    &&& forall|k: int| 0 <= k < i ==> (#[trigger] self@.entries[k]).0 != name@
                },
                None => forall|k: int|
                    0 <= k < self@.entries.len() ==> (#[trigger] self@.entries[k]).0 != name@,
            },
    {
        let mut i: usize = 0;
        while i < self.entries.len()
            invariant
                i <= self.entries@.len(),
                forall|k: int| 0 <= k < i ==> (#[trigger] self@.entries[k]).0 != name@,
            decreases self.entries@.len() - i,
        {
            if chars_eq(name, &self.entries[i].name) {
                return Some(i);
            }
            i = i + 1;
        }
        None
    }

    /// Returns the aggregator id for `name`, creating a fresh binding
    /// when the name is absent. Never fails; the id returned is the one
    /// every later call with the same name gets, as long as the name
    /// stays bound.
    pub fn get_or_insert(&mut self, name: &[char]) -> (agg: u64)
        requires
            old(self).wf(),
            old(self)@.next < u64::MAX,
        ensures
            final(self).wf(),
            (final(self)@, agg) == spec_get_or_insert(old(self)@, name@),
            lookup(final(self)@.entries, name@) == Some(agg),
    {
        proof {
            lemma_lookup_some_iff(self@.entries, name@);
        }
        match self.find(name) {
            Some(i) => {
                let agg = self.entries[i].agg;
                proof {
                    lemma_lookup_at_index(self@.entries, name@, i as int);
                }
                agg
            },
            None => {
                let agg = self.next_agg;
                let ghost pre = self@;
                let mut name_copy: Vec<char> = Vec::new();
                let mut k: usize = 0;
                while k < name.len()
                    invariant
                        k <= name@.len(),
                        name_copy@.len() == k,
                        forall|j: int| 0 <= j < k ==> name_copy@[j] == name@[j],
                    decreases name.len() - k,
                {
                    name_copy.push(name[k]);
                    k = k + 1;
                }
                assert(name_copy@ =~= name@);
                self.entries.push(RegistryEntry { name: name_copy, agg });
                self.next_agg = self.next_agg + 1;
                proof {
                    assert(self@.entries =~= pre.entries.push((name@, agg)));
                    lemma_lookup_push_absent(pre.entries, name@, agg);
                    assert(distinct_names(self@.entries)) by {
                        assert(forall|i: int| 0 <= i < pre.entries.len()
                            ==> (#[trigger] pre.entries[i]).0 != name@);
                    }
                }
                agg
            },
        }
    }

    /// Whether every identifier has been handed out; full registries
    /// cannot accept a new name. (Unreachable in practice: the id
    /// space outlasts any process lifetime.)
    pub fn is_full(&self) -> (r: bool)
        ensures
            r == (self@.next == u64::MAX),
    {
        self.next_agg == u64::MAX
    }

    /// The aggregator id bound to `name`, if the name is registered.
    pub fn id_of(&self, name: &[char]) -> (r: Option<u64>)
        ensures
            r == lookup(self@.entries, name@),
    {
        proof {
            lemma_lookup_some_iff(self@.entries, name@);
        }
        match self.find(name) {
            Some(i) => {
                proof {
                    lemma_lookup_at_index(self@.entries, name@, i as int);
                }
                Some(self.entries[i].agg)
            },
            None => None,
        }
    }

    /// The aggregator a message is routed to: the recipient's, when the
    /// recipient is registered; nothing otherwise — the message is then
    /// dropped, deliberately and silently.
    pub fn route(&self, m: &ChatMessage) -> (r: Option<u64>)
        ensures
            r == spec_route(self@, m@.recipient),
    {
        self.id_of(m.recipient.as_slice())
    }

    /// Drops the binding of `name`, if there is one; a miss changes
    /// nothing (removal is idempotent).
    pub fn remove(&mut self, name: &[char])
        requires
            old(self).wf(),
        ensures
            final(self).wf(),
            final(self)@ == spec_remove(old(self)@, name@),
            lookup(final(self)@.entries, name@) is None,
            forall|other: Seq<char>|
                other != name@ ==> lookup(final(self)@.entries, other) == lookup(
                    old(self)@.entries,
                    other,
                ),
    {
        let ghost pre = self@;
        match self.find(name) {
            Some(i) => {
                self.entries.remove(i);
                proof {
                    assert(self@.entries =~= pre.entries.remove(i as int));
                    lemma_remove_entry_at(pre.entries, name@, i as int);
                    assert(self@.entries =~= remove_entry(pre.entries, name@));
                    assert(self@ == spec_remove(pre, name@));
                    lemma_lookup_after_remove(pre.entries, name@);
                    assert(forall|other: Seq<char>| other != name@
                        ==> lookup(self@.entries, other) == lookup(pre.entries, other)) by {
                        assert forall|other: Seq<char>| other != name@ implies lookup(
                            self@.entries,
                            other,
                        ) == lookup(pre.entries, other) by {
                            lemma_lookup_remove_other(pre.entries, name@, other);
                        }
                    }
                    assert(distinct_names(self@.entries)) by {
                        assert(forall|k: int| 0 <= k < self@.entries.len()
                            ==> exists|j: int|
                                0 <= j < pre.entries.len() && #[trigger] self@.entries[k]
                                    == pre.entries[j] && (k < i as int ==> j == k) && (k >= i as int
                                    ==> j == k + 1));
                    }
                }
            },
            None => {
                proof {
                    lemma_lookup_some_iff(pre.entries, name@);
                    lemma_remove_entry_absent(pre.entries, name@);
                    assert(self@.entries =~= remove_entry(pre.entries, name@));
                    assert(self@ == spec_remove(pre, name@));
                }
            },
        }
    }

    /// A snapshot of the registered user names, in table order. Callers
    /// must tolerate staleness: a user may go away between snapshot and
    /// use.
    pub fn list_users(&self) -> (r: Vec<Vec<char>>)
        ensures
            r@.len() == self@.entries.len(),
            forall|i: int| 0 <= i < r@.len() ==> (#[trigger] r@[i])@ == self@.entries[i].0,
    {
        let mut out: Vec<Vec<char>> = Vec::new();
        let mut i: usize = 0;
        while i < self.entries.len()
            invariant
                i <= self.entries@.len(),
                out@.len() == i,
                forall|k: int| 0 <= k < i ==> (#[trigger] out@[k])@ == self@.entries[k].0,
            decreases self.entries@.len() - i,
        {
            out.push(crate::msg::clone_chars(&self.entries[i].name));
            i = i + 1;
        }
        out
    }
}

/// `lookup` finds the id at the first index that carries the name.
pub proof fn lemma_lookup_at_index(entries: Seq<(Seq<char>, u64)>, name: Seq<char>, i: int)
    requires
        0 <= i < entries.len(),
        entries[i].0 == name,
        forall|k: int| 0 <= k < i ==> (#[trigger] entries[k]).0 != name,
    ensures
        lookup(entries, name) == Some(entries[i].1),
    decreases i,
{
    if i > 0 {
        assert(entries.skip(1)[i - 1] == entries[i]);
        assert(forall|k: int| 0 <= k < i - 1 ==> (#[trigger] entries.skip(1)[k]) == entries[k + 1]);
        lemma_lookup_at_index(entries.skip(1), name, i - 1);
    }
}

/// Two `get_or_insert` calls with one name yield one id and create at
/// most one binding: the first call leaves the name bound to the id it
/// returned, and the second then returns that id and changes nothing.
pub proof fn lemma_get_or_insert_single_creation(v: RegistryView, name: Seq<char>)
    requires
        v.wf(),
        v.next < u64::MAX,
    ensures
        ({
            let (v1, id1) = spec_get_or_insert(v, name);
            let (v2, id2) = spec_get_or_insert(v1, name);
            &&& id2 == id1
            &&& v2 == v1
            &&& lookup(v1.entries, name) == Some(id1)
            &&& !contains_name(v.entries, name) ==> v1.entries == v.entries.push((name, id1))
            &&& contains_name(v.entries, name) ==> v1 == v
            &&& forall|other: Seq<char>|
                other != name ==> lookup(v1.entries, other) == lookup(v.entries, other)
        }),
{
    let (v1, id1) = spec_get_or_insert(v, name);
    if lookup(v.entries, name) is None {
        lemma_lookup_push_absent(v.entries, name, v.next as u64);
        assert forall|other: Seq<char>| other != name implies lookup(v1.entries, other) == lookup(
            v.entries,
            other,
        ) by {
            lemma_lookup_push_other(v.entries, name, v.next as u64, other);
        }
    }
}

/// Once a name is removed, routing to it drops the message and the name
/// is out of the user list: the registry behind `Registry::remove`,
/// `Registry::route` and `Registry::list_users` keeps a user visible
/// exactly while it is bound.
pub proof fn lemma_removed_user_unroutable(v: RegistryView, name: Seq<char>)
    requires
        v.wf(),
    ensures
        spec_route(spec_remove(v, name), name) is None,
        forall|i: int|
            0 <= i < spec_remove(v, name).entries.len()
                ==> (#[trigger] spec_remove(v, name).entries[i]).0 != name,
{
    lemma_lookup_after_remove(v.entries, name);
    lemma_lookup_some_iff(remove_entry(v.entries, name), name);
}

} // verus!
