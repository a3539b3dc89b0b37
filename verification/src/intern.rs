//! The writer-side interning dictionary: monotonic string-to-id maps,
//! one for event names and one for debug-annotation names.
//!
//! Ids are dense, start at `1` (id `0` is never handed out), and grow in
//! insertion order.  `reset` drops every entry and restarts the counter,
//! which the writer does at each sequence boundary.

use vstd::prelude::*;

verus! {

/// Whether `name` has an id in `names` (the sequence of interned names,
/// in insertion order).
pub open spec fn has_name(names: Seq<Seq<char>>, name: Seq<char>) -> bool {
    exists|i: int| 0 <= i < names.len() && names[i] == name
}

/// The id that interning `name` in `names` yields: the position of its
/// first occurrence plus one, or one past the end when it is absent.
pub open spec fn name_iid(names: Seq<Seq<char>>, name: Seq<char>) -> nat
    decreases names.len(),
{
    if names.len() == 0 {
        1
    } else if names[0] == name {
        1
    } else {
        1 + name_iid(names.drop_first(), name)
    }
}

/// The state of the dictionary after interning `name`.
pub open spec fn intern_after(names: Seq<Seq<char>>, name: Seq<char>) -> Seq<Seq<char>> {
    if has_name(names, name) {
        names
    } else {
        names.push(name)
    }
}

/// A name absent from the dictionary gets the next dense id.
pub proof fn lemma_name_iid_absent(names: Seq<Seq<char>>, name: Seq<char>)
    requires
        !has_name(names, name),
    ensures
        name_iid(names, name) == names.len() + 1,
    decreases names.len(),
{
    if names.len() == 0 {
    } else {
        assert(names[0] != name);
        assert forall|i: int| 0 <= i < names.drop_first().len() implies names.drop_first()[i]
            != name by {
            assert(names.drop_first()[i] == names[i + 1]);
        }
        lemma_name_iid_absent(names.drop_first(), name);
    }
}

/// A name first occurring at position `i` has id `i + 1`.
pub proof fn lemma_name_iid_first(names: Seq<Seq<char>>, name: Seq<char>, i: int)
    requires
        0 <= i < names.len(),
        names[i] == name,
        forall|j: int| 0 <= j < i ==> names[j] != name,
    ensures
        name_iid(names, name) == i + 1,
        has_name(names, name),
    decreases names.len(),
{
    if i == 0 {
    } else {
        assert(names[0] != name);
        assert(names.drop_first()[i - 1] == name);
        assert forall|j: int| 0 <= j < i - 1 implies names.drop_first()[j] != name by {
            assert(names.drop_first()[j] == names[j + 1]);
        }
        lemma_name_iid_first(names.drop_first(), name, i - 1);
    }
}

/// Interning leaves the id of a name already present unchanged: ids are
/// stable within a generation.
pub proof fn lemma_name_iid_push(names: Seq<Seq<char>>, name: Seq<char>, other: Seq<char>)
    requires
        has_name(names, name),
    ensures
        name_iid(names.push(other), name) == name_iid(names, name),
        has_name(names.push(other), name),
    decreases names.len(),
{
    let i = choose|i: int| 0 <= i < names.len() && names[i] == name;
    assert(names.push(other)[i] == name);
    if names.len() == 0 {
    } else if names[0] == name {
        assert(names.push(other)[0] == name);
    } else {
        assert(names.push(other)[0] == names[0]);
        assert(names.drop_first()[i - 1] == name);
        lemma_name_iid_push(names.drop_first(), name, other);
        assert(names.push(other).drop_first() =~= names.drop_first().push(other));
    }
}

/// One monotonic name-to-id map.
pub struct InternMap {
    names: Vec<String>,
}

impl View for InternMap {
    type V = Seq<Seq<char>>;

    closed spec fn view(&self) -> Seq<Seq<char>> {
        self.names.deep_view()
    }
}

impl InternMap {
    pub fn new() -> (r: Self)
        ensures
            r@ == Seq::<Seq<char>>::empty(),
    {
        let r = InternMap { names: Vec::new() };
        proof {
            assert(r@ =~= Seq::<Seq<char>>::empty());
        }
        r
    }

    /// Return `(iid, is_new)` for `name`: the id of its first insertion,
    /// and whether this call inserted it.
    pub fn get_iid(&mut self, name: &str) -> (r: (u64, bool))
        ensures
            r.1 == !has_name(old(self)@, name@),
            final(self)@ == intern_after(old(self)@, name@),
            r.0 as nat == name_iid(old(self)@, name@),
            1 <= r.0,
    {
        let key: String = name.to_owned();
        let n = self.names.len();
        let mut i: usize = 0;
        while i < n
            invariant
                n == self.names.len(),
                i <= n,
                key@ == name@,
                forall|j: int| 0 <= j < i ==> self@[j] != name@,
            decreases n - i,
        {
            if self.names[i] == key {
                proof {
                    assert(self@[i as int] == name@);
                    lemma_name_iid_first(self@, name@, i as int);
                }
                return (i as u64 + 1, false);
            }
            i += 1;
        }
        proof {
            assert(forall|j: int| 0 <= j < self@.len() ==> self@[j] != name@);
            lemma_name_iid_absent(self@, name@);
        }
        self.names.push(key);
        let m = self.names.len();
        proof {
            assert(self@ =~= old(self)@.push(name@));
        }
        (m as u64, true)
    }

    /// Drop all entries; the next id is `1` again.
    pub fn reset(&mut self)
        ensures
            final(self)@ == Seq::<Seq<char>>::empty(),
    {
        self.names.clear();
        proof {
            assert(self@ =~= Seq::<Seq<char>>::empty());
        }
    }
}

/// The two dictionaries of one packet sequence, seen by the contracts as
/// the interned names in insertion order.
#[verifier::ext_equal]
pub struct InternView {
    pub events: Seq<Seq<char>>,
    pub anns: Seq<Seq<char>>,
}

/// The empty interning state, as after `reset`.
pub open spec fn intern_empty() -> InternView {
    InternView { events: Seq::empty(), anns: Seq::empty() }
}

/// The interning dictionary pair used by the writer.
pub struct Interned {
    event_names: InternMap,
    debug_annotation_names: InternMap,
}

impl View for Interned {
    type V = InternView;

    closed spec fn view(&self) -> InternView {
        InternView { events: self.event_names@, anns: self.debug_annotation_names@ }
    }
}

impl Default for Interned {
    fn default() -> (r: Self)
        ensures
            r@ == intern_empty(),
    {
        Interned::new()
    }
}

impl Interned {
    pub fn new() -> (r: Self)
        ensures
            r@ == intern_empty(),
    {
        Interned { event_names: InternMap::new(), debug_annotation_names: InternMap::new() }
    }

    /// Intern an event name.
    pub fn event_name(&mut self, name: &str) -> (r: (u64, bool))
        ensures
            r.1 == !has_name(old(self)@.events, name@),
            final(self)@.events == intern_after(old(self)@.events, name@),
            final(self)@.anns == old(self)@.anns,
            r.0 as nat == name_iid(old(self)@.events, name@),
            1 <= r.0,
    {
        self.event_names.get_iid(name)
    }

    /// Intern a debug-annotation name.
    pub fn debug_annotation_name(&mut self, name: &str) -> (r: (u64, bool))
        ensures
            r.1 == !has_name(old(self)@.anns, name@),
            final(self)@.anns == intern_after(old(self)@.anns, name@),
            final(self)@.events == old(self)@.events,
            r.0 as nat == name_iid(old(self)@.anns, name@),
            1 <= r.0,
    {
        self.debug_annotation_names.get_iid(name)
    }

    /// Forget both dictionaries, as at the start of a new sequence.
    pub fn reset(&mut self)
        ensures
            final(self)@ == intern_empty(),
    {
        self.event_names.reset();
        self.debug_annotation_names.reset();
    }
}

} // verus!
