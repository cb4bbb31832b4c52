//! Startup parameters of a PostgreSQL connection.
use vstd::prelude::*;

use crate::text;

verus! {

/// A map from parameter names to values. Names are compared exactly.
#[derive(Debug)]
pub struct StartupParams {
    entries: Vec<(String, String)>,
}

/// No name occurs twice.
spec fn distinct(entries: Seq<(String, String)>) -> bool {
    forall|i: int, j: int|
        0 <= i < j < entries.len() ==> (#[trigger] entries[i]).0@ != (#[trigger] entries[j]).0@
}

/// The map that `entries` lists; a later entry wins over an earlier one.
spec fn listed(entries: Seq<(String, String)>) -> Map<Seq<char>, Seq<char>>
    decreases entries.len(),
{
    if entries.len() == 0 {
        Map::empty()
    } else {
        listed(entries.drop_last()).insert(entries.last().0@, entries.last().1@)
    }
}

impl View for StartupParams {
    type V = Map<Seq<char>, Seq<char>>;

    closed spec fn view(&self) -> Map<Seq<char>, Seq<char>> {
        listed(self.entries@)
    }
}

/// Every name in the map is listed at one place, and every place is in the map.
proof fn lemma_listed(entries: Seq<(String, String)>)
    requires
        distinct(entries),
    ensures
        forall|i: int|
            0 <= i < entries.len() ==> {
                &&& listed(entries).dom().contains((#[trigger] entries[i]).0@)
                &&& listed(entries)[entries[i].0@] == entries[i].1@
            },
        forall|name: Seq<char>| #[trigger]
            listed(entries).dom().contains(name) ==> exists|i: int|
                0 <= i < entries.len() && (#[trigger] entries[i]).0@ == name,
        listed(entries).dom().finite(),
    decreases entries.len(),
{
    if entries.len() > 0 {
        let front = entries.drop_last();
        lemma_listed(front);
        assert forall|i: int| 0 <= i < entries.len() implies {
            &&& listed(entries).dom().contains((#[trigger] entries[i]).0@)
            &&& listed(entries)[entries[i].0@] == entries[i].1@
        } by {
            if i < front.len() {
                assert(entries[i] == front[i]);
                assert(entries[i].0@ != entries[entries.len() - 1].0@);
            }
        }
        assert forall|name: Seq<char>| #[trigger]
            listed(entries).dom().contains(name) implies exists|i: int|
            0 <= i < entries.len() && (#[trigger] entries[i]).0@ == name by {
            if name == entries.last().0@ {
                assert(entries[entries.len() - 1].0@ == name);
            } else {
                assert(listed(front).dom().contains(name));
                let i = choose|i: int| 0 <= i < front.len() && (#[trigger] front[i]).0@ == name;
                assert(entries[i].0@ == name);
            }
        }
    }
}

impl StartupParams {
    #[verifier::type_invariant]
    spec fn names_are_distinct(self) -> bool {
        distinct(self.entries@)
    }

    /// No parameters.
    pub fn new() -> (params: StartupParams)
        ensures
            params@ == Map::<Seq<char>, Seq<char>>::empty(),
    {
        StartupParams { entries: Vec::new() }
    }

    /// The parameters as pairs of a name and its value, in no particular order.
    pub fn pairs(&self) -> (pairs: &Vec<(String, String)>)
        ensures
            forall|i: int|
                0 <= i < pairs@.len() ==> self@.dom().contains((#[trigger] pairs@[i]).0@)
                    && self@[pairs@[i].0@] == pairs@[i].1@,
            forall|name: Seq<char>| #[trigger]
                self@.dom().contains(name) ==> exists|i: int|
                    0 <= i < pairs@.len() && (#[trigger] pairs@[i]).0@ == name,
            forall|i: int, j: int|
                0 <= i < j < pairs@.len() ==> (#[trigger] pairs@[i]).0@ != (#[trigger] pairs@[j]).0@,
    {
        proof {
            use_type_invariant(self);
            lemma_listed(self.entries@);
        }
        &self.entries
    }

    /// The place at which `name` is listed.
    fn position(&self, name: &str) -> (place: Option<usize>)
        ensures
            match place {
                Some(i) => i < self.entries@.len() && self.entries@[i as int].0@ == name@,
                None => forall|i: int|
                    0 <= i < self.entries@.len() ==> (#[trigger] self.entries@[i]).0@ != name@,
            },
    {
        let mut i: usize = 0;
        while i < self.entries.len()
            invariant
                i <= self.entries@.len(),
                forall|k: int| 0 <= k < i ==> (#[trigger] self.entries@[k]).0@ != name@,
            decreases self.entries@.len() - i,
        {
            if text::same_text(self.entries[i].0.as_str(), name) {
                return Some(i);
            }
            i += 1;
        }
        None
    }

    /// The value of `name`.
    pub fn get(&self, name: &str) -> (value: Option<&String>)
        ensures
            match value {
                Some(text) => self@.dom().contains(name@) && self@[name@] == text@,
                None => !self@.dom().contains(name@),
            },
    {
        proof {
            use_type_invariant(self);
            lemma_listed(self.entries@);
        }
        match self.position(name) {
            Some(i) => Some(&self.entries[i].1),
            None => None,
        }
    }

    /// Whether `name` has a value.
    pub fn contains_key(&self, name: &str) -> (found: bool)
        ensures
            found == self@.dom().contains(name@),
    {
        self.get(name).is_some()
    }

    /// Whether no name has a value.
    pub fn is_empty(&self) -> (empty: bool)
        ensures
            empty == (self@ == Map::<Seq<char>, Seq<char>>::empty()),
    {
        proof {
            use_type_invariant(self);
            lemma_listed(self.entries@);
            if self.entries@.len() > 0 {
                assert(self@.dom().contains(self.entries@[0].0@));
            }
        }
        self.entries.len() == 0
    }

    /// Give `name` the value `value`, in place of any earlier one.
    pub fn insert(&mut self, name: String, value: String)
        ensures
            final(self)@ == old(self)@.insert(name@, value@),
    {
        proof {
            use_type_invariant(&*self);
        }
        let place = self.position(name.as_str());
        let mut entries: Vec<(String, String)> = Vec::new();
        std::mem::swap(&mut entries, &mut self.entries);
        let ghost before = entries@;
        match place {
            Some(i) => {
                entries.set(i, (name, value));
                proof {
                    assert(distinct(entries@)) by {
                        assert forall|a: int, b: int| 0 <= a < b < entries@.len() implies (
                        #[trigger] entries@[a]).0@ != (#[trigger] entries@[b]).0@ by {
                            assert(before[a].0@ != before[b].0@);
                        }
                    }
                    lemma_listed(before);
                    lemma_listed(entries@);
                    lemma_same_map(entries@, listed(before).insert(name@, value@), before, i as int);
                }
            },
            None => {
                entries.push((name, value));
                assert(entries@.drop_last() =~= before);
            },
        }
        self.entries = entries;
    }

    /// Take away the value of `name`.
    pub fn remove(&mut self, name: &str)
        ensures
            final(self)@ == old(self)@.remove(name@),
    {
        let kept = self.without(name, name);
        *self = kept;
    }

    /// The parameters other than `first` and `second`.
    pub fn without(&self, first: &str, second: &str) -> (kept: StartupParams)
        ensures
            kept@ == self@.remove(first@).remove(second@),
    {
        proof {
            use_type_invariant(self);
            lemma_listed(self.entries@);
        }
        let mut kept = StartupParams::new();
        let mut i: usize = 0;
        while i < self.entries.len()
            invariant
                i <= self.entries@.len(),
                kept@ == listed(self.entries@.take(i as int)).remove(first@).remove(second@),
            decreases self.entries@.len() - i,
        {
            proof {
                assert(self.entries@.take(i + 1).drop_last() =~= self.entries@.take(i as int));
                assert(self.entries@.take(i + 1).last() == self.entries@[i as int]);
            }
            let name = &self.entries[i].0;
            if !text::same_text(name.as_str(), first) && !text::same_text(name.as_str(), second) {
                kept.insert(name.clone(), self.entries[i].1.clone());
            }
            i += 1;
            assert(kept@ =~= listed(self.entries@.take(i as int)).remove(first@).remove(second@));
        }
        assert(self.entries@.take(i as int) =~= self.entries@);
        kept
    }

    /// Whether every parameter of `self` has the same value in `other`.
    fn included_in(&self, other: &StartupParams) -> (included: bool)
        ensures
            included == (forall|name: Seq<char>| #[trigger]
                self@.dom().contains(name) ==> other@.dom().contains(name) && other@[name]
                    == self@[name]),
    {
        proof {
            use_type_invariant(self);
            lemma_listed(self.entries@);
        }
        let mut i: usize = 0;
        while i < self.entries.len()
            invariant
                i <= self.entries@.len(),
                forall|k: int|
                    0 <= k < i ==> other@.dom().contains((#[trigger] self.entries@[k]).0@)
                        && other@[self.entries@[k].0@] == self.entries@[k].1@,
                forall|k: int|
                    0 <= k < self.entries@.len() ==> self@.dom().contains(
                        (#[trigger] self.entries@[k]).0@,
                    ) && self@[self.entries@[k].0@] == self.entries@[k].1@,
            decreases self.entries@.len() - i,
        {
            match other.get(self.entries[i].0.as_str()) {
                Some(value) => {
                    if !text::same_text(value.as_str(), self.entries[i].1.as_str()) {
                        return false;
                    }
                },
                None => {
                    return false;
                },
            }
            i += 1;
        }
        true
    }

    /// Whether the two maps are equal.
    pub fn same(&self, other: &StartupParams) -> (same: bool)
        ensures
            same == (self@ == other@),
    {
        let same = self.included_in(other) && other.included_in(self);
        assert(same ==> self@ =~= other@);
        same
    }
}

/// Replacing the value of one listed name changes the map at that name only.
proof fn lemma_same_map(
    entries: Seq<(String, String)>,
    expected: Map<Seq<char>, Seq<char>>,
    before: Seq<(String, String)>,
    i: int,
)
    requires
        distinct(entries),
        distinct(before),
        entries.len() == before.len(),
        0 <= i < entries.len(),
        entries[i].0@ == before[i].0@,
        forall|k: int| 0 <= k < entries.len() && k != i ==> entries[k] == before[k],
        expected == listed(before).insert(entries[i].0@, entries[i].1@),
    ensures
        listed(entries) == expected,
{
    lemma_listed(before);
    lemma_listed(entries);
    assert forall|name: Seq<char>| #[trigger]
        listed(entries).dom().contains(name) == expected.dom().contains(name) by {
        if listed(entries).dom().contains(name) {
            let k = choose|k: int| 0 <= k < entries.len() && (#[trigger] entries[k]).0@ == name;
            assert(listed(before).dom().contains(before[k].0@));
        }
        if listed(before).dom().contains(name) {
            let k = choose|k: int| 0 <= k < before.len() && (#[trigger] before[k]).0@ == name;
            assert(listed(entries).dom().contains(entries[k].0@));
        }
    }
    assert forall|name: Seq<char>| #[trigger]
        listed(entries).dom().contains(name) implies listed(entries)[name] == expected[name] by {
        let k = choose|k: int| 0 <= k < entries.len() && (#[trigger] entries[k]).0@ == name;
        if k != i {
            assert(before[k].0@ == name);
            assert(entries[k].0@ != entries[i].0@);
        }
    }
    assert(listed(entries) =~= expected);
}

impl Clone for StartupParams {
    fn clone(&self) -> (copy: StartupParams)
        ensures
            copy@ == self@,
    {
        let mut copy = StartupParams::new();
        let mut i: usize = 0;
        while i < self.entries.len()
            invariant
                i <= self.entries@.len(),
                copy@ == listed(self.entries@.take(i as int)),
            decreases self.entries@.len() - i,
        {
            proof {
                assert(self.entries@.take(i + 1).drop_last() =~= self.entries@.take(i as int));
                assert(self.entries@.take(i + 1).last() == self.entries@[i as int]);
            }
            copy.insert(self.entries[i].0.clone(), self.entries[i].1.clone());
            i += 1;
        }
        assert(self.entries@.take(i as int) =~= self.entries@);
        copy
    }
}

impl Default for StartupParams {
    fn default() -> (params: StartupParams)
        ensures
            params@ == Map::<Seq<char>, Seq<char>>::empty(),
    {
        StartupParams::new()
    }
}

impl PartialEq for StartupParams {
    fn eq(&self, other: &StartupParams) -> (same: bool) {
        self.same(other)
    }
}

impl vstd::std_specs::cmp::PartialEqSpecImpl for StartupParams {
    open spec fn obeys_eq_spec() -> bool {
        true
    }

    open spec fn eq_spec(&self, other: &StartupParams) -> bool {
        self@ == other@
    }
}

impl Eq for StartupParams {

}

/// A parameter has the value that it was last given; giving it one leaves the
/// others as they are.
pub proof fn lemma_given_values_are_kept(
    params: &mut StartupParams,
    name: String,
    value: String,
    other: &str,
    given: StartupParams,
    found: Option<&String>,
    before: Option<&String>,
)
    requires
        call_ensures(StartupParams::insert, (params, name, value), ()),
        given@ == final(params)@,
        call_ensures(StartupParams::get, (&given, other), found),
        call_ensures(StartupParams::get, (old(params), other), before),
    ensures
        other@ == name@ ==> found is Some && found->Some_0@ == value@,
        other@ != name@ ==> (found is Some <==> before is Some),
        other@ != name@ && before is Some ==> found->Some_0@ == before->Some_0@,
{
}

/// Taking parameters away takes away these and no others.
pub proof fn lemma_others_are_kept(
    params: StartupParams,
    first: &str,
    second: &str,
    kept: StartupParams,
    other: &str,
    found: Option<&String>,
    before: Option<&String>,
)
    requires
        call_ensures(StartupParams::without, (&params, first, second), kept),
        call_ensures(StartupParams::get, (&kept, other), found),
        call_ensures(StartupParams::get, (&params, other), before),
    ensures
        other@ == first@ || other@ == second@ ==> found is None,
        other@ != first@ && other@ != second@ ==> (found is Some <==> before is Some),
        found is Some ==> found->Some_0@ == before->Some_0@,
{
}

/// Two maps are the same exactly when they give the same values to the same names.
pub proof fn lemma_sameness(left: StartupParams, right: StartupParams, same: bool)
    requires
        call_ensures(StartupParams::same, (&left, &right), same),
    ensures
        same <==> {
            &&& forall|name: Seq<char>| #[trigger]
                left@.dom().contains(name) <==> right@.dom().contains(name)
            &&& forall|name: Seq<char>| #[trigger]
                left@.dom().contains(name) ==> left@[name] == right@[name]
        },
{
    if (forall|name: Seq<char>| #[trigger]
        left@.dom().contains(name) <==> right@.dom().contains(name)) && (forall|name: Seq<char>|
     #[trigger]
        left@.dom().contains(name) ==> left@[name] == right@[name]) {
        assert(left@ =~= right@);
    }
}

} // verus!
