//! Automaton states and finite sets of states.

use vstd::prelude::*;

verus! {

/// An automaton state, identified by a name. Two states are the same
/// state exactly when their names are equal; the view of a state is
/// its name as a sequence of characters.
#[derive(Debug)]
pub struct State {
    name: String,
}

impl View for State {
    type V = Seq<char>;

    closed spec fn view(&self) -> Seq<char> {
        self.name@
    }
}

impl State {
    /// Wrap a name into a state.
    pub fn new(_name: String) -> (r: Self)
        ensures
            r@ == _name@,
    {
        State { name: _name }
    }

    /// The name of the state.
    pub fn get_name(&self) -> (r: &String)
        ensures
            r@ == self@,
    {
        &self.name
    }
}

impl Clone for State {
    fn clone(&self) -> (r: Self)
        ensures
            r@ == self@,
    {
        State { name: self.name.clone() }
    }
}

impl PartialEq for State {
    fn eq(&self, other: &State) -> (r: bool) {
        self.name == other.name
    }
}

impl vstd::std_specs::cmp::PartialEqSpecImpl for State {
    open spec fn obeys_eq_spec() -> bool {
        true
    }

    open spec fn eq_spec(&self, other: &State) -> bool {
        self@ == other@
    }
}

/// The set of names of the states in a sequence.
pub open spec fn state_names(items: Seq<State>) -> Set<Seq<char>> {
    Set::new(|n: Seq<char>| exists|i: int| 0 <= i < items.len() && items[i]@ == n)
}

/// The set of character sequences held by a sequence of strings.
pub open spec fn name_set(names: Seq<String>) -> Set<Seq<char>> {
    Set::new(|n: Seq<char>| exists|i: int| 0 <= i < names.len() && names[i]@ == n)
}

/// Taking one more string into a prefix adds exactly its characters
/// to the prefix's name set.
pub proof fn lemma_name_set_snoc(names: Seq<String>, i: int)
    requires
        0 <= i < names.len(),
    ensures
        name_set(names.take(i + 1)) == name_set(names.take(i)).insert(names[i]@),
{
    assert forall|n: Seq<char>| name_set(names.take(i + 1)).contains(n) implies name_set(
        names.take(i),
    ).insert(names[i]@).contains(n) by {
        let j = choose|j: int| 0 <= j < names.take(i + 1).len() && #[trigger] names.take(i + 1)[j]@
            == n;
        if j < i {
            assert(names.take(i)[j]@ == n);
        }
    }
    assert forall|n: Seq<char>| name_set(names.take(i)).insert(names[i]@).contains(n) implies
        name_set(names.take(i + 1)).contains(n) by {
        if name_set(names.take(i)).contains(n) {
            let j = choose|j: int| 0 <= j < names.take(i).len() && #[trigger] names.take(i)[j]@
                == n;
            assert(names.take(i + 1)[j]@ == n);
        } else {
            assert(names.take(i + 1)[i]@ == n);
        }
    }
    assert(name_set(names.take(i + 1)) =~= name_set(names.take(i)).insert(names[i]@));
}

/// Taking one more state into a prefix adds exactly its name to the
/// prefix's set of names.
pub proof fn lemma_state_names_snoc(items: Seq<State>, i: int)
    requires
        0 <= i < items.len(),
    ensures
        state_names(items.take(i + 1)) == state_names(items.take(i)).insert(items[i]@),
{
    assert forall|n: Seq<char>| state_names(items.take(i + 1)).contains(n) implies state_names(
        items.take(i),
    ).insert(items[i]@).contains(n) by {
        let j = choose|j: int| 0 <= j < items.take(i + 1).len() && #[trigger] items.take(i + 1)[j]@
            == n;
        if j < i {
            assert(items.take(i)[j]@ == n);
        }
    }
    assert forall|n: Seq<char>| state_names(items.take(i)).insert(items[i]@).contains(n) implies
        state_names(items.take(i + 1)).contains(n) by {
        if state_names(items.take(i)).contains(n) {
            let j = choose|j: int| 0 <= j < items.take(i).len() && #[trigger] items.take(i)[j]@
                == n;
            assert(items.take(i + 1)[j]@ == n);
        } else {
            assert(items.take(i + 1)[i]@ == n);
        }
    }
    assert(state_names(items.take(i + 1)) =~= state_names(items.take(i)).insert(items[i]@));
}

/// A finite set of states, backed by a vector. The view of the set is
/// the set of its members' names; how the members are laid out inside
/// the vector is not observable.
#[derive(Debug)]
pub struct StateSet {
    items: Vec<State>,
}

impl View for StateSet {
    type V = Set<Seq<char>>;

    closed spec fn view(&self) -> Set<Seq<char>> {
        state_names(self.items@)
    }
}

impl StateSet {
    /// The empty set of states.
    pub fn new() -> (r: Self)
        ensures
            r@ == Set::<Seq<char>>::empty(),
    {
        let r = StateSet { items: Vec::new() };
        proof {
            assert(r@ =~= Set::<Seq<char>>::empty());
        }
        r
    }

    /// Whether a state with this state's name is a member.
    pub fn contains(&self, s: &State) -> (r: bool)
        ensures
            r == self@.contains(s@),
    {
        let mut i: usize = 0;
        while i < self.items.len()
            invariant
                0 <= i <= self.items.len(),
                forall|j: int| 0 <= j < i ==> self.items[j]@ != s@,
            decreases self.items.len() - i,
        {
            if self.items[i] == *s {
                return true;
            }
            i += 1;
        }
        false
    }

    /// Add a state; the resulting set holds its name as well.
    pub fn insert(&mut self, s: State)
        ensures
            final(self)@ == old(self)@.insert(s@),
    {
        if !self.contains(&s) {
            let ghost before = self.items@;
            let ghost n = s@;
            self.items.push(s);
            proof {
                assert forall|m: Seq<char>| self@.contains(m) implies old(self)@.insert(n).contains(
                    m,
                ) by {
                    let j = choose|j: int|
                        0 <= j < self.items@.len() && #[trigger] self.items@[j]@ == m;
                    if j < before.len() {
                        assert(before[j]@ == m);
                    }
                }
                assert forall|m: Seq<char>| old(self)@.insert(n).contains(m) implies self@.contains(
                    m,
                ) by {
                    if old(self)@.contains(m) {
                        let j = choose|j: int| 0 <= j < before.len() && #[trigger] before[j]@ == m;
                        assert(self.items@[j]@ == m);
                    } else {
                        assert(self.items@[before.len() as int]@ == m);
                    }
                }
                assert(self@ =~= old(self)@.insert(n));
            }
        } else {
            proof {
                assert(old(self)@.insert(s@) =~= old(self)@);
            }
        }
    }

    /// Whether the set has no member.
    pub fn is_empty(&self) -> (r: bool)
        ensures
            r == (self@ == Set::<Seq<char>>::empty()),
    {
        if self.items.len() == 0 {
            proof {
                assert(self@ =~= Set::<Seq<char>>::empty());
            }
            true
        } else {
            proof {
                assert(self@.contains(self.items@[0]@));
            }
            false
        }
    }

    /// The set holding exactly the given names.
    pub fn from_names(names: &Vec<String>) -> (r: Self)
        ensures
            r@ == name_set(names@),
    {
        let mut r = StateSet::new();
        proof {
            assert(r@ =~= name_set(names@.take(0)));
        }
        let mut i: usize = 0;
        while i < names.len()
            invariant
                0 <= i <= names.len(),
                r@ == name_set(names@.take(i as int)),
            decreases names.len() - i,
        {
            proof {
                lemma_name_set_snoc(names@, i as int);
            }
            r.insert(State::new(names[i].clone()));
            i += 1;
        }
        proof {
            assert(names@.take(names@.len() as int) =~= names@);
        }
        r
    }

    /// The members, as a vector that carries exactly the names of the set.
    pub fn as_vec(&self) -> (r: &Vec<State>)
        ensures
            state_names(r@) == self@,
    {
        &self.items
    }
}

impl Clone for StateSet {
    fn clone(&self) -> (r: Self)
        ensures
            r@ == self@,
    {
        let mut items: Vec<State> = Vec::new();
        let mut i: usize = 0;
        while i < self.items.len()
            invariant
                0 <= i <= self.items.len(),
                items@.len() == i,
                forall|j: int| 0 <= j < i ==> items@[j]@ == self.items@[j]@,
            decreases self.items.len() - i,
        {
            items.push(self.items[i].clone());
            i += 1;
        }
        let r = StateSet { items };
        proof {
            assert forall|m: Seq<char>| r@.contains(m) implies self@.contains(m) by {
                let j = choose|j: int| 0 <= j < r.items@.len() && #[trigger] r.items@[j]@ == m;
                assert(self.items@[j]@ == m);
            }
            assert forall|m: Seq<char>| self@.contains(m) implies r@.contains(m) by {
                let j = choose|j: int|
                    0 <= j < self.items@.len() && #[trigger] self.items@[j]@ == m;
                assert(r.items@[j]@ == m);
            }
            assert(r@ =~= self@);
        }
        r
    }
}

impl PartialEq for StateSet {
    fn eq(&self, other: &StateSet) -> (r: bool) {
        let mut i: usize = 0;
        while i < self.items.len()
            invariant
                0 <= i <= self.items.len(),
                forall|j: int| 0 <= j < i ==> other@.contains(#[trigger] self.items@[j]@),
            decreases self.items.len() - i,
        {
            if !other.contains(&self.items[i]) {
                proof {
                    assert(self@.contains(self.items@[i as int]@));
                    assert(self@ != other@);
                }
                return false;
            }
            i += 1;
        }
        let mut k: usize = 0;
        while k < other.items.len()
            invariant
                0 <= k <= other.items.len(),
                forall|j: int| 0 <= j < self.items@.len() ==> other@.contains(
                    #[trigger] self.items@[j]@,
                ),
                forall|j: int| 0 <= j < k ==> self@.contains(#[trigger] other.items@[j]@),
            decreases other.items.len() - k,
        {
            if !self.contains(&other.items[k]) {
                proof {
                    assert(other@.contains(other.items@[k as int]@));
                    assert(self@ != other@);
                }
                return false;
            }
            k += 1;
        }
        proof {
            assert forall|m: Seq<char>| self@.contains(m) implies other@.contains(m) by {
                let j = choose|j: int|
                    0 <= j < self.items@.len() && #[trigger] self.items@[j]@ == m;
                assert(other@.contains(self.items@[j]@));
            }
            assert forall|m: Seq<char>| other@.contains(m) implies self@.contains(m) by {
                let j = choose|j: int|
                    0 <= j < other.items@.len() && #[trigger] other.items@[j]@ == m;
                assert(self@.contains(other.items@[j]@));
            }
            assert(self@ =~= other@);
        }
        true
    }
}

impl vstd::std_specs::cmp::PartialEqSpecImpl for StateSet {
    open spec fn obeys_eq_spec() -> bool {
        true
    }

    open spec fn eq_spec(&self, other: &StateSet) -> bool {
        self@ == other@
    }
}

} // verus!
