//! Alphabet symbols and finite sets of symbols.

use vstd::prelude::*;
use crate::state::lemma_name_set_snoc;
use crate::state::name_set;

verus! {

/// An alphabet symbol, wrapping a string value. Two symbols are equal
/// exactly when their values are equal; the view of a symbol is its
/// value as a sequence of characters.
#[derive(Debug)]
pub struct Symbol {
    symbol: String,
}

impl View for Symbol {
    type V = Seq<char>;

    closed spec fn view(&self) -> Seq<char> {
        self.symbol@
    }
}

/// Relies on `String::from(char)`: a string holding exactly the one
/// given character.
#[verifier::external_body]
fn char_to_string(c: char) -> (r: String)
    ensures
        r@ == seq![c],
{
    String::from(c)
}

impl Symbol {
    /// Wrap a string value into a symbol.
    pub fn new(_symbol: String) -> (r: Self)
        ensures
            r@ == _symbol@,
    {
        Symbol { symbol: _symbol }
    }

    /// The symbol for a single character, as read from an input word.
    pub fn from_char(c: char) -> (r: Self)
        ensures
            r@ == seq![c],
    {
        Symbol::new(char_to_string(c))
    }

    /// The string value of the symbol.
    pub fn get_symbol(&self) -> (r: &String)
        ensures
            r@ == self@,
    {
        &self.symbol
    }
}

impl Clone for Symbol {
    fn clone(&self) -> (r: Self)
        ensures
            r@ == self@,
    {
        Symbol { symbol: self.symbol.clone() }
    }
}

impl PartialEq for Symbol {
    fn eq(&self, other: &Symbol) -> (r: bool) {
        self.symbol == other.symbol
    }
}

impl vstd::std_specs::cmp::PartialEqSpecImpl for Symbol {
    open spec fn obeys_eq_spec() -> bool {
        true
    }

    open spec fn eq_spec(&self, other: &Symbol) -> bool {
        self@ == other@
    }
}

/// The set of values of the symbols in a sequence.
pub open spec fn symbol_values(items: Seq<Symbol>) -> Set<Seq<char>> {
    Set::new(|n: Seq<char>| exists|i: int| 0 <= i < items.len() && items[i]@ == n)
}

/// A finite set of symbols, backed by a vector. The view of the set is
/// the set of its members' values; how the members are laid out inside
/// the vector is not observable.
#[derive(Debug)]
pub struct SymbolSet {
    items: Vec<Symbol>,
}

impl View for SymbolSet {
    type V = Set<Seq<char>>;

    closed spec fn view(&self) -> Set<Seq<char>> {
        symbol_values(self.items@)
    }
}

impl SymbolSet {
    /// The empty set of symbols.
    pub fn new() -> (r: Self)
        ensures
            r@ == Set::<Seq<char>>::empty(),
    {
        let r = SymbolSet { items: Vec::new() };
        proof {
            assert(r@ =~= Set::<Seq<char>>::empty());
        }
        r
    }

    /// Whether a symbol with this symbol's value is a member.
    pub fn contains(&self, s: &Symbol) -> (r: bool)
        ensures
            r == self@.contains(s@),
    {
        let mut i: usize = 0;
        while i < self.items.len()
            invariant
                0 <= i <= self.items.len(),
                forall|j: int| 0 <= j < i ==> self.items[j]@ != s@,
            decreases self.items.len() - i,
        {
            if self.items[i] == *s {
                return true;
            }
            i += 1;
        }
        false
    }

    /// Add a symbol; the resulting set holds its value as well.
    pub fn insert(&mut self, s: Symbol)
        ensures
            final(self)@ == old(self)@.insert(s@),
    {
        if !self.contains(&s) {
            let ghost before = self.items@;
            let ghost n = s@;
            self.items.push(s);
            proof {
                assert forall|m: Seq<char>| self@.contains(m) implies old(self)@.insert(n).contains(
                    m,
                ) by {
                    let j = choose|j: int|
                        0 <= j < self.items@.len() && #[trigger] self.items@[j]@ == m;
                    if j < before.len() {
                        assert(before[j]@ == m);
                    }
                }
                assert forall|m: Seq<char>| old(self)@.insert(n).contains(m) implies self@.contains(
                    m,
                ) by {
                    if old(self)@.contains(m) {
                        let j = choose|j: int| 0 <= j < before.len() && #[trigger] before[j]@ == m;
                        assert(self.items@[j]@ == m);
                    } else {
                        assert(self.items@[before.len() as int]@ == m);
                    }
                }
                assert(self@ =~= old(self)@.insert(n));
            }
        } else {
            proof {
                assert(old(self)@.insert(s@) =~= old(self)@);
            }
        }
    }

    /// The set holding exactly the given string values.
    pub fn from_values(values: &Vec<String>) -> (r: Self)
        ensures
            r@ == name_set(values@),
    {
        let mut r = SymbolSet::new();
        proof {
            assert(r@ =~= name_set(values@.take(0)));
        }
        let mut i: usize = 0;
        while i < values.len()
            invariant
                0 <= i <= values.len(),
                r@ == name_set(values@.take(i as int)),
            decreases values.len() - i,
        {
            proof {
                lemma_name_set_snoc(values@, i as int);
            }
            r.insert(Symbol::new(values[i].clone()));
            i += 1;
        }
        proof {
            assert(values@.take(values@.len() as int) =~= values@);
        }
        r
    }

    /// The members, as a vector that carries exactly the values of the set.
    pub fn as_vec(&self) -> (r: &Vec<Symbol>)
        ensures
            symbol_values(r@) == self@,
    {
        &self.items
    }
}

impl Clone for SymbolSet {
    fn clone(&self) -> (r: Self)
        ensures
            r@ == self@,
    {
        let mut items: Vec<Symbol> = Vec::new();
        let mut i: usize = 0;
        while i < self.items.len()
            invariant
                0 <= i <= self.items.len(),
                items@.len() == i,
                forall|j: int| 0 <= j < i ==> items@[j]@ == self.items@[j]@,
            decreases self.items.len() - i,
        {
            items.push(self.items[i].clone());
            i += 1;
        }
        let r = SymbolSet { items };
        proof {
            assert forall|m: Seq<char>| r@.contains(m) implies self@.contains(m) by {
                let j = choose|j: int| 0 <= j < r.items@.len() && #[trigger] r.items@[j]@ == m;
                assert(self.items@[j]@ == m);
            }
            assert forall|m: Seq<char>| self@.contains(m) implies r@.contains(m) by {
                let j = choose|j: int|
                    0 <= j < self.items@.len() && #[trigger] self.items@[j]@ == m;
                assert(r.items@[j]@ == m);
            }
            assert(r@ =~= self@);
        }
        r
    }
}

impl PartialEq for SymbolSet {
    fn eq(&self, other: &SymbolSet) -> (r: bool) {
        let mut i: usize = 0;
        while i < self.items.len()
            invariant
                0 <= i <= self.items.len(),
                forall|j: int| 0 <= j < i ==> other@.contains(#[trigger] self.items@[j]@),
            decreases self.items.len() - i,
        {
            if !other.contains(&self.items[i]) {
                proof {
                    assert(self@.contains(self.items@[i as int]@));
                    assert(self@ != other@);
                }
                return false;
            }
            i += 1;
        }
        let mut k: usize = 0;
        while k < other.items.len()
            invariant
                0 <= k <= other.items.len(),
                forall|j: int| 0 <= j < self.items@.len() ==> other@.contains(
                    #[trigger] self.items@[j]@,
                ),
                forall|j: int| 0 <= j < k ==> self@.contains(#[trigger] other.items@[j]@),
            decreases other.items.len() - k,
        {
            if !self.contains(&other.items[k]) {
                proof {
                    assert(other@.contains(other.items@[k as int]@));
                    assert(self@ != other@);
                }
                return false;
            }
            k += 1;
        }
        proof {
            assert forall|m: Seq<char>| self@.contains(m) implies other@.contains(m) by {
                let j = choose|j: int|
                    0 <= j < self.items@.len() && #[trigger] self.items@[j]@ == m;
                assert(other@.contains(self.items@[j]@));
            }
            assert forall|m: Seq<char>| other@.contains(m) implies self@.contains(m) by {
                let j = choose|j: int|
                    0 <= j < other.items@.len() && #[trigger] other.items@[j]@ == m;
                assert(self@.contains(other.items@[j]@));
            }
            assert(self@ =~= other@);
        }
        true
    }
}

impl vstd::std_specs::cmp::PartialEqSpecImpl for SymbolSet {
    open spec fn obeys_eq_spec() -> bool {
        true
    }

    open spec fn eq_spec(&self, other: &SymbolSet) -> bool {
        self@ == other@
    }
}

} // verus!
