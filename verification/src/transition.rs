//! Transition keys: a symbol paired with the state (or set of states)
//! it is read from.

use vstd::prelude::*;
use crate::symbol::Symbol;

verus! {

/// An ordered pair of a symbol and some content: the content is a
/// single source state when the pair keys a transition table, or a
/// whole set of states when one simulated step moves a frontier.
/// The view of a transition is the pair of the views of its parts.
#[derive(Debug)]
pub struct Transition<T> {
    symbol: Symbol,
    content: T,
}

impl<T: View> View for Transition<T> {
    type V = (Seq<char>, <T as View>::V);

    closed spec fn view(&self) -> Self::V {
        (self.symbol@, self.content@)
    }
}

impl<T: View> Transition<T> {
    /// Pair a symbol with its content.
    pub fn new(_symbol: Symbol, _content: T) -> (r: Self)
        ensures
            r@ == (_symbol@, _content@),
    {
        Transition { symbol: _symbol, content: _content }
    }

    /// The symbol read by the transition.
    pub fn get_symbol(&self) -> (r: &Symbol)
        ensures
            r@ == self@.0,
    {
        &self.symbol
    }

    /// The content the symbol is read from.
    pub fn get_content(&self) -> (r: &T)
        ensures
            r@ == self@.1,
    {
        &self.content
    }
}

} // verus!
