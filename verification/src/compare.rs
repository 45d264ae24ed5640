//! `==` and `<` for entries.
//!
//! Two entries are equal when their keys are the same text, and one is less
//! than another when its key comes first.

use crate::order::{chars_le, lemma_lex_le_antisymmetric, lemma_lex_le_reflexive, lex_le};
use crate::path::{key_of, LsiPath};
use std::cmp::Ordering;
use vstd::prelude::*;
use vstd::std_specs::cmp::{PartialEqSpecImpl, PartialOrdSpecImpl};

verus! {

impl PartialEq for LsiPath {
    fn eq(&self, other: &LsiPath) -> (same: bool) {
        let mine = self.key_chars();
        let theirs = other.key_chars();
        proof {
            if mine@ == theirs@ {
                lemma_lex_le_reflexive(mine@);
            }
            if lex_le(mine@, theirs@) && lex_le(theirs@, mine@) {
                lemma_lex_le_antisymmetric(mine@, theirs@);
            }
        }
        chars_le(&mine, &theirs) && chars_le(&theirs, &mine)
    }
}

impl PartialEqSpecImpl for LsiPath {
    open spec fn obeys_eq_spec() -> bool {
        true
    }

    open spec fn eq_spec(&self, other: &LsiPath) -> bool {
        key_of(self@) == key_of(other@)
    }
}

impl PartialOrd for LsiPath {
    fn partial_cmp(&self, other: &LsiPath) -> (order: Option<Ordering>) {
        let mine = self.key_chars();
        let theirs = other.key_chars();
        if chars_le(&mine, &theirs) {
            if chars_le(&theirs, &mine) {
                Some(Ordering::Equal)
            } else {
                Some(Ordering::Less)
            }
        } else {
            Some(Ordering::Greater)
        }
    }
}

impl PartialOrdSpecImpl for LsiPath {
    open spec fn obeys_partial_cmp_spec() -> bool {
        true
    }

    open spec fn partial_cmp_spec(&self, other: &LsiPath) -> Option<Ordering> {
        if lex_le(key_of(self@), key_of(other@)) {
            if lex_le(key_of(other@), key_of(self@)) {
                Some(Ordering::Equal)
            } else {
                Some(Ordering::Less)
            }
        } else {
            Some(Ordering::Greater)
        }
    }
}

} // verus!
