//! A name-to-number map that keeps its names in text order, as the ordered
//! maps of crisp inputs and linear coefficients do.
use crate::float_bits::FloatBits;
use crate::text::{lemma_lex_irreflexive, lemma_lex_total, lemma_lex_transitive, lex_lt, text_eq, text_lt};
use vstd::prelude::*;

verus! {

/// Names strictly increase along the entries.
pub open spec fn names_sorted(s: Seq<(String, FloatBits)>) -> bool {
    forall|i: int, j: int| 0 <= i < j < s.len() ==> lex_lt(#[trigger] s[i].0@, #[trigger] s[j].0@)
}

/// The value bound to `name`, if any.
pub open spec fn lookup(s: Seq<(String, FloatBits)>, name: Seq<char>) -> Option<FloatBits> {
    if exists|i: int| 0 <= i < s.len() && #[trigger] s[i].0@ == name {
        Some(s[choose|i: int| 0 <= i < s.len() && #[trigger] s[i].0@ == name].1)
    } else {
        None
    }
}

/// Ordered map from names to binary64 numbers.
///
/// Its view is the sequence of `(name, value)` entries in increasing name
/// order, each name at most once.
#[derive(Debug)]
pub struct NamedValues {
    entries: Vec<(String, FloatBits)>,
}

impl View for NamedValues {
    type V = Seq<(String, FloatBits)>;

    closed spec fn view(&self) -> Seq<(String, FloatBits)> {
        self.entries@
    }
}

impl NamedValues {
    #[verifier::type_invariant]
    closed spec fn sorted(self) -> bool {
        names_sorted(self@)
    }

    /// An empty map.
    pub fn new() -> (r: NamedValues)
        ensures
            r@ == Seq::<(String, FloatBits)>::empty(),
    {
        let r = NamedValues { entries: Vec::new() };
        assert(r@ =~= Seq::<(String, FloatBits)>::empty());
        r
    }

    /// Number of entries.
    pub fn len(&self) -> (n: usize)
        ensures
            n == self@.len(),
            names_sorted(self@),
    {
        proof {
            use_type_invariant(self);
        }
        self.entries.len()
    }

    /// `true` when there are no entries.
    pub fn is_empty(&self) -> (b: bool)
        ensures
            b == (self@.len() == 0),
    {
        self.entries.len() == 0
    }

    /// The name of entry `i`.
    pub fn name_at(&self, i: usize) -> (r: &String)
        requires
            i < self@.len(),
        ensures
            r == self@[i as int].0,
    {
        &self.entries[i].0
    }

    /// The value of entry `i`.
    pub fn value_at(&self, i: usize) -> (r: FloatBits)
        requires
            i < self@.len(),
        ensures
            r == self@[i as int].1,
    {
        self.entries[i].1
    }

    /// The position of `name`, if it is bound.
    pub fn position(&self, name: &str) -> (r: Option<usize>)
        ensures
            r matches Some(i) ==> i < self@.len() && self@[i as int].0@ == name@,
            r is None ==> forall|i: int| 0 <= i < self@.len() ==> #[trigger] self@[i].0@ != name@,
    {
        let n = self.entries.len();
        let mut i: usize = 0;
        while i < n
            invariant
                n == self@.len(),
                i <= n,
                forall|j: int| 0 <= j < i ==> #[trigger] self@[j].0@ != name@,
            decreases n - i,
        {
            if text_eq(self.entries[i].0.as_str(), name) {
                return Some(i);
            }
            i = i + 1;
        }
        None
    }

    /// `BTreeMap::get`: the value bound to `name`.
    pub fn get(&self, name: &str) -> (r: Option<FloatBits>)
        ensures
            r == lookup(self@, name@),
    {
        match self.position(name) {
            Some(i) => {
                proof {
                    use_type_invariant(self);
                    let k = choose|k: int| 0 <= k < self@.len() && #[trigger] self@[k].0@ == name@;
                    if k != i as int {
                        if k < i {
                            assert(lex_lt(self@[k].0@, self@[i as int].0@));
                        } else {
                            assert(lex_lt(self@[i as int].0@, self@[k].0@));
                        }
                        lemma_lex_irreflexive(name@);
                    }
                }
                Some(self.entries[i].1)
            },
            None => None,
        }
    }

    /// `BTreeMap::contains_key`.
    pub fn contains_key(&self, name: &str) -> (r: bool)
        ensures
            r == (lookup(self@, name@) is Some),
            r == (exists|i: int| 0 <= i < self@.len() && #[trigger] self@[i].0@ == name@),
    {
        self.position(name).is_some()
    }

    /// `BTreeMap::insert`: binds `name` to `value`, in place of an earlier
    /// binding, which it returns.
    pub fn insert(&mut self, name: String, value: FloatBits) -> (r: Option<FloatBits>)
        ensures
            r == lookup(old(self)@, name@),
            lookup(final(self)@, name@) == Some(value),
            forall|k: Seq<char>| k != name@ ==> lookup(final(self)@, k) == lookup(old(self)@, k),
            r is Some ==> final(self)@.len() == old(self)@.len(),
            r is None ==> final(self)@.len() == old(self)@.len() + 1,
    {
        proof {
            use_type_invariant(&*self);
        }
        let ghost old_view = self@;
        let mut entries: Vec<(String, FloatBits)> = Vec::new();
        core::mem::swap(&mut entries, &mut self.entries);
        assert(entries@ == old_view);
        let n = entries.len();
        let mut i: usize = 0;
        // find the first entry whose name is not below `name`
        while i < n && text_lt(entries[i].0.as_str(), name.as_str())
            invariant
                n == entries@.len(),
                i <= n,
                entries@ == old_view,
                forall|j: int| 0 <= j < i ==> lex_lt(#[trigger] old_view[j].0@, name@),
            decreases n - i,
        {
            i = i + 1;
        }
        let ghost name_s = name;
        let ghost name_v = name@;
        if i < n && text_eq(entries[i].0.as_str(), name.as_str()) {
            let previous = entries[i].1;
            let ghost before = entries@;
            entries.set(i, (name, value));
            let ghost new_view = entries@;
            proof {
                assert(new_view =~= old_view.update(i as int, (name_s, value)));
                assert forall|a: int, b: int| 0 <= a < b < new_view.len() implies lex_lt(
                    #[trigger] new_view[a].0@,
                    #[trigger] new_view[b].0@,
                ) by {
                    assert(new_view[a].0@ == old_view[a].0@);
                    assert(new_view[b].0@ == old_view[b].0@);
                }
                lemma_lookup_at(old_view, i as int);
                lemma_lookup_at(new_view, i as int);
                assert forall|k: Seq<char>| k != name_v implies lookup(new_view, k) == lookup(
                    old_view,
                    k,
                ) by {
                    if exists|j: int| 0 <= j < new_view.len() && #[trigger] new_view[j].0@ == k {
                        let j = choose|j: int| 0 <= j < new_view.len() && #[trigger] new_view[j].0@ == k;
                        lemma_lookup_at(new_view, j);
                        lemma_lookup_at(old_view, j);
                    } else {
                        assert forall|j: int| 0 <= j < old_view.len() implies #[trigger] old_view[j].0@ != k by {
                            assert(new_view[j].0@ == old_view[j].0@ || j == i);
                        }
                    }
                }
            }
            self.entries = entries;
            Some(previous)
        } else {
            entries.insert(i, (name, value));
            let ghost new_view = entries@;
            proof {
                assert(new_view =~= old_view.insert(i as int, (name_s, value)));
                if i < n {
                    lemma_lex_total(old_view[i as int].0@, name_v);
                    assert(lex_lt(name_v, old_view[i as int].0@));
                }
                assert forall|a: int, b: int| 0 <= a < b < new_view.len() implies lex_lt(
                    #[trigger] new_view[a].0@,
                    #[trigger] new_view[b].0@,
                ) by {
                    if a < i && b < i {
                        assert(new_view[a] == old_view[a]);
                        assert(new_view[b] == old_view[b]);
                    } else if a < i && b == i {
                        assert(new_view[a] == old_view[a]);
                    } else if a < i && b > i {
                        assert(new_view[a] == old_view[a]);
                        assert(new_view[b] == old_view[b - 1]);
                        assert(lex_lt(name_v, old_view[i as int].0@));
                        if b - 1 > i {
                            assert(lex_lt(old_view[i as int].0@, old_view[b - 1].0@));
                            lemma_lex_transitive(name_v, old_view[i as int].0@, old_view[b - 1].0@);
                        }
                        lemma_lex_transitive(old_view[a].0@, name_v, old_view[b - 1].0@);
                    } else if a == i {
                        assert(new_view[b] == old_view[b - 1]);
                        if b - 1 > i {
                            assert(lex_lt(old_view[i as int].0@, old_view[b - 1].0@));
                            lemma_lex_transitive(name_v, old_view[i as int].0@, old_view[b - 1].0@);
                        }
                    } else {
                        assert(new_view[a] == old_view[a - 1]);
                        assert(new_view[b] == old_view[b - 1]);
                    }
                }
                // `name` was not bound before
                assert forall|j: int| 0 <= j < old_view.len() implies #[trigger] old_view[j].0@
                    != name_v by {
                    if j < i {
                        lemma_lex_irreflexive(name_v);
                    } else if j == i {
                    } else {
                        assert(lex_lt(old_view[i as int].0@, old_view[j].0@));
                        lemma_lex_transitive(name_v, old_view[i as int].0@, old_view[j].0@);
                        lemma_lex_irreflexive(name_v);
                    }
                }
                lemma_lookup_at(new_view, i as int);
                assert forall|k: Seq<char>| k != name_v implies lookup(new_view, k) == lookup(
                    old_view,
                    k,
                ) by {
                    if exists|j: int| 0 <= j < old_view.len() && #[trigger] old_view[j].0@ == k {
                        let j = choose|j: int| 0 <= j < old_view.len() && #[trigger] old_view[j].0@ == k;
                        lemma_lookup_at(old_view, j);
                        let jj = if j < i { j } else { j + 1 };
                        assert(new_view[jj] == old_view[j]);
                        lemma_lookup_at(new_view, jj);
                    } else {
                        assert forall|j: int| 0 <= j < new_view.len() implies #[trigger] new_view[j].0@ != k by {
                            if j < i {
                                assert(new_view[j] == old_view[j]);
                            } else if j > i {
                                assert(new_view[j] == old_view[j - 1]);
                            }
                        }
                    }
                }
            }
            self.entries = entries;
            None
        }
    }
}

/// In a sorted entry list, the lookup of the name at position `i` finds
/// position `i`.
pub proof fn lemma_lookup_at(s: Seq<(String, FloatBits)>, i: int)
    requires
        names_sorted(s),
        0 <= i < s.len(),
    ensures
        lookup(s, s[i].0@) == Some(s[i].1),
{
    let k = choose|k: int| 0 <= k < s.len() && #[trigger] s[k].0@ == s[i].0@;
    if k != i {
        if k < i {
            assert(lex_lt(s[k].0@, s[i].0@));
        } else {
            assert(lex_lt(s[i].0@, s[k].0@));
        }
        lemma_lex_irreflexive(s[i].0@);
    }
}

/// A name that is bound is bound at some position, to the value there.
pub proof fn lemma_lookup_found(s: Seq<(String, FloatBits)>, name: Seq<char>)
    requires
        names_sorted(s),
        lookup(s, name) is Some,
    ensures
        exists|i: int|
            0 <= i < s.len() && #[trigger] s[i].0@ == name && s[i].1 == lookup(s, name)->0,
{
    let k = choose|k: int| 0 <= k < s.len() && #[trigger] s[k].0@ == name;
    lemma_lookup_at(s, k);
}

} // verus!
