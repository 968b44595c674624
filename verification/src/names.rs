//! Sorted sets of names.

use vstd::prelude::*;

use crate::text;

verus! {

/// Whether a list of names is in ascending order, without repeats.
pub open spec fn sorted(s: Seq<Seq<char>>) -> bool {
    forall|i: int, j: int| 0 <= i < j < s.len() ==> text::lex_lt(#[trigger] s[i], #[trigger] s[j])
}

/// The names of a set in ascending order.
pub open spec fn listing(s: Set<Seq<char>>) -> Seq<Seq<char>> {
    choose|l: Seq<Seq<char>>| sorted(l) && #[trigger] l.to_set() == s
}

/// An ascending list is the listing of its names.
pub proof fn lemma_listing(l: Seq<Seq<char>>)
    requires
        sorted(l),
    ensures
        listing(l.to_set()) == l,
{
    let m = listing(l.to_set());
    assert(sorted(m) && m.to_set() == l.to_set());
    listing_is_unique(m, l);
}

/// A set of names, listed in ascending order.
#[derive(Debug, PartialEq, Eq)]
pub struct NameSet {
    items: Vec<String>,
}

impl View for NameSet {
    type V = Set<Seq<char>>;

    closed spec fn view(&self) -> Set<Seq<char>> {
        text::texts(self.items@).to_set()
    }
}

impl NameSet {
    #[verifier::type_invariant]
    spec fn in_order(self) -> bool {
        sorted(text::texts(self.items@))
    }

    pub fn new() -> (r: NameSet)
        ensures
            r@ == Set::<Seq<char>>::empty(),
    {
        let items: Vec<String> = Vec::new();
        proof {
            assert(text::texts(items@).to_set() =~= Set::<Seq<char>>::empty());
        }
        NameSet { items }
    }

    /// Add a name; adding one that is there changes nothing.
    pub fn insert(&mut self, name: &str)
        ensures
            final(self)@ == old(self)@.insert(name@),
    {
        proof {
            use_type_invariant(&*self);
        }
        let mut items: Vec<String> = Vec::new();
        std::mem::swap(&mut items, &mut self.items);
        let ghost before = text::texts(items@);
        let mut i: usize = 0;
        while i < items.len() && text::less(items[i].as_str(), name)
            invariant
                i <= items@.len(),
                before == text::texts(items@),
                forall|j: int| 0 <= j < i ==> text::lex_lt(#[trigger] before[j], name@),
            decreases items@.len() - i,
        {
            i += 1;
        }
        if i < items.len() && text::same(items[i].as_str(), name) {
            proof {
                assert(before[i as int] == name@);
                assert(before.to_set() =~= before.to_set().insert(name@));
            }
        } else {
            proof {
                lemma_insert(before, name@, i as int);
            }
            let added = name.to_string();
            items.insert(i, added);
            proof {
                assert(text::texts(items@) =~= before.insert(i as int, name@));
            }
        }
        self.items = items;
    }

    pub fn contains(&self, name: &str) -> (r: bool)
        ensures
            r == self@.contains(name@),
    {
        text::among(self.items.as_slice(), name)
    }

    pub fn len(&self) -> (r: usize)
        ensures
            r == self@.len(),
    {
        proof {
            use_type_invariant(self);
            let s = text::texts(self.items@);
            lemma_sorted_distinct(s);
            s.unique_seq_to_set();
        }
        self.items.len()
    }

    pub fn is_empty(&self) -> (r: bool)
        ensures
            r == (self@ == Set::<Seq<char>>::empty()),
    {
        proof {
            if self.items@.len() == 0 {
                assert(self@ =~= Set::<Seq<char>>::empty());
            } else {
                assert(text::texts(self.items@)[0] == self.items@[0]@);
                assert(self@.contains(self.items@[0]@));
            }
        }
        self.items.len() == 0
    }

    /// The names, in ascending order.
    pub fn list(&self) -> (r: &Vec<String>)
        ensures
            text::texts(r@) == listing(self@),
            sorted(text::texts(r@)),
            text::texts(r@).to_set() == self@,
    {
        proof {
            use_type_invariant(self);
            lemma_listing(text::texts(self.items@));
        }
        &self.items
    }
}

impl Default for NameSet {
    fn default() -> (r: NameSet)
        ensures
            r@ == Set::<Seq<char>>::empty(),
    {
        NameSet::new()
    }
}

impl Clone for NameSet {
    fn clone(&self) -> (r: NameSet)
        ensures
            r@ == self@,
    {
        proof {
            use_type_invariant(self);
        }
        NameSet { items: text::clone_all(&self.items) }
    }
}

proof fn lemma_insert(s: Seq<Seq<char>>, name: Seq<char>, i: int)
    requires
        sorted(s),
        0 <= i <= s.len(),
        forall|j: int| 0 <= j < i ==> text::lex_lt(#[trigger] s[j], name),
        i < s.len() ==> !text::lex_lt(s[i], name) && s[i] != name,
    ensures
        sorted(s.insert(i, name)),
        s.insert(i, name).to_set() == s.to_set().insert(name),
{
    let t = s.insert(i, name);
    if i < s.len() {
        text::lemma_lex_total(s[i], name);
    }
    assert forall|a: int, b: int| 0 <= a < b < t.len() implies text::lex_lt(
        #[trigger] t[a],
        #[trigger] t[b],
    ) by {
        if a == i {
            if b > i + 1 {
                assert(text::lex_lt(s[i], s[b - 1]));
                text::lemma_lex_transitive(name, s[i], s[b - 1]);
            }
        } else if b == i {
        } else {
            let x = if a < i {
                a
            } else {
                a - 1
            };
            let y = if b < i {
                b
            } else {
                b - 1
            };
            assert(t[a] == s[x] && t[b] == s[y]);
        }
    }
    assert forall|x: Seq<char>| t.to_set().contains(x) == s.to_set().insert(name).contains(x) by {
        if t.contains(x) {
            let k = choose|k: int| 0 <= k < t.len() && t[k] == x;
            if k < i {
                assert(s[k] == x);
            } else if k > i {
                assert(s[k - 1] == x);
            }
        }
        if s.contains(x) {
            let k = choose|k: int| 0 <= k < s.len() && s[k] == x;
            if k < i {
                assert(t[k] == x);
            } else {
                assert(t[k + 1] == x);
            }
        }
        assert(t[i] == name);
    }
    assert(t.to_set() =~= s.to_set().insert(name));
}

pub proof fn lemma_take_set(s: Seq<Seq<char>>, i: int)
    requires
        0 <= i < s.len(),
    ensures
        s.take(i + 1).to_set() == s.take(i).to_set().insert(s[i]),
{
    let a = s.take(i);
    let b = s.take(i + 1);
    assert forall|x: Seq<char>| b.to_set().contains(x) == a.to_set().insert(s[i]).contains(x) by {
        if b.contains(x) {
            let k = choose|k: int| 0 <= k < b.len() && b[k] == x;
            if k < i {
                assert(a[k] == x);
            }
        }
        if a.contains(x) {
            let k = choose|k: int| 0 <= k < a.len() && a[k] == x;
            assert(b[k] == x);
        }
        assert(b[i] == s[i]);
    }
    assert(b.to_set() =~= a.to_set().insert(s[i]));
}

proof fn lemma_sorted_distinct(s: Seq<Seq<char>>)
    requires
        sorted(s),
    ensures
        s.no_duplicates(),
{
    assert forall|i: int, j: int| 0 <= i < s.len() && 0 <= j < s.len() && i != j implies s[i]
        != s[j] by {
        text::lemma_lex_irreflexive(s[i]);
        if i < j {
            assert(text::lex_lt(s[i], s[j]));
        } else {
            assert(text::lex_lt(s[j], s[i]));
        }
    }
}

/// A set of names has one listing: two ascending lists of the same names are
/// the same list.
pub proof fn listing_is_unique(a: Seq<Seq<char>>, b: Seq<Seq<char>>)
    requires
        sorted(a),
        sorted(b),
        a.to_set() == b.to_set(),
    ensures
        a == b,
    decreases a.len(),
{
    if a.len() == 0 {
        if b.len() > 0 {
            assert(b.to_set().contains(b[0]));
            assert(a.contains(b[0]));
        }
        assert(a =~= b);
    } else {
        assert(a.to_set().contains(a[0]));
        assert(b.contains(a[0]));
        assert(b.to_set().contains(b[0]));
        assert(a.contains(b[0]));
        let k = choose|k: int| 0 <= k < b.len() && b[k] == a[0];
        let m = choose|m: int| 0 <= m < a.len() && a[m] == b[0];
        if k > 0 && m > 0 {
            assert(text::lex_lt(b[0], b[k]));
            assert(text::lex_lt(a[0], a[m]));
            text::lemma_lex_transitive(a[0], b[0], a[0]);
            text::lemma_lex_irreflexive(a[0]);
        }
        assert(a[0] == b[0]);
        lemma_sorted_distinct(a);
        lemma_sorted_distinct(b);
        lemma_tail_set(a);
        lemma_tail_set(b);
        listing_is_unique(a.drop_first(), b.drop_first());
        assert(a =~= seq![a[0]] + a.drop_first());
        assert(b =~= seq![b[0]] + b.drop_first());
    }
}

proof fn lemma_tail_set(s: Seq<Seq<char>>)
    requires
        s.len() > 0,
        sorted(s),
        s.no_duplicates(),
    ensures
        sorted(s.drop_first()),
        s.drop_first().to_set() == s.to_set().remove(s[0]),
{
    let t = s.drop_first();
    assert forall|x: Seq<char>| t.to_set().contains(x) == s.to_set().remove(s[0]).contains(x) by {
        if t.contains(x) {
            let k = choose|k: int| 0 <= k < t.len() && t[k] == x;
            assert(s[k + 1] == x);
        }
        if s.contains(x) && x != s[0] {
            let k = choose|k: int| 0 <= k < s.len() && s[k] == x;
            assert(t[k - 1] == x);
        }
    }
    assert(t.to_set() =~= s.to_set().remove(s[0]));
}

} // verus!
