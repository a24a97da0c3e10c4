//! Sets of names, kept in ascending order.
use crate::text::{chars_of, join, joined, same_text, texts};
use vstd::prelude::*;

verus! {

/// Whether `a` comes before `b` when texts are ordered character by character.
pub open spec fn text_before(a: Seq<char>, b: Seq<char>) -> bool
    decreases a.len(),
{
    if b.len() == 0 {
        false
    } else if a.len() == 0 {
        true
    } else if a[0] != b[0] {
        a[0] < b[0]
    } else {
        text_before(a.drop_first(), b.drop_first())
    }
}

/// Whether each text comes before all that follow it.
pub open spec fn ascending(r: Seq<Seq<char>>) -> bool {
    forall|i: int, j: int| 0 <= i < j < r.len() ==> #[trigger] text_before(r[i], r[j])
}

/// Whether `r` lists the names of `s` in ascending order, each once.
pub open spec fn lists(r: Seq<Seq<char>>, s: Set<Seq<char>>) -> bool {
    ascending(r) && r.to_set() == s
}

/// The names of a finite set in ascending order.
pub open spec fn listing(s: Set<Seq<char>>) -> Seq<Seq<char>> {
    choose|r: Seq<Seq<char>>| lists(r, s)
}

/// No text comes before itself.
pub proof fn lemma_before_irreflexive(a: Seq<char>)
    ensures
        !text_before(a, a),
    decreases a.len(),
{
    if a.len() > 0 {
        lemma_before_irreflexive(a.drop_first());
    }
}

/// The order of texts is transitive.
pub proof fn lemma_before_transitive(a: Seq<char>, b: Seq<char>, c: Seq<char>)
    requires
        text_before(a, b),
        text_before(b, c),
    ensures
        text_before(a, c),
    decreases a.len(),
{
    if a.len() > 0 && a[0] == b[0] && b[0] == c[0] {
        lemma_before_transitive(a.drop_first(), b.drop_first(), c.drop_first());
    }
}

/// Of two different texts one comes before the other.
pub proof fn lemma_before_total(a: Seq<char>, b: Seq<char>)
    ensures
        text_before(a, b) || text_before(b, a) || a == b,
    decreases a.len(),
{
    if a.len() > 0 && b.len() > 0 && a[0] == b[0] {
        lemma_before_total(a.drop_first(), b.drop_first());
        if a.drop_first() == b.drop_first() {
            assert(a =~= seq![a[0]] + a.drop_first());
            assert(b =~= seq![b[0]] + b.drop_first());
        }
    } else if a.len() == 0 && b.len() == 0 {
        assert(a =~= b);
    }
}

/// An ascending list holds nothing twice.
pub proof fn lemma_ascending_distinct(r: Seq<Seq<char>>)
    requires
        ascending(r),
    ensures
        r.no_duplicates(),
        r.to_set().len() == r.len(),
        r.to_set().finite(),
{
    assert forall|i: int, j: int| 0 <= i < r.len() && 0 <= j < r.len() && i != j implies r[i]
        != r[j] by {
        lemma_before_irreflexive(r[i]);
        if i < j {
            assert(text_before(r[i], r[j]));
        } else {
            assert(text_before(r[j], r[i]));
        }
    }
    r.unique_seq_to_set();
}

/// A set of names has one ascending list.
pub proof fn lemma_listing_unique(r: Seq<Seq<char>>, t: Seq<Seq<char>>)
    requires
        ascending(r),
        ascending(t),
        r.to_set() == t.to_set(),
    ensures
        r == t,
    decreases r.len(),
{
    lemma_ascending_distinct(r);
    lemma_ascending_distinct(t);
    if r.len() == 0 {
        assert(r =~= t);
    } else {
        let last = r.len() - 1;
        assert(r.to_set().contains(r[last]));
        assert(t.to_set().contains(t[last]));
        assert(t.contains(r[last]));
        assert(r.contains(t[last]));
        if r[last] != t[last] {
            let j = choose|j: int| 0 <= j < t.len() && t[j] == r[last];
            let i = choose|i: int| 0 <= i < r.len() && r[i] == t[last];
            assert(text_before(t[j], t[last]));
            assert(text_before(r[i], r[last]));
            lemma_before_transitive(r[last], t[last], r[last]);
            lemma_before_irreflexive(r[last]);
        }
        assert(r.drop_last().to_set() =~= r.to_set().remove(r[last])) by {
            lemma_drop_last_set(r);
        }
        assert(t.drop_last().to_set() =~= t.to_set().remove(t[last])) by {
            lemma_drop_last_set(t);
        }
        assert(ascending(r.drop_last())) by {
            assert forall|i: int, j: int| 0 <= i < j < r.drop_last().len() implies text_before(
                #[trigger] r.drop_last()[i],
                #[trigger] r.drop_last()[j],
            ) by {
                assert(text_before(r[i], r[j]));
            }
        }
        assert(ascending(t.drop_last())) by {
            assert forall|i: int, j: int| 0 <= i < j < t.drop_last().len() implies text_before(
                #[trigger] t.drop_last()[i],
                #[trigger] t.drop_last()[j],
            ) by {
                assert(text_before(t[i], t[j]));
            }
        }
        lemma_listing_unique(r.drop_last(), t.drop_last());
        assert(r =~= r.drop_last().push(r[last]));
        assert(t =~= t.drop_last().push(t[last]));
    }
}

/// Dropping the last element of a list without repetitions takes it out of
/// the set.
proof fn lemma_drop_last_set(r: Seq<Seq<char>>)
    requires
        r.len() > 0,
        r.no_duplicates(),
    ensures
        r.drop_last().to_set() == r.to_set().remove(r.last()),
{
    let s = r.drop_last();
    assert forall|x: Seq<char>| s.to_set().contains(x) <==> r.to_set().remove(r.last()).contains(
        x,
    ) by {
        if s.contains(x) {
            let i = choose|i: int| 0 <= i < s.len() && s[i] == x;
            assert(r[i] == x);
            assert(r.contains(x));
        }
        if r.contains(x) && x != r.last() {
            let i = choose|i: int| 0 <= i < r.len() && r[i] == x;
            assert(s[i] == x);
        }
    }
    assert(s.to_set() =~= r.to_set().remove(r.last()));
}

/// An ascending list is the listing of its set.
pub proof fn lemma_listing(r: Seq<Seq<char>>)
    requires
        ascending(r),
    ensures
        listing(r.to_set()) == r,
{
    assert(lists(r, r.to_set()));
    lemma_listing_unique(listing(r.to_set()), r);
}

/// Whether `a` comes before `b`.
pub fn before(a: &str, b: &str) -> (r: bool)
    ensures
        r == text_before(a@, b@),
{
    let x = chars_of(a);
    let y = chars_of(b);
    let mut i: usize = 0;
    assert(a@.skip(0) == a@);
    assert(b@.skip(0) == b@);
    loop
        invariant
            x@ == a@,
            y@ == b@,
            i <= x.len(),
            i <= y.len(),
            text_before(a@, b@) == text_before(a@.skip(i as int), b@.skip(i as int)),
        decreases x.len() - i,
    {
        if i == y.len() {
            return false;
        }
        if i == x.len() {
            return true;
        }
        if x[i] != y[i] {
            return x[i] < y[i];
        }
        assert(a@.skip(i as int).drop_first() == a@.skip(i + 1));
        assert(b@.skip(i as int).drop_first() == b@.skip(i + 1));
        i = i + 1;
    }
}

/// A set of names.
#[derive(Debug)]
pub struct NameSet {
    items: Vec<String>,
}

impl View for NameSet {
    type V = Set<Seq<char>>;

    /// The names in the set.
    closed spec fn view(&self) -> Set<Seq<char>> {
        texts(self.items@).to_set()
    }
}

impl Clone for NameSet {
    /// The same set.
    fn clone(&self) -> (r: NameSet)
        ensures
            r@ == self@,
    {
        proof {
            use_type_invariant(self);
        }
        let items = self.items.clone();
        assert(texts(items@) =~= texts(self.items@));
        NameSet { items }
    }
}

impl NameSet {
    #[verifier::type_invariant]
    spec fn ordered(self) -> bool {
        ascending(texts(self.items@))
    }

    /// The empty set.
    pub fn new() -> (r: NameSet)
        ensures
            r@ == Set::<Seq<char>>::empty(),
    {
        let items: Vec<String> = Vec::new();
        assert(texts(items@).to_set() =~= Set::<Seq<char>>::empty());
        NameSet { items }
    }

    /// The number of names.
    pub fn len(&self) -> (r: usize)
        ensures
            r == self@.len(),
            self@.finite(),
    {
        proof {
            use_type_invariant(self);
            lemma_ascending_distinct(texts(self.items@));
        }
        self.items.len()
    }

    /// Whether there is no name in the set.
    pub fn is_empty(&self) -> (r: bool)
        ensures
            r == (self@.len() == 0),
            self@.finite(),
    {
        self.len() == 0
    }

    /// The names in ascending order.
    pub fn names(&self) -> (r: &[String])
        ensures
            texts(r@) == listing(self@),
            texts(r@).to_set() == self@,
    {
        proof {
            use_type_invariant(self);
            lemma_listing(texts(self.items@));
        }
        self.items.as_slice()
    }

    /// Whether `name` is in the set.
    pub fn contains(&self, name: &str) -> (r: bool)
        ensures
            r == self@.contains(name@),
    {
        let mut i: usize = 0;
        while i < self.items.len()
            invariant
                i <= self.items.len(),
                forall|k: int| 0 <= k < i ==> texts(self.items@)[k] != name@,
            decreases self.items.len() - i,
        {
            assert(texts(self.items@)[i as int] == self.items@[i as int]@);
            if same_text(self.items[i].as_str(), name) {
                assert(texts(self.items@).contains(name@));
                return true;
            }
            i = i + 1;
        }
        false
    }

    /// Puts `name` into the set.
    pub fn insert(&mut self, name: String)
        ensures
            final(self)@ == old(self)@.insert(name@),
    {
        if self.contains(name.as_str()) {
            assert(self@ =~= old(self)@.insert(name@));
            return;
        }
        proof {
            use_type_invariant(&*self);
        }
        let ghost was = texts(self.items@);
        let mut items: Vec<String> = Vec::new();
        std::mem::swap(&mut items, &mut self.items);
        let mut at: usize = 0;
        while at < items.len() && before(items[at].as_str(), name.as_str())
            invariant
                at <= items.len(),
                texts(items@) == was,
                ascending(was),
                forall|k: int| 0 <= k < at ==> text_before(was[k], name@),
            decreases items.len() - at,
        {
            assert(was[at as int] == items@[at as int]@);
            at = at + 1;
        }
        proof {
            if at < was.len() {
                assert(was[at as int] == items@[at as int]@);
                assert(!was.to_set().contains(name@));
                assert(was.contains(was[at as int]));
                lemma_before_total(was[at as int], name@);
                assert(text_before(name@, was[at as int]));
            }
        }
        let ghost key = name@;
        items.insert(at, name);
        proof {
            let now = texts(items@);
            assert(now =~= was.insert(at as int, key));
            assert forall|i: int, j: int| 0 <= i < j < now.len() implies #[trigger] text_before(
                now[i],
                now[j],
            ) by {
                if i < at && j > at {
                    assert(text_before(was[i], was[j - 1]));
                } else if j < at {
                    assert(text_before(was[i], was[j]));
                } else if i > at {
                    assert(text_before(was[i - 1], was[j - 1]));
                } else if i == at {
                    assert(text_before(key, was[at as int]));
                    if j - 1 > at {
                        assert(text_before(was[at as int], was[j - 1]));
                        lemma_before_transitive(key, was[at as int], was[j - 1]);
                    }
                }
            }
            assert forall|x: Seq<char>| now.to_set().contains(x) <==> was.to_set().insert(
                key,
            ).contains(x) by {
                if now.contains(x) {
                    let i = choose|i: int| 0 <= i < now.len() && now[i] == x;
                    if i < at {
                        assert(was[i] == x);
                    } else if i > at {
                        assert(was[i - 1] == x);
                    }
                }
                if was.contains(x) {
                    let i = choose|i: int| 0 <= i < was.len() && was[i] == x;
                    if i < at {
                        assert(now[i] == x);
                    } else {
                        assert(now[i + 1] == x);
                    }
                }
                if x == key {
                    assert(now[at as int] == x);
                }
            }
            assert(now.to_set() =~= was.to_set().insert(key));
        }
        self.items = items;
    }

    /// The names in ascending order with `sep` between each two of them.
    pub fn join(&self, sep: &str) -> (r: String)
        ensures
            r@ == joined(listing(self@), sep@),
    {
        join(self.names(), sep)
    }
}

} // verus!
