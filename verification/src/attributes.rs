//! Attribute lists: `NAME=value` pairs with commas between them, where a
//! quoted value may hold commas of its own.
use crate::text::{find, optional, position, same_text, string_of, trim, trimmed};
use crate::types::pairs;
use vstd::prelude::*;
use vstd::slice::slice_subrange;

verus! {

/// The first comma outside quotes at or after `from`, or the length of `s`;
/// `quoted` says whether `from` stands inside quotes.
pub open spec fn item_end(s: Seq<char>, from: int, quoted: bool) -> int
    decreases s.len() - from,
{
    if from >= s.len() {
        s.len() as int
    } else if s[from] == ',' && !quoted {
        from
    } else {
        item_end(s, from + 1, quoted != (s[from] == '"'))
    }
}

/// An item ends between its start and the end of the list.
pub proof fn lemma_item_end_bounds(s: Seq<char>, from: int, quoted: bool)
    requires
        0 <= from <= s.len(),
    ensures
        from <= item_end(s, from, quoted) <= s.len(),
    decreases s.len() - from,
{
    if from < s.len() && !(s[from] == ',' && !quoted) {
        lemma_item_end_bounds(s, from + 1, quoted != (s[from] == '"'));
    }
}

/// A value without the quotes round it.
pub open spec fn unquoted(v: Seq<char>) -> Seq<char> {
    if v.len() >= 2 && v[0] == '"' && v.last() == '"' {
        v.subrange(1, v.len() - 1)
    } else {
        v
    }
}

/// The name and the value of an item; an item without `=` has neither.
pub open spec fn attribute(item: Seq<char>) -> Option<(Seq<char>, Seq<char>)> {
    let eq = position(item, '=', 0);
    if eq < item.len() {
        Some((trimmed(item.take(eq)), unquoted(trimmed(item.skip(eq + 1)))))
    } else {
        None
    }
}

/// The attributes of the items that begin at or after `from`.
pub open spec fn attributes_from(s: Seq<char>, from: int) -> Seq<(Seq<char>, Seq<char>)>
    decreases s.len() - from,
{
    if from < 0 || from >= s.len() {
        seq![]
    } else {
        let end = item_end(s, from, false);
        proof {
            lemma_item_end_bounds(s, from, false);
        }
        let head = match attribute(s.subrange(from, end)) {
            Some(a) => seq![a],
            None => seq![],
        };
        if end < s.len() {
            head + attributes_from(s, end + 1)
        } else {
            head
        }
    }
}

/// The attributes of a list, in order.
pub open spec fn attributes(s: Seq<char>) -> Seq<(Seq<char>, Seq<char>)> {
    attributes_from(s, 0)
}

/// The value of the last attribute with the given name.
pub open spec fn lookup(a: Seq<(Seq<char>, Seq<char>)>, key: Seq<char>) -> Option<Seq<char>>
    decreases a.len(),
{
    if a.len() == 0 {
        None
    } else if a.last().0 == key {
        Some(a.last().1)
    } else {
        lookup(a.drop_last(), key)
    }
}

/// An attribute list that has been read.
#[derive(Clone, Debug)]
pub struct Attributes {
    pub pairs: Vec<(String, String)>,
}

impl View for Attributes {
    type V = Seq<(Seq<char>, Seq<char>)>;

    open spec fn view(&self) -> Seq<(Seq<char>, Seq<char>)> {
        pairs(self.pairs@)
    }
}

/// The end of the item that begins at `from`.
fn find_item_end(s: &[char], from: usize) -> (r: usize)
    requires
        from <= s.len(),
    ensures
        r == item_end(s@, from as int, false),
        from <= r <= s.len(),
{
    let mut i: usize = from;
    let mut quoted = false;
    while i < s.len() && !(s[i] == ',' && !quoted)
        invariant
            from <= i <= s.len(),
            item_end(s@, from as int, false) == item_end(s@, i as int, quoted),
        decreases s.len() - i,
    {
        if s[i] == '"' {
            quoted = !quoted;
        }
        i = i + 1;
    }
    i
}

/// A value without the quotes round it.
fn unquote(v: &[char]) -> (r: &[char])
    ensures
        r@ == unquoted(v@),
{
    let n = v.len();
    if n >= 2 && v[0] == '"' && v[n - 1] == '"' {
        slice_subrange(v, 1, n - 1)
    } else {
        v
    }
}

/// Reads an attribute list.
pub fn parse_attributes(s: &[char]) -> (r: Attributes)
    ensures
        r@ == attributes(s@),
{
    let mut list: Vec<(String, String)> = Vec::new();
    let mut from: usize = 0;
    assert(pairs(list@) + attributes_from(s@, 0) == attributes(s@));
    while from < s.len()
        invariant
            from <= s.len(),
            pairs(list@) + attributes_from(s@, from as int) == attributes(s@),
        decreases s.len() - from,
    {
        let ghost before = pairs(list@);
        let end = find_item_end(s, from);
        let item = slice_subrange(s, from, end);
        let eq = find(item, '=', 0);
        let ghost rest = if end < s.len() {
            attributes_from(s@, end + 1)
        } else {
            seq![]
        };
        if eq < item.len() {
            let name = string_of(trim(slice_subrange(item, 0, eq)));
            let value = string_of(unquote(trim(slice_subrange(item, eq + 1, item.len()))));
            let ghost a = (name@, value@);
            assert(attribute(item@) == Some(a));
            list.push((name, value));
            assert(pairs(list@) =~= before.push(a));
            assert(before + (seq![a] + rest) =~= before.push(a) + rest);
        } else {
            assert(before + (Seq::<(Seq<char>, Seq<char>)>::empty() + rest) =~= before + rest);
        }
        if end == s.len() {
            assert(rest =~= attributes_from(s@, end as int));
            from = end;
        } else {
            from = end + 1;
        }
    }
    assert(pairs(list@) + attributes_from(s@, from as int) =~= pairs(list@));
    Attributes { pairs: list }
}

impl Attributes {
    /// The value of the last attribute with the given name.
    pub fn get(&self, key: &str) -> (r: Option<String>)
        ensures
            optional(r) == lookup(self@, key@),
    {
        let mut i: usize = self.pairs.len();
        assert(self@.take(i as int) =~= self@);
        while i > 0
            invariant
                i <= self.pairs.len(),
                lookup(self@, key@) == lookup(self@.take(i as int), key@),
            decreases i,
        {
            let pair = &self.pairs[i - 1];
            assert(self@.take(i as int).last() == (pair.0@, pair.1@));
            assert(self@.take(i as int).drop_last() =~= self@.take(i - 1));
            if same_text(pair.0.as_str(), key) {
                return Some(pair.1.clone());
            }
            i = i - 1;
        }
        None
    }
}

} // verus!
