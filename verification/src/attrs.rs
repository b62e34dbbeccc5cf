//! Attribute maps: lists of `name = value` pairs, ordered by name, with
//! unique names.

use vstd::prelude::*;
use crate::text::{chars_of, str_eq};

verus! {

/// The mathematical model of an attribute map: its entries in order.
pub type AttrSeq = Seq<(Seq<char>, Seq<char>)>;

/// The position of the entry named `k`, searching from index `i`.
pub open spec fn key_from(s: AttrSeq, k: Seq<char>, i: int) -> Option<int>
    decreases s.len() - i,
{
    if i < 0 || i >= s.len() {
        None
    } else if s[i].0 == k {
        Some(i)
    } else {
        key_from(s, k, i + 1)
    }
}

/// The position of the first entry named `k`.
pub open spec fn key_index(s: AttrSeq, k: Seq<char>) -> Option<int> {
    key_from(s, k, 0)
}

/// The value stored under `k`.
pub open spec fn lookup(s: AttrSeq, k: Seq<char>) -> Option<Seq<char>> {
    match key_index(s, k) {
        Some(i) => Some(s[i].1),
        None => None,
    }
}

/// No two entries share a name.
pub open spec fn distinct_keys(s: AttrSeq) -> bool {
    forall|i: int, j: int|
        0 <= i < s.len() && 0 <= j < s.len() && i != j ==> (#[trigger] s[i]).0 != (#[trigger] s[j]).0
}

/// `a` comes before `b` in the order of names: character by character, a
/// proper prefix first.
pub open spec fn lex_lt(a: Seq<char>, b: Seq<char>) -> bool
    decreases a.len(),
{
    if b.len() == 0 {
        false
    } else if a.len() == 0 {
        true
    } else if a[0] != b[0] {
        a[0] < b[0]
    } else {
        lex_lt(a.skip(1), b.skip(1))
    }
}

/// The names stand in strictly increasing order.
pub open spec fn sorted_keys(s: AttrSeq) -> bool {
    forall|i: int, j: int|
        0 <= i < j < s.len() ==> lex_lt((#[trigger] s[i]).0, (#[trigger] s[j]).0)
}

/// The first position at or after `i` whose name does not come before `k`.
pub open spec fn slot_from(s: AttrSeq, k: Seq<char>, i: int) -> int
    decreases s.len() - i,
{
    if i < 0 || i >= s.len() {
        s.len() as int
    } else if lex_lt(s[i].0, k) {
        slot_from(s, k, i + 1)
    } else {
        i
    }
}

/// Writes `v` under `k`: the entry named `k` takes the new value, or a new
/// entry goes where the order of names puts it.
pub open spec fn put(s: AttrSeq, k: Seq<char>, v: Seq<char>) -> AttrSeq {
    let p = slot_from(s, k, 0);
    if 0 <= p < s.len() && s[p].0 == k {
        s.update(p, (k, v))
    } else {
        s.insert(p, (k, v))
    }
}

/// Writes every entry of `t` into `s`, first to last.
pub open spec fn merge(s: AttrSeq, t: AttrSeq) -> AttrSeq
    decreases t.len(),
{
    if t.len() == 0 {
        s
    } else {
        merge(put(s, t[0].0, t[0].1), t.drop_first())
    }
}

/// Removes the entry named `k`, if there is one.
pub open spec fn without(s: AttrSeq, k: Seq<char>) -> AttrSeq {
    match key_index(s, k) {
        Some(i) => s.remove(i),
        None => s,
    }
}

/// The entries as a finite map from name to value.
pub open spec fn as_map(s: AttrSeq) -> Map<Seq<char>, Seq<char>> {
    Map::new(|k: Seq<char>| key_index(s, k) is Some, |k: Seq<char>| lookup(s, k)->0)
}

/// `key_from` finds the least index at or after `i` whose name is `k`.
pub proof fn lemma_key_from(s: AttrSeq, k: Seq<char>, i: int)
    requires
        0 <= i <= s.len(),
    ensures
        match key_from(s, k, i) {
            Some(p) => i <= p < s.len() && s[p].0 == k && forall|j: int|
                i <= j < p ==> (#[trigger] s[j]).0 != k,
            None => forall|j: int| i <= j < s.len() ==> (#[trigger] s[j]).0 != k,
        },
    decreases s.len() - i,
{
    if i < s.len() && s[i].0 != k {
        lemma_key_from(s, k, i + 1);
    }
}

/// `key_index` finds the least index whose name is `k`.
pub proof fn lemma_key_index(s: AttrSeq, k: Seq<char>)
    ensures
        match key_index(s, k) {
            Some(p) => 0 <= p < s.len() && s[p].0 == k && forall|j: int|
                0 <= j < p ==> (#[trigger] s[j]).0 != k,
            None => forall|j: int| 0 <= j < s.len() ==> (#[trigger] s[j]).0 != k,
        },
{
    lemma_key_from(s, k, 0);
}

/// In a list with distinct names, the entry at `p` is the one `key_index`
/// finds for its name.
pub proof fn lemma_key_index_at(s: AttrSeq, p: int)
    requires
        distinct_keys(s),
        0 <= p < s.len(),
    ensures
        key_index(s, s[p].0) == Some(p),
{
    lemma_key_index(s, s[p].0);
}

/// No name comes before itself.
pub proof fn lemma_lex_irreflexive(a: Seq<char>)
    ensures
        !lex_lt(a, a),
    decreases a.len(),
{
    if a.len() > 0 {
        lemma_lex_irreflexive(a.skip(1));
    }
}

/// The order of names is transitive.
pub proof fn lemma_lex_transitive(a: Seq<char>, b: Seq<char>, c: Seq<char>)
    requires
        lex_lt(a, b),
        lex_lt(b, c),
    ensures
        lex_lt(a, c),
    decreases a.len(),
{
    if a.len() > 0 && b.len() > 0 && c.len() > 0 && a[0] == b[0] && b[0] == c[0] {
        lemma_lex_transitive(a.skip(1), b.skip(1), c.skip(1));
    }
}

/// Of two different names, one comes before the other.
pub proof fn lemma_lex_total(a: Seq<char>, b: Seq<char>)
    ensures
        a == b || lex_lt(a, b) || lex_lt(b, a),
    decreases a.len(),
{
    if a.len() > 0 && b.len() > 0 && a[0] == b[0] {
        lemma_lex_total(a.skip(1), b.skip(1));
        if a.skip(1) == b.skip(1) {
            assert(b =~= seq![b[0]] + b.skip(1));
        }
    }
}

/// Names in strictly increasing order are distinct.
pub proof fn lemma_sorted_distinct(s: AttrSeq)
    requires
        sorted_keys(s),
    ensures
        distinct_keys(s),
{
    assert forall|i: int, j: int|
        0 <= i < s.len() && 0 <= j < s.len() && i != j implies (#[trigger] s[i]).0 != (
    #[trigger] s[j]).0 by {
        lemma_lex_irreflexive(s[i].0);
    }
}

/// `slot_from` finds the least position at or after `i` whose name does
/// not come before `k`.
pub proof fn lemma_slot_from(s: AttrSeq, k: Seq<char>, i: int)
    requires
        0 <= i <= s.len(),
    ensures
        i <= slot_from(s, k, i) <= s.len(),
        forall|j: int| i <= j < slot_from(s, k, i) ==> lex_lt((#[trigger] s[j]).0, k),
        slot_from(s, k, i) < s.len() ==> !lex_lt(s[slot_from(s, k, i)].0, k),
    decreases s.len() - i,
{
    if i < s.len() && lex_lt(s[i].0, k) {
        lemma_slot_from(s, k, i + 1);
    }
}

/// Writing an entry keeps the names in order, stores the value, and leaves
/// every other name as it was.
pub proof fn lemma_put(s: AttrSeq, k: Seq<char>, v: Seq<char>)
    requires
        sorted_keys(s),
    ensures
        sorted_keys(put(s, k, v)),
        lookup(put(s, k, v), k) == Some(v),
        forall|k2: Seq<char>| k2 != k ==> lookup(put(s, k, v), k2) == lookup(s, k2),
        as_map(put(s, k, v)) == as_map(s).insert(k, v),
{
    let r = put(s, k, v);
    let p = slot_from(s, k, 0);
    lemma_slot_from(s, k, 0);
    lemma_sorted_distinct(s);
    let hit = p < s.len() && s[p].0 == k;
    // every name after the slot comes after `k`, unless it is `k` itself
    assert forall|j: int| p <= j < s.len() && !(hit && j == p) implies lex_lt(
        k,
        (#[trigger] s[j]).0,
    ) by {
        lemma_lex_total(s[p].0, k);
        if j > p {
            if s[p].0 != k {
                lemma_lex_transitive(k, s[p].0, s[j].0);
            }
        }
    }
    assert(sorted_keys(r)) by {
        assert forall|a: int, b: int| 0 <= a < b < r.len() implies lex_lt(
            (#[trigger] r[a]).0,
            (#[trigger] r[b]).0,
        ) by {
            if hit {
                let _ = s[a];
                let _ = s[b];
            } else {
                if a < p {
                    let _ = s[a];
                } else if a > p {
                    let _ = s[a - 1];
                }
                if b < p {
                    let _ = s[b];
                } else if b > p {
                    let _ = s[b - 1];
                }
            }
        }
    }
    lemma_sorted_distinct(r);
    lemma_key_index(r, k);
    assert(lookup(r, k) == Some(v)) by {
        let q = key_index(r, k)->0;
        let _ = r[q];
        let _ = r[p];
    }
    assert forall|k2: Seq<char>| k2 != k implies ((key_index(r, k2) is Some) <==> (key_index(
        s,
        k2,
    ) is Some)) && lookup(r, k2) == lookup(s, k2) by {
        lemma_key_index(s, k2);
        lemma_key_index(r, k2);
        if key_index(s, k2) is Some {
            let q = key_index(s, k2)->0;
            let q2 = if hit || q < p {
                q
            } else {
                q + 1
            };
            assert(r[q2] == s[q]);
            let w = key_index(r, k2)->0;
            let _ = r[w];
        } else if key_index(r, k2) is Some {
            let w = key_index(r, k2)->0;
        }
    }
    assert forall|k2: Seq<char>| key_index(r, k2) is Some <==> (k2 == k || key_index(
        s,
        k2,
    ) is Some) by {
        if k2 != k {
            assert(lookup(r, k2) == lookup(s, k2));
        }
    }
}

/// Merging keeps the names in order; a name of `t` takes `t`'s value and
/// every other name keeps the value it had in `s`: the result is the
/// right-biased union of the two maps.
pub proof fn lemma_merge(s: AttrSeq, t: AttrSeq)
    requires
        sorted_keys(s),
        sorted_keys(t),
    ensures
        sorted_keys(merge(s, t)),
        as_map(merge(s, t)) == as_map(s).union_prefer_right(as_map(t)),
    decreases t.len(),
{
    if t.len() == 0 {
        assert forall|k: Seq<char>| key_index(t, k) is None by {
            lemma_key_index(t, k);
        }
    } else {
        let s1 = put(s, t[0].0, t[0].1);
        let t1 = t.drop_first();
        lemma_put(s, t[0].0, t[0].1);
        assert(sorted_keys(t1)) by {
            assert forall|i: int, j: int| 0 <= i < j < t1.len() implies lex_lt(
                (#[trigger] t1[i]).0,
                (#[trigger] t1[j]).0,
            ) by {}
        }
        lemma_sorted_distinct(t);
        lemma_merge(s1, t1);
        assert forall|k: Seq<char>|
            #![trigger key_index(t, k)]
            (key_index(t, k) is Some <==> (k == t[0].0 || key_index(t1, k) is Some)) && (key_index(
                t1,
                k,
            ) is Some ==> lookup(t, k) == lookup(t1, k)) && (k == t[0].0 ==> key_index(t1, k) is None
                && lookup(t, k) == Some(t[0].1)) by {
            lemma_key_index(t, k);
            lemma_key_index(t1, k);
            if key_index(t1, k) is Some {
                let p = key_index(t1, k)->0;
                lemma_key_index_at(t, p + 1);
            }
            if key_index(t, k) is Some && k != t[0].0 {
                let p = key_index(t, k)->0;
                assert(t1[p - 1] == t[p]);
            }
        }
        assert(as_map(s1).union_prefer_right(as_map(t1)) =~= as_map(s).union_prefer_right(
            as_map(t),
        ));
    }
}

/// Removing an entry keeps the names in order.
pub proof fn lemma_without_sorted(s: AttrSeq, k: Seq<char>)
    requires
        sorted_keys(s),
    ensures
        sorted_keys(without(s, k)),
{
    lemma_key_index(s, k);
    let r = without(s, k);
    if let Some(p) = key_index(s, k) {
        assert forall|a: int, b: int| 0 <= a < b < r.len() implies lex_lt(
            (#[trigger] r[a]).0,
            (#[trigger] r[b]).0,
        ) by {}
    }
}

/// Whether `a` comes before `b` in the order of names.
pub fn lex_less(a: &str, b: &str) -> (r: bool)
    ensures
        r == lex_lt(a@, b@),
{
    let x = chars_of(a);
    let y = chars_of(b);
    let mut i: usize = 0;
    assert(x@.skip(0) =~= x@);
    assert(y@.skip(0) =~= y@);
    loop
        invariant
            i <= x.len(),
            i <= y.len(),
            x@ == a@,
            y@ == b@,
            lex_lt(a@, b@) == lex_lt(x@.skip(i as int), y@.skip(i as int)),
        decreases x.len() - i,
    {
        if i >= y.len() {
            return false;
        }
        if i >= x.len() {
            return true;
        }
        if x[i] != y[i] {
            return x[i] < y[i];
        }
        assert(x@.skip(i as int).skip(1) =~= x@.skip(i as int + 1));
        assert(y@.skip(i as int).skip(1) =~= y@.skip(i as int + 1));
        i = i + 1;
    }
}

/// An attribute map. Names are unique and the entries stand in the order
/// of their names.
#[derive(Debug)]
pub struct Attrs {
    entries: Vec<(String, String)>,
}

/// The model of a list of owned entries.
pub open spec fn entries_view(v: Seq<(String, String)>) -> AttrSeq {
    Seq::new(v.len(), |i: int| (v[i].0@, v[i].1@))
}

impl View for Attrs {
    type V = AttrSeq;

    closed spec fn view(&self) -> AttrSeq {
        entries_view(self.entries@)
    }
}

impl Attrs {
    /// What holds of every attribute map: the names stand in strictly
    /// increasing order.
    #[verifier::type_invariant]
    spec fn well_formed(&self) -> bool {
        sorted_keys(entries_view(self.entries@))
    }

    /// In every attribute map the names stand in strictly increasing
    /// order. The call does nothing at run time; it hands the fact to the
    /// caller's proof.
    pub fn names_are_sorted(&self)
        ensures
            sorted_keys(self@),
            distinct_keys(self@),
    {
        proof {
            use_type_invariant(self);
            lemma_sorted_distinct(self@);
        }
    }

    /// The empty map.
    pub fn new() -> (r: Attrs)
        ensures
            r@ == Seq::<(Seq<char>, Seq<char>)>::empty(),
    {
        let r = Attrs { entries: Vec::new() };
        r
    }

    /// The number of entries.
    pub fn len(&self) -> (n: usize)
        ensures
            n == self@.len(),
    {
        self.entries.len()
    }

    /// Whether the map has no entry.
    pub fn is_empty(&self) -> (b: bool)
        ensures
            b == (self@.len() == 0),
    {
        self.entries.len() == 0
    }

    /// The name of the entry at position `i`.
    pub fn key_at(&self, i: usize) -> (k: &String)
        requires
            i < self@.len(),
        ensures
            k@ == self@[i as int].0,
    {
        &self.entries[i].0
    }

    /// The value of the entry at position `i`.
    pub fn value_at(&self, i: usize) -> (v: &String)
        requires
            i < self@.len(),
        ensures
            v@ == self@[i as int].1,
    {
        &self.entries[i].1
    }

    /// The position of the entry named `key`.
    pub fn position(&self, key: &str) -> (r: Option<usize>)
        ensures
            match r {
                Some(i) => key_index(self@, key@) == Some(i as int),
                None => key_index(self@, key@) is None,
            },
    {
        let mut i: usize = 0;
        while i < self.entries.len()
            invariant
                i <= self.entries.len(),
                key_index(self@, key@) == key_from(self@, key@, i as int),
            decreases self.entries.len() - i,
        {
            if str_eq(self.entries[i].0.as_str(), key) {
                return Some(i);
            }
            i = i + 1;
        }
        None
    }

    /// Whether an entry named `key` exists.
    pub fn contains_key(&self, key: &str) -> (b: bool)
        ensures
            b == (lookup(self@, key@) is Some),
    {
        self.position(key).is_some()
    }

    /// The value stored under `key`.
    pub fn get(&self, key: &str) -> (r: Option<&String>)
        ensures
            match r {
                Some(v) => lookup(self@, key@) == Some(v@),
                None => lookup(self@, key@) is None,
            },
    {
        match self.position(key) {
            Some(i) => {
                proof {
                    lemma_key_index(self@, key@);
                }
                Some(&self.entries[i].1)
            },
            None => None,
        }
    }

    /// Takes the entries out, leaving the map empty.
    fn take_entries(&mut self) -> (v: Vec<(String, String)>)
        ensures
            entries_view(v@) == old(self)@,
            sorted_keys(entries_view(v@)),
            final(self)@.len() == 0,
    {
        proof {
            use_type_invariant(&*self);
        }
        let mut tmp = Attrs { entries: Vec::new() };
        core::mem::swap(self, &mut tmp);
        let Attrs { entries } = tmp;
        entries
    }

    /// Computes [`slot_from`] from the head of the list.
    fn slot(&self, key: &str) -> (p: usize)
        ensures
            p == slot_from(self@, key@, 0),
            p <= self@.len(),
    {
        let mut i: usize = 0;
        while i < self.entries.len() && lex_less(self.entries[i].0.as_str(), key)
            invariant
                i <= self.entries.len(),
                slot_from(self@, key@, 0) == slot_from(self@, key@, i as int),
            decreases self.entries.len() - i,
        {
            i = i + 1;
        }
        i
    }

    /// Writes `value` under `key`: the entry of that name takes the value,
    /// or a new entry goes where the order of names puts it.
    pub fn insert(&mut self, key: String, value: String)
        ensures
            final(self)@ == put(old(self)@, key@, value@),
    {
        let p = self.slot(key.as_str());
        let hit = p < self.entries.len() && str_eq(self.entries[p].0.as_str(), key.as_str());
        let mut entries = self.take_entries();
        proof {
            lemma_put(old(self)@, key@, value@);
        }
        if hit {
            entries.set(p, (key, value));
        } else {
            entries.insert(p, (key, value));
        }
        assert(entries_view(entries@) =~= put(old(self)@, key@, value@));
        *self = Attrs { entries };
    }

    /// Removes the entry named `key` and returns its value.
    pub fn remove(&mut self, key: &str) -> (r: Option<String>)
        ensures
            final(self)@ == without(old(self)@, key@),
            match r {
                Some(v) => lookup(old(self)@, key@) == Some(v@),
                None => lookup(old(self)@, key@) is None,
            },
    {
        let found = self.position(key);
        proof {
            lemma_key_index(self@, key@);
        }
        match found {
            Some(i) => {
                let mut entries = self.take_entries();
                let e = entries.remove(i);
                assert(entries_view(entries@) =~= without(old(self)@, key@));
                proof {
                    lemma_without_sorted(old(self)@, key@);
                }
                *self = Attrs { entries };
                Some(e.1)
            },
            None => None,
        }
    }

    /// Writes every entry of `other` into this map, first to last.
    pub fn extend(&mut self, other: &Attrs)
        ensures
            final(self)@ == merge(old(self)@, other@),
    {
        let mut i: usize = 0;
        assert(other@.skip(0) =~= other@);
        while i < other.entries.len()
            invariant
                i <= other.entries.len(),
                merge(old(self)@, other@) == merge(self@, other@.skip(i as int)),
            decreases other.entries.len() - i,
        {
            let k = other.entries[i].0.clone();
            let v = other.entries[i].1.clone();
            proof {
                assert(other@.skip(i as int).drop_first() =~= other@.skip(i as int + 1));
            }
            self.insert(k, v);
            i = i + 1;
        }
    }
}

impl Clone for Attrs {
    fn clone(&self) -> (r: Attrs)
        ensures
            r@ == self@,
    {
        let mut entries: Vec<(String, String)> = Vec::new();
        let mut i: usize = 0;
        proof {
            use_type_invariant(self);
        }
        while i < self.entries.len()
            invariant
                i <= self.entries.len(),
                entries.len() == i,
                entries_view(entries@) == entries_view(self.entries@).take(i as int),
            decreases self.entries.len() - i,
        {
            let k = self.entries[i].0.clone();
            let v = self.entries[i].1.clone();
            entries.push((k, v));
            i = i + 1;
        }
        Attrs { entries }
    }
}

} // verus!
