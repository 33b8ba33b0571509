//! Timing breakdowns that voice clients attach to their events: a map from
//! names to JSON values, kept in key order as a `BTreeMap<String, _>` keeps
//! it, so that it is walked in the same order.

use vstd::prelude::*;
use crate::text::chars_of;

verus! {

/// A JSON value in a timing map, as far as the channel looks into it:
/// scalars are kept, strings are cleaned, and arrays and objects are carried
/// as their compact JSON text.
#[derive(Debug, PartialEq)]
pub enum TimingValue {
    Null,
    Bool(bool),
    /// A JSON number, by its JSON text.
    Number(String),
    /// A JSON string.
    Text(String),
    /// A JSON array or object, by its compact JSON text.
    Compound(String),
}

/// The mathematical form of a [`TimingValue`].
pub enum TimingValueView {
    Null,
    Bool(bool),
    Number(Seq<char>),
    Text(Seq<char>),
    Compound(Seq<char>),
}

impl View for TimingValue {
    type V = TimingValueView;

    open spec fn view(&self) -> TimingValueView {
        match self {
            TimingValue::Null => TimingValueView::Null,
            TimingValue::Bool(b) => TimingValueView::Bool(*b),
            TimingValue::Number(s) => TimingValueView::Number(s@),
            TimingValue::Text(s) => TimingValueView::Text(s@),
            TimingValue::Compound(s) => TimingValueView::Compound(s@),
        }
    }
}

impl Clone for TimingValue {
    fn clone(&self) -> (r: Self)
        ensures
            r@ == self@,
    {
        match self {
            TimingValue::Null => TimingValue::Null,
            TimingValue::Bool(b) => TimingValue::Bool(*b),
            TimingValue::Number(s) => TimingValue::Number(s.clone()),
            TimingValue::Text(s) => TimingValue::Text(s.clone()),
            TimingValue::Compound(s) => TimingValue::Compound(s.clone()),
        }
    }
}

// ---------------------------------------------------------------------------
// Key order
// ---------------------------------------------------------------------------

/// Lexicographic order of keys by code point, which is the byte order of
/// their UTF-8 encodings and so the order of `String`'s `Ord`.
pub open spec fn key_lt(a: Seq<char>, b: Seq<char>) -> bool
    decreases a.len(),
{
    if b.len() == 0 {
        false
    } else if a.len() == 0 {
        true
    } else if a[0] != b[0] {
        a[0] < b[0]
    } else {
        key_lt(a.drop_first(), b.drop_first())
    }
}

pub proof fn lemma_key_lt_irreflexive(a: Seq<char>)
    ensures
        !key_lt(a, a),
    decreases a.len(),
{
    if a.len() > 0 {
        lemma_key_lt_irreflexive(a.drop_first());
    }
}

pub proof fn lemma_key_lt_transitive(a: Seq<char>, b: Seq<char>, c: Seq<char>)
    requires
        key_lt(a, b),
        key_lt(b, c),
    ensures
        key_lt(a, c),
    decreases a.len(),
{
    if a.len() > 0 && b.len() > 0 && c.len() > 0 && a[0] == b[0] && b[0] == c[0] {
        lemma_key_lt_transitive(a.drop_first(), b.drop_first(), c.drop_first());
    }
}

pub proof fn lemma_key_lt_total(a: Seq<char>, b: Seq<char>)
    requires
        a != b,
    ensures
        key_lt(a, b) || key_lt(b, a),
    decreases a.len(),
{
    if a.len() > 0 && b.len() > 0 && a[0] == b[0] {
        if a.drop_first() == b.drop_first() {
            assert(a == seq![a[0]] + a.drop_first());
            assert(b == seq![b[0]] + b.drop_first());
        }
        lemma_key_lt_total(a.drop_first(), b.drop_first());
    } else if a.len() == 0 && b.len() == 0 {
        assert(a == b);
    } else if a.len() > 0 && b.len() > 0 {
    }
}

/// Whether `a` comes before `b` in key order.
pub fn chars_less(a: &Vec<char>, b: &Vec<char>) -> (r: bool)
    ensures
        r == key_lt(a@, b@),
{
    let mut i: usize = 0;
    assert(a@.skip(0) == a@);
    assert(b@.skip(0) == b@);
    while i < a.len() && i < b.len() && a[i] == b[i]
        invariant
            i <= a.len(),
            i <= b.len(),
            key_lt(a@, b@) == key_lt(a@.skip(i as int), b@.skip(i as int)),
        decreases a.len() - i,
    {
        assert(a@.skip(i as int).drop_first() == a@.skip(i + 1));
        assert(b@.skip(i as int).drop_first() == b@.skip(i + 1));
        i = i + 1;
    }
    if i == b.len() {
        false
    } else if i == a.len() {
        true
    } else {
        a[i] < b[i]
    }
}

/// Whether `a` and `b` hold the same characters.
pub fn chars_equal(a: &Vec<char>, b: &Vec<char>) -> (r: bool)
    ensures
        r == (a@ == b@),
{
    if a.len() != b.len() {
        return false;
    }
    let mut i: usize = 0;
    while i < a.len()
        invariant
            i <= a.len() == b.len(),
            forall|j: int| 0 <= j < i ==> a@[j] == b@[j],
        decreases a.len() - i,
    {
        if a[i] != b[i] {
            return false;
        }
        i = i + 1;
    }
    assert(a@ =~= b@);
    true
}

// ---------------------------------------------------------------------------
// Sorted entry sequences and the maps they stand for
// ---------------------------------------------------------------------------

/// Entries in strictly increasing key order.
pub open spec fn keys_sorted(s: Seq<(Seq<char>, TimingValueView)>) -> bool {
    forall|i: int, j: int| 0 <= i < j < s.len() ==> key_lt(#[trigger] s[i].0, #[trigger] s[j].0)
}

/// Whether some entry of `s` has key `k`.
pub open spec fn has_key(s: Seq<(Seq<char>, TimingValueView)>, k: Seq<char>) -> bool {
    exists|i: int| 0 <= i < s.len() && (#[trigger] s[i]).0 == k
}

/// The map that the entries `s` stand for: each key to its entry's value.
pub open spec fn entries_map(s: Seq<(Seq<char>, TimingValueView)>) -> Map<
    Seq<char>,
    TimingValueView,
> {
    Map::new(
        |k: Seq<char>| has_key(s, k),
        |k: Seq<char>| s[choose|i: int| 0 <= i < s.len() && (#[trigger] s[i]).0 == k].1,
    )
}

pub proof fn lemma_sorted_distinct(s: Seq<(Seq<char>, TimingValueView)>, i: int, j: int)
    requires
        keys_sorted(s),
        0 <= i < s.len(),
        0 <= j < s.len(),
        i != j,
    ensures
        s[i].0 != s[j].0,
{
    if i < j {
        assert(key_lt(s[i].0, s[j].0));
        if s[i].0 == s[j].0 {
            lemma_key_lt_irreflexive(s[i].0);
        }
    } else {
        assert(key_lt(s[j].0, s[i].0));
        if s[i].0 == s[j].0 {
            lemma_key_lt_irreflexive(s[i].0);
        }
    }
}

pub proof fn lemma_entries_map_at(s: Seq<(Seq<char>, TimingValueView)>, i: int)
    requires
        keys_sorted(s),
        0 <= i < s.len(),
    ensures
        entries_map(s).dom().contains(s[i].0),
        entries_map(s)[s[i].0] == s[i].1,
{
    assert(has_key(s, s[i].0));
    let j = choose|j: int| 0 <= j < s.len() && (#[trigger] s[j]).0 == s[i].0;
    if j != i {
        lemma_sorted_distinct(s, i, j);
    }
}

proof fn lemma_insert_at(
    s: Seq<(Seq<char>, TimingValueView)>,
    p: int,
    k: Seq<char>,
    v: TimingValueView,
)
    requires
        keys_sorted(s),
        0 <= p <= s.len(),
        forall|i: int| 0 <= i < p ==> key_lt(#[trigger] s[i].0, k),
        p < s.len() ==> key_lt(k, s[p].0),
    ensures
        keys_sorted(s.insert(p, (k, v))),
        entries_map(s.insert(p, (k, v))) == entries_map(s).insert(k, v),
{
    let n = s.insert(p, (k, v));
    assert forall|i: int| p < i < n.len() implies key_lt(k, #[trigger] n[i].0) by {
        assert(n[i] == s[i - 1]);
        if i - 1 > p {
            assert(key_lt(s[p].0, s[i - 1].0));
            lemma_key_lt_transitive(k, s[p].0, s[i - 1].0);
        }
    }
    assert forall|i: int, j: int| 0 <= i < j < n.len() implies key_lt(
        #[trigger] n[i].0,
        #[trigger] n[j].0,
    ) by {
        if j < p {
            assert(n[i] == s[i] && n[j] == s[j]);
        } else if j == p {
            assert(n[i] == s[i]);
        } else if i < p {
            assert(n[i] == s[i]);
            assert(key_lt(k, n[j].0));
            lemma_key_lt_transitive(n[i].0, k, n[j].0);
        } else if i == p {
        } else {
            assert(n[i] == s[i - 1] && n[j] == s[j - 1]);
        }
    }
    assert(keys_sorted(n));
    let m = entries_map(s).insert(k, v);
    assert forall|x: Seq<char>| #[trigger] entries_map(n).dom().contains(x) == m.dom().contains(x) by {
        if has_key(n, x) {
            let i = choose|i: int| 0 <= i < n.len() && (#[trigger] n[i]).0 == x;
            if i < p {
                assert(s[i] == n[i]);
                assert(has_key(s, x));
            } else if i > p {
                assert(s[i - 1] == n[i]);
                assert(has_key(s, x));
            }
        }
        if has_key(s, x) {
            let j = choose|j: int| 0 <= j < s.len() && (#[trigger] s[j]).0 == x;
            if j < p {
                assert(n[j] == s[j]);
            } else {
                assert(n[j + 1] == s[j]);
            }
            assert(has_key(n, x));
        }
        if x == k {
            assert(n[p].0 == k);
            assert(has_key(n, x));
        }
    }
    assert forall|x: Seq<char>| entries_map(n).dom().contains(x) implies #[trigger] entries_map(
        n,
    )[x] == m[x] by {
        if x == k {
            lemma_entries_map_at(n, p);
        } else {
            assert(m.dom().contains(x));
            assert(has_key(s, x));
            let j = choose|j: int| 0 <= j < s.len() && (#[trigger] s[j]).0 == x;
            lemma_entries_map_at(s, j);
            if j < p {
                assert(n[j] == s[j]);
                lemma_entries_map_at(n, j);
            } else {
                assert(n[j + 1] == s[j]);
                lemma_entries_map_at(n, j + 1);
            }
        }
    }
    assert(entries_map(n) =~= m);
}

proof fn lemma_replace_at(s: Seq<(Seq<char>, TimingValueView)>, p: int, v: TimingValueView)
    requires
        keys_sorted(s),
        0 <= p < s.len(),
    ensures
        keys_sorted(s.update(p, (s[p].0, v))),
        entries_map(s.update(p, (s[p].0, v))) == entries_map(s).insert(s[p].0, v),
{
    let k = s[p].0;
    let n = s.update(p, (k, v));
    assert forall|i: int, j: int| 0 <= i < j < n.len() implies key_lt(
        #[trigger] n[i].0,
        #[trigger] n[j].0,
    ) by {
        assert(n[i].0 == s[i].0 && n[j].0 == s[j].0);
    }
    let m = entries_map(s).insert(k, v);
    assert forall|x: Seq<char>| #[trigger] entries_map(n).dom().contains(x) == m.dom().contains(x) by {
        if has_key(n, x) {
            let i = choose|i: int| 0 <= i < n.len() && (#[trigger] n[i]).0 == x;
            assert(s[i].0 == x);
            assert(has_key(s, x));
        }
        if has_key(s, x) {
            let j = choose|j: int| 0 <= j < s.len() && (#[trigger] s[j]).0 == x;
            assert(n[j].0 == x);
            assert(has_key(n, x));
        }
    }
    assert forall|x: Seq<char>| entries_map(n).dom().contains(x) implies #[trigger] entries_map(
        n,
    )[x] == m[x] by {
        assert(has_key(s, x));
        let j = choose|j: int| 0 <= j < s.len() && (#[trigger] s[j]).0 == x;
        lemma_entries_map_at(s, j);
        lemma_entries_map_at(n, j);
        if j != p {
            lemma_sorted_distinct(s, j, p);
        }
    }
    assert(entries_map(n) =~= m);
}

/// `m` with the entries of `s` inserted one after the other, in order.
pub open spec fn inserted_all(
    m: Map<Seq<char>, TimingValueView>,
    s: Seq<(Seq<char>, TimingValueView)>,
) -> Map<Seq<char>, TimingValueView>
    decreases s.len(),
{
    if s.len() == 0 {
        m
    } else {
        inserted_all(m, s.drop_last()).insert(s.last().0, s.last().1)
    }
}

proof fn lemma_entries_map_drop_last(s: Seq<(Seq<char>, TimingValueView)>)
    requires
        keys_sorted(s),
        s.len() > 0,
    ensures
        keys_sorted(s.drop_last()),
        entries_map(s) == entries_map(s.drop_last()).insert(s.last().0, s.last().1),
{
    let t = s.drop_last();
    assert forall|i: int, j: int| 0 <= i < j < t.len() implies key_lt(
        #[trigger] t[i].0,
        #[trigger] t[j].0,
    ) by {
        assert(t[i] == s[i] && t[j] == s[j]);
    }
    assert forall|i: int| 0 <= i < t.len() implies key_lt(#[trigger] t[i].0, s.last().0) by {
        assert(t[i] == s[i]);
    }
    lemma_insert_at(t, t.len() as int, s.last().0, s.last().1);
    assert(t.insert(t.len() as int, (s.last().0, s.last().1)) =~= s);
}

/// Inserting the entries of a sorted sequence one by one gives the union
/// that prefers them.
pub proof fn lemma_inserted_all(
    m: Map<Seq<char>, TimingValueView>,
    s: Seq<(Seq<char>, TimingValueView)>,
)
    requires
        keys_sorted(s),
    ensures
        inserted_all(m, s) == m.union_prefer_right(entries_map(s)),
    decreases s.len(),
{
    if s.len() == 0 {
        assert(entries_map(s) =~= Map::<Seq<char>, TimingValueView>::empty());
        assert(m.union_prefer_right(entries_map(s)) =~= m);
    } else {
        lemma_entries_map_drop_last(s);
        lemma_inserted_all(m, s.drop_last());
        assert(m.union_prefer_right(entries_map(s.drop_last())).insert(s.last().0, s.last().1)
            =~= m.union_prefer_right(entries_map(s)));
    }
}

proof fn lemma_sorted_last_is_greatest(s: Seq<(Seq<char>, TimingValueView)>, k: Seq<char>)
    requires
        keys_sorted(s),
        s.len() > 0,
        has_key(s, k),
        k != s.last().0,
    ensures
        key_lt(k, s.last().0),
{
    let i = choose|i: int| 0 <= i < s.len() && (#[trigger] s[i]).0 == k;
    assert(i != s.len() - 1);
}

/// Entries in key order are determined by the map they stand for.
pub proof fn lemma_sorted_unique(s1: Seq<(Seq<char>, TimingValueView)>, s2: Seq<(Seq<char>, TimingValueView)>)
    requires
        keys_sorted(s1),
        keys_sorted(s2),
        entries_map(s1) == entries_map(s2),
    ensures
        s1 == s2,
    decreases s1.len() + s2.len(),
{
    if s1.len() == 0 || s2.len() == 0 {
        if s1.len() > 0 {
            assert(entries_map(s1).dom().contains(s1[0].0));
            assert(has_key(s2, s1[0].0));
        }
        if s2.len() > 0 {
            assert(entries_map(s2).dom().contains(s2[0].0));
            assert(has_key(s1, s2[0].0));
        }
        assert(s1 =~= s2);
    } else {
        let k1 = s1.last().0;
        let k2 = s2.last().0;
        assert(entries_map(s1).dom().contains(k1));
        assert(entries_map(s2).dom().contains(k2));
        assert(has_key(s2, k1));
        assert(has_key(s1, k2));
        if k1 != k2 {
            lemma_sorted_last_is_greatest(s2, k1);
            lemma_sorted_last_is_greatest(s1, k2);
            lemma_key_lt_transitive(k1, k2, k1);
            lemma_key_lt_irreflexive(k1);
        }
        lemma_entries_map_at(s1, s1.len() - 1);
        lemma_entries_map_at(s2, s2.len() - 1);
        lemma_entries_map_drop_last(s1);
        lemma_entries_map_drop_last(s2);
        let t1 = s1.drop_last();
        let t2 = s2.drop_last();
        assert(!has_key(t1, k1)) by {
            if has_key(t1, k1) {
                let i = choose|i: int| 0 <= i < t1.len() && (#[trigger] t1[i]).0 == k1;
                lemma_sorted_distinct(s1, i, s1.len() - 1);
            }
        }
        assert(!has_key(t2, k1)) by {
            if has_key(t2, k1) {
                let i = choose|i: int| 0 <= i < t2.len() && (#[trigger] t2[i]).0 == k1;
                lemma_sorted_distinct(s2, i, s2.len() - 1);
            }
        }
        assert(entries_map(t1) =~= entries_map(s1).remove(k1));
        assert(entries_map(t2) =~= entries_map(s2).remove(k1));
        lemma_sorted_unique(t1, t2);
        assert(s1 =~= t1.push(s1.last()));
        assert(s2 =~= t2.push(s2.last()));
    }
}

// ---------------------------------------------------------------------------
// The map type

// ---------------------------------------------------------------------------

/// A map from timing names to values, held in increasing key order with
/// each key once.
pub struct TimingMap {
    entries: Vec<(String, TimingValue)>,
}

/// The mathematical form of an entry.
pub open spec fn entry_view(e: (String, TimingValue)) -> (Seq<char>, TimingValueView) {
    (e.0@, e.1@)
}

impl View for TimingMap {
    type V = Seq<(Seq<char>, TimingValueView)>;

    closed spec fn view(&self) -> Seq<(Seq<char>, TimingValueView)> {
        self.entries@.map_values(|e: (String, TimingValue)| entry_view(e))
    }
}

impl TimingMap {
    #[verifier::type_invariant]
    pub(crate) open spec fn entries_sorted(self) -> bool {
        keys_sorted(self@)
    }

    /// The map these entries stand for.
    pub open spec fn as_map(&self) -> Map<Seq<char>, TimingValueView> {
        entries_map(self@)
    }

    /// An empty map.
    pub fn new() -> (m: TimingMap)
        ensures
            m@ == Seq::<(Seq<char>, TimingValueView)>::empty(),
            m.as_map() == Map::<Seq<char>, TimingValueView>::empty(),
    {
        let m = TimingMap { entries: Vec::new() };
        assert(m.as_map() =~= Map::<Seq<char>, TimingValueView>::empty());
        m
    }

    /// The number of entries.
    pub fn len(&self) -> (n: usize)
        ensures
            n == self@.len(),
            keys_sorted(self@),
    {
        proof {
            use_type_invariant(self);
        }
        self.entries.len()
    }

    /// Whether the map has no entries.
    pub fn is_empty(&self) -> (r: bool)
        ensures
            r == (self@.len() == 0),
            r == (self.as_map().dom() == Set::<Seq<char>>::empty()),
    {
        proof {
            if self@.len() > 0 {
                assert(has_key(self@, self@[0].0));
                assert(self.as_map().dom().contains(self@[0].0));
            } else {
                assert(self.as_map().dom() =~= Set::<Seq<char>>::empty());
            }
        }
        self.entries.len() == 0
    }

    /// The entries in key order.
    pub fn entries(&self) -> (r: &Vec<(String, TimingValue)>)
        ensures
            r@.map_values(|e: (String, TimingValue)| entry_view(e)) == self@,
    {
        &self.entries
    }

    /// Sets `key` to `value`, replacing the value already there (the key
    /// stays where it is) or adding the key in its place in key order.
    pub fn insert(&mut self, key: String, value: TimingValue)
        ensures
            final(self).as_map() == old(self).as_map().insert(key@, value@),
    {
        proof {
            use_type_invariant(&*self);
        }
        let mut entries: Vec<(String, TimingValue)> = Vec::new();
        std::mem::swap(&mut entries, &mut self.entries);
        let ghost s = entries@.map_values(|e: (String, TimingValue)| entry_view(e));
        assert(s == old(self)@);
        let kc = chars_of(key.as_str());
        let mut p: usize = 0;
        while p < entries.len() && chars_less(&chars_of(entries[p].0.as_str()), &kc)
            invariant
                p <= entries.len(),
                s.len() == entries.len(),
                forall|i: int| 0 <= i < entries.len() ==> s[i] == entry_view(#[trigger] entries@[i]),
                kc@ == key@,
                forall|i: int| 0 <= i < p ==> key_lt(#[trigger] s[i].0, key@),
            decreases entries.len() - p,
        {
            p = p + 1;
        }
        let ghost ev = entry_view((key, value));
        if p < entries.len() && entries[p].0 == key {
            entries.set(p, (key, value));
            proof {
                lemma_replace_at(s, p as int, value@);
                assert(entries@.map_values(|e: (String, TimingValue)| entry_view(e)) =~= s.update(
                    p as int,
                    (s[p as int].0, value@),
                ));
            }
        } else {
            proof {
                if p < entries.len() {
                    assert(s[p as int].0 != key@);
                    lemma_key_lt_total(s[p as int].0, key@);
                }
                lemma_insert_at(s, p as int, key@, value@);
            }
            entries.insert(p, (key, value));
            assert(entries@.map_values(|e: (String, TimingValue)| entry_view(e)) =~= s.insert(
                p as int,
                ev,
            ));
        }
        self.entries = entries;
    }

    /// A map holding `entries`, inserted in order (a later entry for a key
    /// replaces an earlier one).
    pub fn from_entries(entries: Vec<(String, TimingValue)>) -> (m: TimingMap)
        ensures
            m.as_map() == inserted_all(
                Map::empty(),
                entries@.map_values(|e: (String, TimingValue)| entry_view(e)),
            ),
    {
        let ghost s = entries@.map_values(|e: (String, TimingValue)| entry_view(e));
        let mut m = TimingMap::new();
        let mut i: usize = 0;
        while i < entries.len()
            invariant
                i <= entries.len(),
                s == entries@.map_values(|e: (String, TimingValue)| entry_view(e)),
                m.as_map() == inserted_all(Map::empty(), s.take(i as int)),
            decreases entries.len() - i,
        {
            let k = entries[i].0.clone();
            let v = entries[i].1.clone();
            m.insert(k, v);
            assert(s.take(i + 1).drop_last() == s.take(i as int));
            i = i + 1;
        }
        assert(s.take(entries.len() as int) == s);
        m
    }

    /// Sets every key of `other` to its value there (`BTreeMap::extend`).
    pub fn extend(&mut self, other: TimingMap)
        ensures
            final(self).as_map() == old(self).as_map().union_prefer_right(other.as_map()),
    {
        proof {
            use_type_invariant(&other);
        }
        let ghost start = self.as_map();
        let ghost s = other@;
        let mut i: usize = 0;
        while i < other.entries.len()
            invariant
                i <= other.entries.len(),
                s == other@,
                keys_sorted(s),
                self.as_map() == inserted_all(start, s.take(i as int)),
            decreases other.entries.len() - i,
        {
            let k = other.entries[i].0.clone();
            let v = other.entries[i].1.clone();
            self.insert(k, v);
            assert(s.take(i + 1).drop_last() == s.take(i as int));
            i = i + 1;
        }
        assert(s.take(other.entries.len() as int) == s);
        proof {
            lemma_inserted_all(start, s);
        }
    }

    /// The value under `key`, if any.
    pub fn get(&self, key: &str) -> (r: Option<&TimingValue>)
        ensures
            match r {
                Some(v) => self.as_map().dom().contains(key@) && self.as_map()[key@] == v@,
                None => !self.as_map().dom().contains(key@),
            },
    {
        proof {
            use_type_invariant(self);
        }
        let kc = chars_of(key);
        let mut i: usize = 0;
        while i < self.entries.len()
            invariant
                i <= self.entries.len(),
                kc@ == key@,
                keys_sorted(self@),
                forall|j: int| 0 <= j < i ==> (#[trigger] self@[j]).0 != key@,
            decreases self.entries.len() - i,
        {
            let c = chars_of(self.entries[i].0.as_str());
            if chars_equal(&c, &kc) {
                proof {
                    lemma_entries_map_at(self@, i as int);
                }
                return Some(&self.entries[i].1);
            }
            i = i + 1;
        }
        None
    }
}

impl Clone for TimingMap {
    fn clone(&self) -> (r: Self)
        ensures
            r@ == self@,
    {
        proof {
            use_type_invariant(self);
        }
        let mut v: Vec<(String, TimingValue)> = Vec::new();
        let mut i: usize = 0;
        while i < self.entries.len()
            invariant
                i <= self.entries.len(),
                v@.map_values(|e: (String, TimingValue)| entry_view(e)) == self@.take(i as int),
            decreases self.entries.len() - i,
        {
            let e = (self.entries[i].0.clone(), self.entries[i].1.clone());
            assert(entry_view(e) == self@[i as int]);
            let ghost before = v@;
            v.push(e);
            assert(v@.map_values(|e: (String, TimingValue)| entry_view(e)) =~= before.map_values(
                |e: (String, TimingValue)| entry_view(e),
            ).push(self@[i as int]));
            i = i + 1;
            assert(self@.take(i as int) =~= self@.take(i - 1).push(self@[i - 1]));
        }
        assert(self@.take(self.entries.len() as int) == self@);
        TimingMap { entries: v }
    }
}

/// What a read gives back of a write: after `insert(k, v)` the map holds
/// `v` under `k`, and every other key keeps whatever it had (or lacked).
pub proof fn lemma_read_after_insert(
    before: TimingMap,
    after: TimingMap,
    k: Seq<char>,
    v: TimingValueView,
    other: Seq<char>,
)
    requires
        after.as_map() == before.as_map().insert(k, v),
    ensures
        after.as_map().dom().contains(k),
        after.as_map()[k] == v,
        other != k ==> (after.as_map().dom().contains(other) == before.as_map().dom().contains(
            other,
        )),
        other != k && before.as_map().dom().contains(other) ==> after.as_map()[other]
            == before.as_map()[other],
{
}

/// Extending with another map: its keys take its values, the other keys
/// keep theirs, and nothing else appears.
pub proof fn lemma_read_after_extend(before: TimingMap, other: TimingMap, after: TimingMap, k: Seq<
    char,
>)
    requires
        after.as_map() == before.as_map().union_prefer_right(other.as_map()),
    ensures
        after.as_map().dom().contains(k) == (before.as_map().dom().contains(k)
            || other.as_map().dom().contains(k)),
        other.as_map().dom().contains(k) ==> after.as_map()[k] == other.as_map()[k],
        !other.as_map().dom().contains(k) && before.as_map().dom().contains(k)
            ==> after.as_map()[k] == before.as_map()[k],
{
}

} // verus!
