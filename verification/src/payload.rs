//! The `key=value` payload of a runtime target: a map from text to text that
//! lists its entries in ascending key order, as a `BTreeMap<String, String>`
//! does. Keys are ordered character by character by scalar value, which is the
//! order of their UTF-8 bytes.
use vstd::prelude::*;

use crate::text::{chars_eq, chars_of};

verus! {

/// Lexicographic order of character sequences by scalar value.
pub open spec fn text_lt(a: Seq<char>, b: Seq<char>) -> bool
    decreases a.len(),
{
    if a.len() == 0 {
        b.len() > 0
    } else if b.len() == 0 {
        false
    } else if a[0] != b[0] {
        a[0] < b[0]
    } else {
        text_lt(a.drop_first(), b.drop_first())
    }
}

pub proof fn lemma_text_lt_irreflexive(a: Seq<char>)
    ensures
        !text_lt(a, a),
    decreases a.len(),
{
    if a.len() > 0 {
        lemma_text_lt_irreflexive(a.drop_first());
    }
}

pub proof fn lemma_text_lt_transitive(a: Seq<char>, b: Seq<char>, c: Seq<char>)
    requires
        text_lt(a, b),
        text_lt(b, c),
    ensures
        text_lt(a, c),
    decreases a.len(),
{
    if a.len() > 0 && b.len() > 0 && c.len() > 0 {
        if a[0] == b[0] && b[0] == c[0] {
            lemma_text_lt_transitive(a.drop_first(), b.drop_first(), c.drop_first());
        }
    }
}

pub proof fn lemma_text_lt_total(a: Seq<char>, b: Seq<char>)
    ensures
        a == b || text_lt(a, b) || text_lt(b, a),
    decreases a.len(),
{
    if a.len() > 0 && b.len() > 0 {
        if a[0] == b[0] {
            lemma_text_lt_total(a.drop_first(), b.drop_first());
            if a.drop_first() == b.drop_first() {
                assert(a =~= seq![a[0]] + a.drop_first());
                assert(b =~= seq![b[0]] + b.drop_first());
            }
        }
    } else if a.len() == 0 && b.len() == 0 {
        assert(a =~= b);
    }
}

/// Result of comparing two texts.
#[derive(Debug, Clone, PartialEq, Eq)]
pub enum TextOrder {
    Less,
    Same,
    Greater,
}

/// Three-way comparison of two character slices by `text_lt`.
pub fn compare_text(a: &[char], b: &[char]) -> (r: TextOrder)
    ensures
        r is Less <==> text_lt(a@, b@),
        r is Same <==> a@ == b@,
        r is Greater <==> text_lt(b@, a@),
{
    proof {
        lemma_text_lt_total(a@, b@);
        lemma_text_lt_irreflexive(a@);
        if text_lt(a@, b@) && text_lt(b@, a@) {
            lemma_text_lt_transitive(a@, b@, a@);
        }
    }
    let mut i: usize = 0;
    assert(a@.skip(0) =~= a@);
    assert(b@.skip(0) =~= b@);
    assert(a@.take(0) =~= b@.take(0));
    while i < a.len() && i < b.len()
        invariant
            i <= a@.len(),
            i <= b@.len(),
            a@.take(i as int) == b@.take(i as int),
            text_lt(a@, b@) == text_lt(a@.skip(i as int), b@.skip(i as int)),
            text_lt(b@, a@) == text_lt(b@.skip(i as int), a@.skip(i as int)),
        decreases a.len() - i,
    {
        let ghost sa = a@.skip(i as int);
        let ghost sb = b@.skip(i as int);
        assert(sa[0] == a@[i as int]);
        assert(sb[0] == b@[i as int]);
        if a[i] != b[i] {
            if a[i] < b[i] {
                return TextOrder::Less;
            } else {
                return TextOrder::Greater;
            }
        }
        assert(sa.drop_first() =~= a@.skip(i + 1));
        assert(sb.drop_first() =~= b@.skip(i + 1));
        assert(a@.take(i + 1) =~= a@.take(i as int).push(a@[i as int]));
        assert(b@.take(i + 1) =~= b@.take(i as int).push(b@[i as int]));
        i = i + 1;
    }
    if i == a.len() && i == b.len() {
        assert(a@ =~= a@.take(i as int));
        assert(b@ =~= b@.take(i as int));
        TextOrder::Same
    } else if i == a.len() {
        TextOrder::Less
    } else {
        TextOrder::Greater
    }
}

/// The payload of a runtime target: key/value entries, kept in strictly
/// ascending key order (its type invariant), so each key occurs once.
#[derive(Debug, PartialEq, Eq)]
pub struct Payload {
    entries: Vec<(String, String)>,
}

/// Whether the keys of `s` strictly ascend.
pub open spec fn keys_ascending(s: Seq<(Seq<char>, Seq<char>)>) -> bool {
    forall|i: int, j: int| 0 <= i < j < s.len() ==> text_lt(#[trigger] s[i].0, #[trigger] s[j].0)
}

/// Whether some entry of `s` has key `k`.
pub open spec fn has_key(s: Seq<(Seq<char>, Seq<char>)>, k: Seq<char>) -> bool {
    exists|i: int| 0 <= i < s.len() && #[trigger] s[i].0 == k
}

/// A position of an entry with key `k`, if there is one.
pub open spec fn key_index(s: Seq<(Seq<char>, Seq<char>)>, k: Seq<char>) -> int {
    choose|i: int| 0 <= i < s.len() && #[trigger] s[i].0 == k
}

/// The map that the entries `s` describe (for keys that occur once).
pub open spec fn entries_map(s: Seq<(Seq<char>, Seq<char>)>) -> Map<Seq<char>, Seq<char>> {
    Map::new(|k: Seq<char>| has_key(s, k), |k: Seq<char>| s[key_index(s, k)].1)
}

impl View for Payload {
    type V = Seq<(Seq<char>, Seq<char>)>;

    closed spec fn view(&self) -> Seq<(Seq<char>, Seq<char>)> {
        entry_views(self.entries@)
    }
}

/// The texts of a list of entries.
spec fn entry_views(v: Seq<(String, String)>) -> Seq<(Seq<char>, Seq<char>)> {
    v.map_values(|e: (String, String)| (e.0@, e.1@))
}

pub proof fn lemma_ascending_distinct(s: Seq<(Seq<char>, Seq<char>)>, i: int, j: int)
    requires
        keys_ascending(s),
        0 <= i < s.len(),
        0 <= j < s.len(),
        s[i].0 == s[j].0,
    ensures
        i == j,
{
    if i < j {
        assert(text_lt(s[i].0, s[j].0));
        lemma_text_lt_irreflexive(s[i].0);
    } else if j < i {
        assert(text_lt(s[j].0, s[i].0));
        lemma_text_lt_irreflexive(s[i].0);
    }
}

/// In ascending entries, the map gives each entry's value for its key.
pub proof fn lemma_entries_map_at(s: Seq<(Seq<char>, Seq<char>)>, i: int)
    requires
        keys_ascending(s),
        0 <= i < s.len(),
    ensures
        entries_map(s).contains_key(s[i].0),
        entries_map(s)[s[i].0] == s[i].1,
{
    let k = s[i].0;
    assert(has_key(s, k));
    assert(entries_map(s).contains_key(k));
    let j = key_index(s, k);
    lemma_ascending_distinct(s, i, j);
    assert(entries_map(s)[k] == s[j].1);
}

impl Payload {
    /// Whether the entries are in strictly ascending key order: the type
    /// invariant of every payload.
    #[verifier::type_invariant]
    pub open spec fn wf(&self) -> bool {
        keys_ascending(self@)
    }

    /// The map from keys to values.
    pub open spec fn as_map(&self) -> Map<Seq<char>, Seq<char>> {
        entries_map(self@)
    }

    /// An empty payload.
    pub fn new() -> (p: Payload)
        ensures
            p.wf(),
            p@ == Seq::<(Seq<char>, Seq<char>)>::empty(),
            p.as_map() == Map::<Seq<char>, Seq<char>>::empty(),
    {
        let v: Vec<(String, String)> = Vec::new();
        assert(entry_views(v@) =~= Seq::<(Seq<char>, Seq<char>)>::empty());
        let p = Payload { entries: v };
        assert(p@ =~= Seq::<(Seq<char>, Seq<char>)>::empty());
        assert(p.as_map() =~= Map::<Seq<char>, Seq<char>>::empty());
        p
    }

    /// Number of entries.
    pub fn len(&self) -> (n: usize)
        ensures
            n == self@.len(),
    {
        self.entries.len()
    }

    /// The value of the first entry whose key is `key` (the only one in a
    /// well-formed payload).
    pub fn get(&self, key: &str) -> (r: Option<&String>)
        ensures
            match r {
                Some(v) => exists|i: int|
                    0 <= i < self@.len() && self@[i].0 == key@ && self@[i].1 == v@ && (forall|
                        j: int,
                    | 0 <= j < i ==> self@[j].0 != key@),
                None => !has_key(self@, key@),
            },
            self.wf(),
            r is Some <==> self.as_map().contains_key(key@),
            r is Some ==> r.unwrap()@ == self.as_map()[key@],
    {
        proof {
            use_type_invariant(self);
        }
        let k = chars_of(key);
        let mut i: usize = 0;
        while i < self.entries.len()
            invariant
                self.wf(),
                i <= self@.len(),
                self@.len() == self.entries@.len(),
                k@ == key@,
                forall|j: int| 0 <= j < i ==> self@[j].0 != key@,
            decreases self.entries.len() - i,
        {
            let ek = chars_of(self.entries[i].0.as_str());
            if chars_eq(ek.as_slice(), k.as_slice()) {
                proof {
                    assert(self@[i as int].0 == key@);
                    lemma_entries_map_at(self@, i as int);
                }
                return Some(&self.entries[i].1);
            }
            i = i + 1;
        }
        assert(!has_key(self@, key@));
        None
    }

    /// Sets the value of `key`, replacing the value it had.
    pub fn insert(&mut self, key: String, value: String)
        ensures
            final(self).wf(),
            final(self).as_map() == old(self).as_map().insert(key@, value@),
    {
        proof {
            use_type_invariant(&*self);
        }
        let ghost s = self@;
        let mut entries: Vec<(String, String)> = Vec::new();
        std::mem::swap(&mut entries, &mut self.entries);
        assert(entry_views(entries@) == s);
        let k = chars_of(key.as_str());
        // position of the first entry whose key is not below `key`
        let mut i: usize = 0;
        let mut same = false;
        while i < entries.len()
            invariant_except_break
                !same,
            invariant
                entry_views(entries@) == s,
                keys_ascending(s),
                i <= s.len(),
                s.len() == entries@.len(),
                k@ == key@,
                forall|j: int| 0 <= j < i ==> text_lt(#[trigger] s[j].0, key@),
            ensures
                i <= s.len(),
                entry_views(entries@) == s,
                s.len() == entries@.len(),
                forall|j: int| 0 <= j < i ==> text_lt(#[trigger] s[j].0, key@),
                same ==> i < s.len() && s[i as int].0 == key@,
                !same && i < s.len() ==> text_lt(key@, s[i as int].0),
            decreases entries.len() - i,
        {
            let ek = chars_of(entries[i].0.as_str());
            match compare_text(ek.as_slice(), k.as_slice()) {
                TextOrder::Less => {},
                TextOrder::Same => {
                    same = true;
                    break;
                },
                TextOrder::Greater => {
                    break;
                },
            }
            i = i + 1;
        }
        let ghost e = (key@, value@);
        if same {
            entries.set(i, (key, value));
            proof {
                let t = entry_views(entries@);
                assert(t =~= s.update(i as int, e));
                assert forall|a: int, b: int| 0 <= a < b < t.len() implies text_lt(
                    #[trigger] t[a].0,
                    #[trigger] t[b].0,
                ) by {
                    assert(s[a].0 == t[a].0 || a == i);
                    assert(s[i as int].0 == e.0);
                }
                lemma_insert_map_same(s, i as int, e);
            }
        } else {
            entries.insert(i, (key, value));
            proof {
                let t = entry_views(entries@);
                assert(t =~= s.insert(i as int, e));
                assert forall|a: int, b: int| 0 <= a < b < t.len() implies text_lt(
                    #[trigger] t[a].0,
                    #[trigger] t[b].0,
                ) by {
                    if a < i && b == i {
                    } else if a < i && b > i {
                        assert(t[b] == s[b - 1]);
                        if b - 1 == i {
                        } else {
                            lemma_text_lt_transitive(s[a].0, key@, s[i as int].0);
                            assert(text_lt(s[i as int].0, s[b - 1].0));
                            lemma_text_lt_transitive(s[a].0, s[i as int].0, s[b - 1].0);
                        }
                    } else if a == i {
                        assert(t[b] == s[b - 1]);
                        if b - 1 > i {
                            assert(text_lt(s[i as int].0, s[b - 1].0));
                            lemma_text_lt_transitive(key@, s[i as int].0, s[b - 1].0);
                        }
                    } else if a > i {
                        assert(t[a] == s[a - 1]);
                        assert(t[b] == s[b - 1]);
                    }
                }
                lemma_insert_map_new(s, i as int, e);
            }
        }
        self.entries = entries;
    }

    /// The entry at position `i`.
    pub fn entry(&self, i: usize) -> (r: (&String, &String))
        requires
            i < self@.len(),
        ensures
            r.0@ == self@[i as int].0,
            r.1@ == self@[i as int].1,
    {
        (&self.entries[i].0, &self.entries[i].1)
    }
}

impl Clone for Payload {
    /// A copy with the same entries.
    fn clone(&self) -> (r: Self)
        ensures
            r@ == self@,
    {
        proof {
            use_type_invariant(self);
        }
        let mut v: Vec<(String, String)> = Vec::new();
        let mut i: usize = 0;
        while i < self.entries.len()
            invariant
                self.wf(),
                i <= self.entries@.len(),
                entry_views(v@) == entry_views(self.entries@).take(i as int),
            decreases self.entries.len() - i,
        {
            let k = self.entries[i].0.clone();
            let x = self.entries[i].1.clone();
            let ghost before = v@;
            v.push((k, x));
            proof {
                assert(v@ == before.push(self.entries@[i as int]));
                assert(entry_views(v@) =~= entry_views(before).push(entry_views(self.entries@)[i as int]));
                assert(entry_views(self.entries@).take(i + 1) =~= entry_views(self.entries@).take(
                    i as int,
                ).push(entry_views(self.entries@)[i as int]));
            }
            i = i + 1;
        }
        assert(entry_views(self.entries@).take(i as int) =~= entry_views(self.entries@));
        Payload { entries: v }
    }
}

proof fn lemma_insert_map_same(s: Seq<(Seq<char>, Seq<char>)>, i: int, e: (Seq<char>, Seq<char>))
    requires
        keys_ascending(s),
        keys_ascending(s.update(i, e)),
        0 <= i < s.len(),
        s[i].0 == e.0,
    ensures
        entries_map(s.update(i, e)) == entries_map(s).insert(e.0, e.1),
{
    let t = s.update(i, e);
    let m = entries_map(t);
    let n = entries_map(s).insert(e.0, e.1);
    assert forall|k: Seq<char>| m.contains_key(k) <==> n.contains_key(k) by {
        if has_key(t, k) {
            let j = key_index(t, k);
            assert(s[j].0 == k);
        }
        if has_key(s, k) {
            let j = key_index(s, k);
            assert(t[j].0 == k);
        }
        if k == e.0 {
            assert(t[i].0 == k);
        }
    }
    assert forall|k: Seq<char>| m.contains_key(k) implies m[k] == n[k] by {
        let j = key_index(t, k);
        lemma_entries_map_at(t, j);
        if j == i {
        } else {
            if k == e.0 {
                assert(t[i].0 == k);
                lemma_ascending_distinct(t, i, j);
            }
            assert(s[j] == t[j]);
            lemma_entries_map_at(s, j);
        }
    }
    assert(m =~= n);
}

proof fn lemma_insert_map_new(s: Seq<(Seq<char>, Seq<char>)>, i: int, e: (Seq<char>, Seq<char>))
    requires
        keys_ascending(s),
        keys_ascending(s.insert(i, e)),
        0 <= i <= s.len(),
    ensures
        entries_map(s.insert(i, e)) == entries_map(s).insert(e.0, e.1),
{
    let t = s.insert(i, e);
    let m = entries_map(t);
    let n = entries_map(s).insert(e.0, e.1);
    assert forall|k: Seq<char>| m.contains_key(k) <==> n.contains_key(k) by {
        if has_key(t, k) {
            let j = key_index(t, k);
            if j < i {
                assert(s[j].0 == k);
            } else if j > i {
                assert(s[j - 1].0 == k);
            }
        }
        if has_key(s, k) {
            let j = key_index(s, k);
            if j < i {
                assert(t[j].0 == k);
            } else {
                assert(t[j + 1].0 == k);
            }
        }
        if k == e.0 {
            assert(t[i].0 == k);
        }
    }
    assert forall|k: Seq<char>| m.contains_key(k) implies m[k] == n[k] by {
        let j = key_index(t, k);
        lemma_entries_map_at(t, j);
        if k == e.0 {
            assert(t[i].0 == k);
            lemma_ascending_distinct(t, i, j);
        } else if j < i {
            assert(s[j] == t[j]);
            lemma_entries_map_at(s, j);
        } else if j > i {
            assert(s[j - 1] == t[j]);
            lemma_entries_map_at(s, j - 1);
        }
    }
    assert(m =~= n);
}

} // verus!
