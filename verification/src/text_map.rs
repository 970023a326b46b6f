//! A small map from text to numbers, and the order of texts.
use vstd::prelude::*;

use crate::text;

verus! {

// ---------------------------------------------------------------------------------------------
// Order
// ---------------------------------------------------------------------------------------------

/// Whether one text comes before another: by the first character in which they differ, or by
/// being the start of the other.
pub open spec fn precedes(a: Seq<char>, b: Seq<char>) -> bool
    decreases a.len(),
{
    if b.len() == 0 {
        false
    } else if a.len() == 0 {
        true
    } else {
        a[0] < b[0] || (a[0] == b[0] && precedes(a.skip(1), b.skip(1)))
    }
}

/// No text comes before itself, and of two texts that differ exactly one comes first.
pub proof fn lemma_precedes_total(a: Seq<char>, b: Seq<char>)
    ensures
        a == b ==> !precedes(a, b),
        a != b ==> precedes(a, b) != precedes(b, a),
    decreases a.len(),
{
    if a.len() > 0 && b.len() > 0 {
        lemma_precedes_total(a.skip(1), b.skip(1));
        if a[0] == b[0] && a.skip(1) == b.skip(1) {
            assert(a =~= seq![a[0]] + a.skip(1));
            assert(b =~= seq![b[0]] + b.skip(1));
        }
    } else if a.len() == 0 && b.len() == 0 {
        assert(a =~= b);
    }
}

/// What comes before a text comes before all that the text comes before.
pub proof fn lemma_precedes_transitive(a: Seq<char>, b: Seq<char>, c: Seq<char>)
    requires
        precedes(a, b),
        precedes(b, c),
    ensures
        precedes(a, c),
    decreases a.len(),
{
    if a.len() > 0 && a[0] == b[0] && b[0] == c[0] {
        lemma_precedes_transitive(a.skip(1), b.skip(1), c.skip(1));
    }
}

/// Whether one text comes before another.
fn chars_precede(a: &[char], b: &[char]) -> (res: bool)
    ensures
        res == precedes(a@, b@),
{
    let n: usize = a.len();
    let m: usize = b.len();
    let mut i: usize = 0;
    proof {
        assert(a@.skip(0) =~= a@);
        assert(b@.skip(0) =~= b@);
    }
    while i < n && i < m
        invariant
            i <= n,
            i <= m,
            n == a@.len(),
            m == b@.len(),
            precedes(a@, b@) == precedes(a@.skip(i as int), b@.skip(i as int)),
        decreases n - i,
    {
        proof {
            assert(a@.skip(i as int).skip(1) =~= a@.skip(i + 1));
            assert(b@.skip(i as int).skip(1) =~= b@.skip(i + 1));
        }
        if a[i] < b[i] {
            return true;
        }
        if a[i] != b[i] {
            return false;
        }
        i += 1;
    }
    i < m
}

/// Whether one text comes before another.
pub fn text_precedes(a: &str, b: &str) -> (res: bool)
    ensures
        res == precedes(a@, b@),
{
    let x = text::to_chars(a);
    let y = text::to_chars(b);
    chars_precede(x.as_slice(), y.as_slice())
}

// ---------------------------------------------------------------------------------------------
// The map
// ---------------------------------------------------------------------------------------------

/// A map from text to numbers. No text occurs twice.
#[derive(Debug)]
pub struct TextMap {
    entries: Vec<(String, u64)>,
}

/// Where a text stands among entries.
pub open spec fn entry_at(entries: Seq<(String, u64)>, key: Seq<char>, i: int) -> bool {
    0 <= i < entries.len() && entries[i].0@ == key
}

/// The map that entries are.
pub open spec fn entries_map(entries: Seq<(String, u64)>) -> Map<Seq<char>, u64> {
    Map::new(
        |key: Seq<char>| exists|i: int| entry_at(entries, key, i),
        |key: Seq<char>| entries[choose|i: int| entry_at(entries, key, i)].1,
    )
}

/// No text occurs twice among entries.
pub open spec fn distinct(entries: Seq<(String, u64)>) -> bool {
    forall|i: int, j: int|
        0 <= i < j < entries.len() ==> (#[trigger] entries[i]).0@ != (#[trigger] entries[j]).0@
}

/// The value of a text is that of its entry.
pub proof fn lemma_entry(entries: Seq<(String, u64)>, i: int)
    requires
        distinct(entries),
        0 <= i < entries.len(),
    ensures
        entries_map(entries).contains_key(entries[i].0@),
        entries_map(entries)[entries[i].0@] == entries[i].1,
{
    let key = entries[i].0@;
    assert(entry_at(entries, key, i));
    let k = choose|k: int| entry_at(entries, key, k);
    if k < i {
        assert(entries[k].0@ != entries[i].0@);
    } else if i < k {
        assert(entries[i].0@ != entries[k].0@);
    }
}

impl TextMap {
    /// What the map holds.
    pub closed spec fn view(&self) -> Map<Seq<char>, u64> {
        entries_map(self.entries@)
    }

    /// No text occurs twice.
    pub closed spec fn wf(self) -> bool {
        distinct(self.entries@)
    }

    /// An empty map.
    pub fn new() -> (res: TextMap)
        ensures
            res.wf(),
            res@ == Map::<Seq<char>, u64>::empty(),
    {
        let res = TextMap { entries: Vec::new() };
        assert forall|key: Seq<char>| !res@.contains_key(key) by {
            if res@.contains_key(key) {
                let i = choose|i: int| entry_at(res.entries@, key, i);
                assert(false);
            }
        }
        assert(res@ =~= Map::<Seq<char>, u64>::empty());
        res
    }

    /// Where a text stands.
    fn find(&self, key: &str) -> (res: Option<usize>)
        requires
            self.wf(),
        ensures
            match res {
                Some(i) => entry_at(self.entries@, key@, i as int) && self@.contains_key(key@)
                    && self@[key@] == self.entries@[i as int].1,
                None => !self@.contains_key(key@),
            },
    {
        let n: usize = self.entries.len();
        let mut i: usize = 0;
        while i < n
            invariant
                i <= n,
                n == self.entries@.len(),
                self.wf(),
                forall|j: int| 0 <= j < i ==> (#[trigger] self.entries@[j]).0@ != key@,
            decreases n - i,
        {
            if text::same_text(self.entries[i].0.as_str(), key) {
                proof {
                    lemma_entry(self.entries@, i as int);
                }
                return Some(i);
            }
            i += 1;
        }
        proof {
            if self@.contains_key(key@) {
                let k = choose|k: int| entry_at(self.entries@, key@, k);
                assert(self.entries@[k].0@ == key@);
            }
        }
        None
    }

    /// The value of a text.
    pub fn get(&self, key: &str) -> (res: Option<u64>)
        requires
            self.wf(),
        ensures
            res == self@.get(key@),
    {
        match self.find(key) {
            Some(i) => Some(self.entries[i].1),
            None => None,
        }
    }

    /// Gives a text a value, whatever it had before.
    pub fn insert(&mut self, key: String, value: u64)
        requires
            old(self).wf(),
        ensures
            final(self).wf(),
            final(self)@ == old(self)@.insert(key@, value),
    {
        let ghost before = self.entries@;
        match self.find(key.as_str()) {
            Some(i) => {
                let ghost name = self.entries@[i as int].0@;
                self.entries.set(i, (key, value));
                proof {
                    let after = self.entries@;
                    assert(distinct(after)) by {
                        assert forall|p: int, q: int|
                            0 <= p < q < after.len() implies (#[trigger] after[p]).0@ != (
                        #[trigger] after[q]).0@ by {
                            assert(before[p].0@ != before[q].0@);
                        }
                    }
                    assert forall|k: Seq<char>| #[trigger]
                        self@.contains_key(k) <==> entries_map(before).insert(
                            name,
                            value,
                        ).contains_key(k) by {
                        if self@.contains_key(k) {
                            let p = choose|p: int| entry_at(after, k, p);
                            assert(entry_at(before, k, p));
                        }
                        if entries_map(before).contains_key(k) {
                            let p = choose|p: int| entry_at(before, k, p);
                            assert(entry_at(after, k, p));
                        }
                        assert(entry_at(after, name, i as int));
                    }
                    assert forall|k: Seq<char>| #[trigger] self@.contains_key(k) implies self@[k]
                        == entries_map(before).insert(name, value)[k] by {
                        let p = choose|p: int| entry_at(after, k, p);
                        lemma_entry(after, p);
                        if p == i {
                            assert(k == name);
                        } else {
                            lemma_entry(before, p);
                            assert(k != name) by {
                                if p < i {
                                    assert(before[p].0@ != before[i as int].0@);
                                } else {
                                    assert(before[i as int].0@ != before[p].0@);
                                }
                            }
                        }
                    }
                    assert(self@ =~= entries_map(before).insert(name, value));
                }
            },
            None => {
                let ghost name = key@;
                self.entries.push((key, value));
                proof {
                    let after = self.entries@;
                    let n = before.len() as int;
                    assert(after[n].0@ == name);
                    assert(distinct(after)) by {
                        assert forall|p: int, q: int|
                            0 <= p < q < after.len() implies (#[trigger] after[p]).0@ != (
                        #[trigger] after[q]).0@ by {
                            if q == n {
                                assert(entry_at(before, before[p].0@, p));
                                assert(entries_map(before).contains_key(before[p].0@));
                            } else {
                                assert(before[p].0@ != before[q].0@);
                            }
                        }
                    }
                    assert forall|k: Seq<char>| #[trigger]
                        self@.contains_key(k) <==> entries_map(before).insert(
                            name,
                            value,
                        ).contains_key(k) by {
                        if self@.contains_key(k) {
                            let p = choose|p: int| entry_at(after, k, p);
                            if p < n {
                                assert(entry_at(before, k, p));
                            }
                        }
                        if entries_map(before).contains_key(k) {
                            let p = choose|p: int| entry_at(before, k, p);
                            assert(entry_at(after, k, p));
                        }
                        assert(entry_at(after, name, n));
                    }
                    assert forall|k: Seq<char>| #[trigger] self@.contains_key(k) implies self@[k]
                        == entries_map(before).insert(name, value)[k] by {
                        let p = choose|p: int| entry_at(after, k, p);
                        lemma_entry(after, p);
                        if p < n {
                            assert(before[p].0@ == k);
                        }
                    }
                    assert(self@ =~= entries_map(before).insert(name, value));
                }
            },
        }
    }

    /// Removes a text.
    pub fn remove(&mut self, key: &str) -> (res: bool)
        requires
            old(self).wf(),
        ensures
            final(self).wf(),
            res == old(self)@.contains_key(key@),
            final(self)@ == old(self)@.remove(key@),
    {
        let ghost before = self.entries@;
        match self.find(key) {
            Some(i) => {
                let _ = self.entries.remove(i);
                proof {
                    let after = self.entries@;
                    let gap = i as int;
                    assert(after =~= before.remove(gap));
                    assert(distinct(after)) by {
                        assert forall|p: int, q: int|
                            0 <= p < q < after.len() implies (#[trigger] after[p]).0@ != (
                        #[trigger] after[q]).0@ by {
                            let p0 = if p < gap { p } else { p + 1 };
                            let q0 = if q < gap { q } else { q + 1 };
                            assert(before[p0].0@ != before[q0].0@);
                        }
                    }
                    assert forall|k: Seq<char>| #[trigger]
                        self@.contains_key(k) <==> entries_map(before).remove(key@).contains_key(
                            k,
                        ) by {
                        if self@.contains_key(k) {
                            let p = choose|p: int| entry_at(after, k, p);
                            let p0 = if p < gap { p } else { p + 1 };
                            assert(entry_at(before, k, p0));
                            if p0 < gap {
                                assert(before[p0].0@ != before[gap].0@);
                            } else {
                                assert(before[gap].0@ != before[p0].0@);
                            }
                        }
                        if entries_map(before).remove(key@).contains_key(k) {
                            let p = choose|p: int| entry_at(before, k, p);
                            let p1 = if p < gap { p } else { p - 1 };
                            assert(p != gap);
                            assert(entry_at(after, k, p1));
                        }
                    }
                    assert forall|k: Seq<char>| #[trigger] self@.contains_key(k) implies self@[k]
                        == entries_map(before).remove(key@)[k] by {
                        let p = choose|p: int| entry_at(after, k, p);
                        lemma_entry(after, p);
                        let p0 = if p < gap { p } else { p + 1 };
                        lemma_entry(before, p0);
                    }
                    assert(self@ =~= entries_map(before).remove(key@));
                }
                true
            },
            None => {
                assert(self@ =~= entries_map(before).remove(key@));
                false
            },
        }
    }

    /// How many texts there are.
    pub fn len(&self) -> (res: usize)
        ensures
            res == self.spec_len(),
    {
        self.entries.len()
    }

    /// How many texts there are.
    pub closed spec fn spec_len(&self) -> nat {
        self.entries@.len()
    }

    /// The text of an entry.
    pub closed spec fn key_at(&self, i: int) -> Seq<char> {
        self.entries@[i].0@
    }

    /// The entries are the map's texts, each once.
    pub proof fn lemma_keys(&self)
        requires
            self.wf(),
        ensures
            forall|i: int| 0 <= i < self.spec_len() ==> self@.contains_key(#[trigger] self.key_at(i)),
            forall|key: Seq<char>| #[trigger]
                self@.contains_key(key) ==> exists|i: int|
                    0 <= i < self.spec_len() && self.key_at(i) == key,
            forall|i: int, j: int|
                0 <= i < j < self.spec_len() ==> #[trigger] self.key_at(i) != #[trigger] self.key_at(
                    j,
                ),
    {
        assert forall|i: int| 0 <= i < self.spec_len() implies self@.contains_key(
            #[trigger] self.key_at(i),
        ) by {
            lemma_entry(self.entries@, i);
        }
        assert forall|key: Seq<char>| #[trigger] self@.contains_key(key) implies exists|i: int|
            0 <= i < self.spec_len() && self.key_at(i) == key by {
            let k = choose|k: int| entry_at(self.entries@, key, k);
            assert(self.key_at(k) == key);
        }
    }

    /// The text and the value of an entry.
    pub fn entry(&self, i: usize) -> (res: (String, u64))
        requires
            self.wf(),
            i < self.spec_len(),
        ensures
            res.0@ == self.key_at(i as int),
            self@.contains_key(res.0@),
            self@[res.0@] == res.1,
    {
        proof {
            lemma_entry(self.entries@, i as int);
        }
        (text::copy_text(self.entries[i].0.as_str()), self.entries[i].1)
    }
}

/// Whether texts stand in order and none occurs twice.
pub open spec fn in_order(list: Seq<String>) -> bool {
    forall|i: int, j: int|
        0 <= i < j < list.len() ==> precedes((#[trigger] list[i])@, (#[trigger] list[j])@)
}

/// The texts of a list.
pub open spec fn texts_of(list: Seq<String>) -> Set<Seq<char>> {
    Set::new(|key: Seq<char>| exists|i: int| 0 <= i < list.len() && (#[trigger] list[i])@ == key)
}

/// Where a text belongs in an ordered list.
fn place_of(list: &Vec<String>, item: &str) -> (res: usize)
    requires
        in_order(list@),
        !texts_of(list@).contains(item@),
    ensures
        res <= list@.len(),
        forall|j: int| 0 <= j < res ==> precedes((#[trigger] list@[j])@, item@),
        forall|j: int| res <= j < list@.len() ==> precedes(item@, (#[trigger] list@[j])@),
{
    let n: usize = list.len();
    let mut i: usize = 0;
    while i < n && text_precedes(list[i].as_str(), item)
        invariant
            i <= n,
            n == list@.len(),
            forall|j: int| 0 <= j < i ==> precedes((#[trigger] list@[j])@, item@),
        decreases n - i,
    {
        i += 1;
    }
    proof {
        assert forall|j: int| i <= j < list@.len() implies precedes(
            item@,
            (#[trigger] list@[j])@,
        ) by {
            lemma_precedes_total(list@[i as int]@, item@);
            assert(texts_of(list@).contains(list@[i as int]@));
            if j > i {
                lemma_precedes_transitive(item@, list@[i as int]@, list@[j]@);
            }
        }
    }
    i
}

/// Puts a new text into an ordered list.
pub fn insert_in_order(list: &mut Vec<String>, item: String)
    requires
        in_order(old(list)@),
        !texts_of(old(list)@).contains(item@),
    ensures
        in_order(final(list)@),
        texts_of(final(list)@) == texts_of(old(list)@).insert(item@),
{
    let ghost before = list@;
    let ghost key = item@;
    let place: usize = place_of(list, item.as_str());
    list.insert(place, item);
    proof {
        let after = list@;
        let p = place as int;
        assert(after =~= before.insert(p, item));
        assert forall|i: int, j: int| 0 <= i < j < after.len() implies precedes(
            (#[trigger] after[i])@,
            (#[trigger] after[j])@,
        ) by {
            let i0 = if i < p { i } else { i - 1 };
            let j0 = if j < p { j } else { j - 1 };
            if i == p {
                assert(precedes(key, before[j0]@));
            } else if j == p {
                assert(precedes(before[i0]@, key));
            } else {
                assert(precedes(before[i0]@, before[j0]@));
            }
        }
        assert forall|k: Seq<char>| #[trigger]
            texts_of(after).contains(k) <==> texts_of(before).insert(key).contains(k) by {
            if texts_of(after).contains(k) {
                let i = choose|i: int| 0 <= i < after.len() && (#[trigger] after[i])@ == k;
                if i != p {
                    let i0 = if i < p { i } else { i - 1 };
                    assert(before[i0]@ == k);
                }
            }
            if texts_of(before).contains(k) {
                let i = choose|i: int| 0 <= i < before.len() && (#[trigger] before[i])@ == k;
                let i1 = if i < p { i } else { i + 1 };
                assert(after[i1]@ == k);
            }
            assert(after[p]@ == key);
        }
        assert(texts_of(after) =~= texts_of(before).insert(key));
    }
}

impl TextMap {
    /// The texts in order.
    pub fn sorted_keys(&self) -> (res: Vec<String>)
        requires
            self.wf(),
        ensures
            in_order(res@),
            texts_of(res@) == self@.dom(),
    {
        let mut res: Vec<String> = Vec::new();
        let n: usize = self.len();
        let mut i: usize = 0;
        proof {
            self.lemma_keys();
        }
        while i < n
            invariant
                i <= n,
                n == self.spec_len(),
                self.wf(),
                in_order(res@),
                forall|k: int, j: int|
                    0 <= k < j < self.spec_len() ==> #[trigger] self.key_at(k)
                        != #[trigger] self.key_at(j),
                forall|key: Seq<char>| #[trigger]
                    texts_of(res@).contains(key) <==> exists|j: int|
                        0 <= j < i && #[trigger] self.key_at(j) == key,
            decreases n - i,
        {
            let (key, _) = self.entry(i);
            let ghost before = res@;
            let ghost name = key@;
            insert_in_order(&mut res, key);
            proof {
                assert forall|k: Seq<char>| #[trigger]
                    texts_of(res@).contains(k) <==> exists|j: int|
                        0 <= j < i + 1 && #[trigger] self.key_at(j) == k by {
                    assert(texts_of(res@).contains(k) <==> texts_of(before).contains(k) || k
                        == name);
                    if k == name {
                        assert(self.key_at(i as int) == k);
                    }
                }
            }
            i += 1;
        }
        proof {
            assert forall|k: Seq<char>| #[trigger]
                texts_of(res@).contains(k) <==> self@.dom().contains(k) by {
                if self@.contains_key(k) {
                    let j = choose|j: int| 0 <= j < self.spec_len() && self.key_at(j) == k;
                    assert(self.key_at(j) == k);
                }
            }
            assert(texts_of(res@) =~= self@.dom());
        }
        res
    }
}

/// One text precedes another exactly if it has the smaller character at the first place where
/// they differ, or ends there.
pub proof fn law_order_of_texts(
    same: Seq<char>,
    c: char,
    d: char,
    a: Seq<char>,
    b: Seq<char>,
)
    ensures
        c < d ==> precedes(same + seq![c] + a, same + seq![d] + b) && !precedes(
            same + seq![d] + b,
            same + seq![c] + a,
        ),
        precedes(same, same + seq![c] + a),
        !precedes(same + seq![c] + a, same),
        !precedes(same, same),
    decreases same.len(),
{
    let x = same + seq![c] + a;
    let y = same + seq![d] + b;
    if same.len() > 0 {
        assert(x[0] == same[0] && y[0] == same[0]);
        assert(x.skip(1) =~= same.skip(1) + seq![c] + a);
        assert(y.skip(1) =~= same.skip(1) + seq![d] + b);
        law_order_of_texts(same.skip(1), c, d, a, b);
    } else {
        assert(x[0] == c && y[0] == d);
    }
}

/// A list in order holds nothing twice, and of any two of its texts the earlier precedes the
/// later.
pub proof fn law_lists_in_order(list: Seq<String>, i: int, j: int)
    requires
        in_order(list),
        0 <= i < j < list.len(),
    ensures
        precedes(list[i]@, list[j]@),
        list[i]@ != list[j]@,
{
    assert(precedes(list[i]@, list[j]@));
    law_order_of_texts(list[i]@, 'a', 'a', Seq::empty(), Seq::empty());
}

} // verus!
