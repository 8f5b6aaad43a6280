//! A map from texts to texts that keeps the order of first insertion.

use crate::text::owned;
use vstd::prelude::*;

verus! {

/// A text and what it stands for.
#[derive(Debug, PartialEq, Eq)]
pub struct TextEntry {
    pub key: String,
    pub value: String,
}

/// The mathematical content of a [`TextEntry`].
#[verifier::ext_equal]
pub struct TextEntryView {
    pub key: Seq<char>,
    pub value: Seq<char>,
}

impl View for TextEntry {
    type V = TextEntryView;

    open spec fn view(&self) -> TextEntryView {
        TextEntryView {
            key: self.key@,
            value: self.value@,
        }
    }
}

impl DeepView for TextEntry {
    type V = TextEntryView;

    open spec fn deep_view(&self) -> TextEntryView {
        self@
    }
}

impl Clone for TextEntry {
    fn clone(&self) -> (r: Self)
        ensures
            r@ == self@,
    {
        let r = TextEntry {
            key: self.key.clone(),
            value: self.value.clone(),
        };
        r
    }
}

/// A map from texts to texts.
#[derive(Debug, PartialEq, Eq)]
pub struct TextMap {
    pub entries: Vec<TextEntry>,
}

/// The mathematical content of a [`TextMap`].
#[verifier::ext_equal]
pub struct TextMapView {
    pub entries: Seq<TextEntryView>,
}

impl View for TextMap {
    type V = TextMapView;

    open spec fn view(&self) -> TextMapView {
        TextMapView {
            entries: self.entries.deep_view(),
        }
    }
}

impl DeepView for TextMap {
    type V = TextMapView;

    open spec fn deep_view(&self) -> TextMapView {
        self@
    }
}

impl Clone for TextMap {
    fn clone(&self) -> (r: Self)
        ensures
            r@ == self@,
    {
        let r = TextMap {
            entries: self.entries.clone(),
        };
        proof {
            assert(r.entries.deep_view() =~= self.entries.deep_view());
        }
        r
    }
}

impl Default for TextMap {
    fn default() -> (r: Self)
        ensures
            r@ == (TextMapView {
                entries: seq![],
            }),
    {
        let r = TextMap {
            entries: Vec::new(),
        };
        proof {
            assert(r.entries.deep_view() =~= seq![]);
        }
        r
    }
}

/// The position of the entry for a key, or the length when there is none.
pub open spec fn key_index(entries: Seq<TextEntryView>, key: Seq<char>) -> int
    decreases entries.len(),
{
    if entries.len() == 0 || entries[0].key == key {
        0
    } else {
        1 + key_index(entries.drop_first(), key)
    }
}

impl TextMapView {
    /// No key has two entries.
    pub open spec fn distinct(self) -> bool {
        forall|i: int, j: int|
            0 <= i < j < self.entries.len() ==> (#[trigger] self.entries[i]).key != (
            #[trigger] self.entries[j]).key
    }

    /// The value of a key.
    pub open spec fn get(self, key: Seq<char>) -> Option<Seq<char>> {
        let k = key_index(self.entries, key);
        if k < self.entries.len() {
            Some(self.entries[k].value)
        } else {
            None
        }
    }

    /// The map with the value of a key set; a later value replaces an earlier
    /// one.
    pub open spec fn insert(self, key: Seq<char>, value: Seq<char>) -> TextMapView {
        let k = key_index(self.entries, key);
        let entry = TextEntryView { key, value };
        TextMapView {
            entries: if k < self.entries.len() {
                self.entries.update(k, entry)
            } else {
                self.entries.push(entry)
            },
        }
    }

}

impl TextMap {
    /// Finds the entry for a key.
    fn find(&self, key: &String) -> (r: usize)
        ensures
            r == key_index(self@.entries, key@),
            r <= self.entries@.len(),
    {
        let ghost views = self@.entries;
        let mut i: usize = 0;
        proof {
            assert(views.skip(0) =~= views);
        }
        while i < self.entries.len() && self.entries[i].key != *key
            invariant
                i <= self.entries@.len(),
                views == self@.entries,
                key_index(views, key@) == i + key_index(views.skip(i as int), key@),
            decreases self.entries@.len() - i,
        {
            proof {
                assert(views.skip(i as int)[0] == self.entries@[i as int]@);
                assert(views.skip(i as int).drop_first() =~= views.skip(i + 1));
            }
            i = i + 1;
        }
        proof {
            if i < self.entries@.len() {
                assert(views.skip(i as int)[0] == self.entries@[i as int]@);
            }
        }
        i
    }

    /// The value of a key.
    pub fn get(&self, key: &str) -> (r: Option<String>)
        ensures
            r.deep_view() == self@.get(key@),
    {
        let k: usize = self.find(&owned(key));
        if k < self.entries.len() {
            Some(self.entries[k].value.clone())
        } else {
            None
        }
    }

    /// Sets the value of a key.
    pub fn insert(&mut self, key: String, value: String)
        ensures
            final(self)@ == old(self)@.insert(key@, value@),
            old(self)@.distinct() ==> final(self)@.distinct(),
    {
        proof {
            lemma_insert_distinct(self@, key@, value@);
        }
        let k: usize = self.find(&key);
        let entry = TextEntry { key, value };
        if k < self.entries.len() {
            self.entries.set(k, entry);
            proof {
                assert(self@.entries =~= old(self)@.entries.update(k as int, entry@));
            }
        } else {
            self.entries.push(entry);
            proof {
                assert(self@.entries =~= old(self)@.entries.push(entry@));
            }
        }
    }
}

/// A value reads back, and every other key stays as it was.
pub proof fn law_value_reads_back(
    db: TextMapView,
    key: Seq<char>,
    value: Seq<char>,
    other: Seq<char>,
)
    ensures
        db.insert(key, value).get(key) == Some(value),
        other != key ==> db.insert(key, value).get(other) == db.get(other),
    decreases db.entries.len(),
{
    let after = db.insert(key, value);
    lemma_key_index(db.entries, key);
    lemma_key_index(after.entries, key);
    lemma_key_index(db.entries, other);
    lemma_key_index(after.entries, other);
    let k = key_index(db.entries, key);
    assert(after.entries[k].key == key);
    if other != key {
        let a = key_index(db.entries, other);
        let b = key_index(after.entries, other);
        if a < db.entries.len() {
            assert(after.entries[a].key == other);
        }
        if b < after.entries.len() && b < db.entries.len() {
            assert(db.entries[b].key == other);
        }
    }
}

/// Setting a value gives no key a second entry.
pub proof fn lemma_insert_distinct(db: TextMapView, key: Seq<char>, value: Seq<char>)
    ensures
        db.distinct() ==> db.insert(key, value).distinct(),
{
    lemma_key_index(db.entries, key);
    let after = db.insert(key, value);
    if db.distinct() {
        assert forall|i: int, j: int| 0 <= i < j < after.entries.len() implies (
        #[trigger] after.entries[i]).key != (#[trigger] after.entries[j]).key by {
            let k = key_index(db.entries, key);
            assert(i < db.entries.len());
            assert(after.entries[i].key == db.entries[i].key);
            if j < db.entries.len() {
                assert(after.entries[j].key == db.entries[j].key);
            }
        }
    }
}

/// Where no key has two entries, an entry tells the value of its key.
pub proof fn lemma_entry_is_found(db: TextMapView, i: int)
    requires
        db.distinct(),
        0 <= i < db.entries.len(),
    ensures
        db.get(db.entries[i].key) == Some(db.entries[i].value),
{
    let key = db.entries[i].key;
    let k = key_index(db.entries, key);
    lemma_key_index(db.entries, key);
    if k < i {
        assert(db.entries[k].key != db.entries[i].key);
    }
}

/// Maps with the same entries, in whatever order, have the same values.
pub proof fn law_order_of_entries_is_free(a: TextMapView, b: TextMapView, key: Seq<char>)
    requires
        a.distinct(),
        b.distinct(),
        forall|e: TextEntryView| a.entries.contains(e) <==> b.entries.contains(e),
    ensures
        a.get(key) == b.get(key),
{
    let i = key_index(a.entries, key);
    let j = key_index(b.entries, key);
    lemma_key_index(a.entries, key);
    lemma_key_index(b.entries, key);
    if i < a.entries.len() {
        let e = a.entries[i];
        assert(a.entries.contains(e));
        assert(b.entries.contains(e));
        let k = choose|k: int| 0 <= k < b.entries.len() && b.entries[k] == e;
        lemma_entry_is_found(b, k);
    } else if j < b.entries.len() {
        let e = b.entries[j];
        assert(b.entries.contains(e));
        assert(a.entries.contains(e));
        let k = choose|k: int| 0 <= k < a.entries.len() && a.entries[k] == e;
        assert(a.entries[k].key == key);
        lemma_entry_is_found(a, k);
    }
}

/// The position found is the first that has the key.
proof fn lemma_key_index(entries: Seq<TextEntryView>, key: Seq<char>)
    ensures
        0 <= key_index(entries, key) <= entries.len(),
        key_index(entries, key) < entries.len() ==> entries[key_index(
            entries,
            key,
        )].key == key,
        forall|i: int|
            0 <= i < key_index(entries, key) ==> (#[trigger] entries[i]).key != key,
    decreases entries.len(),
{
    if entries.len() > 0 && entries[0].key != key {
        lemma_key_index(entries.drop_first(), key);
        assert forall|i: int| 0 <= i < key_index(entries, key) implies (
        #[trigger] entries[i]).key != key by {
            if i > 0 {
                assert(entries.drop_first()[i - 1] == entries[i]);
            }
        }
    }
}

} // verus!
