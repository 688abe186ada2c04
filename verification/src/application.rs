use vstd::prelude::*;

use crate::time::TimeSpan;

verus! {

/// How long an application has been seen on screen.
#[derive(Debug)]
pub struct AppUsage {
    pub total_time: TimeSpan,
}

/// A program with a visible top-level window.
#[derive(Debug)]
pub struct Application {
    /// The window title.
    pub title: String,
    /// The file name of the executable.
    pub name: String,
    /// The name shown in reports (the product name, or else the file name).
    pub display_name: String,
    /// The full path of the executable.
    pub executable: String,
    /// The process that owns the window.
    pub pid: u32,
    pub usage: AppUsage,
}

impl Clone for AppUsage {
    fn clone(&self) -> (r: Self)
        ensures
            r == *self,
    {
        AppUsage { total_time: self.total_time }
    }
}

impl Clone for Application {
    fn clone(&self) -> (r: Self)
        ensures
            r == *self,
    {
        Application {
            title: self.title.clone(),
            name: self.name.clone(),
            display_name: self.display_name.clone(),
            executable: self.executable.clone(),
            pid: self.pid,
            usage: self.usage.clone(),
        }
    }
}

/// One key of an [`ApplicationMap`] with the application stored under it.
#[derive(Debug)]
pub struct Entry {
    pub key: String,
    pub app: Application,
}

impl Clone for Entry {
    fn clone(&self) -> (r: Self)
        ensures
            r == *self,
    {
        Entry { key: self.key.clone(), app: self.app.clone() }
    }
}

/// Applications keyed by a string (in practice the executable path).
///
/// Entries are kept in the order in which their keys were first inserted;
/// no key occurs twice.
#[derive(Debug)]
pub struct ApplicationMap {
    entries: Vec<Entry>,
}

/// No two entries share a key.
pub open spec fn keys_distinct(entries: Seq<Entry>) -> bool {
    forall|i: int, j: int|
        0 <= i < entries.len() && 0 <= j < entries.len() && i != j ==> entries[i].key@
            != entries[j].key@
}

/// Some entry has key `k`.
pub open spec fn has_key(entries: Seq<Entry>, k: Seq<char>) -> bool {
    exists|i: int| 0 <= i < entries.len() && entries[i].key@ == k
}

/// The position of the entry with key `k`.
pub open spec fn position_of(entries: Seq<Entry>, k: Seq<char>) -> int {
    choose|i: int| 0 <= i < entries.len() && entries[i].key@ == k
}

/// The map that a sequence of entries stands for.
pub open spec fn entries_map(entries: Seq<Entry>) -> Map<Seq<char>, Application> {
    Map::new(|k: Seq<char>| has_key(entries, k), |k: Seq<char>| entries[position_of(entries, k)].app)
}

/// With distinct keys, the map holds at the key of each entry exactly that entry's application.
pub proof fn lemma_entries_map_at(entries: Seq<Entry>, i: int)
    requires
        keys_distinct(entries),
        0 <= i < entries.len(),
    ensures
        entries_map(entries).contains_key(entries[i].key@),
        entries_map(entries)[entries[i].key@] == entries[i].app,
        position_of(entries, entries[i].key@) == i,
{
    let k = entries[i].key@;
    assert(has_key(entries, k));
    let j = position_of(entries, k);
    assert(0 <= j < entries.len() && entries[j].key@ == k);
}

/// Appending an entry with a new key inserts it into the map.
pub proof fn lemma_entries_map_push(entries: Seq<Entry>, e: Entry)
    requires
        keys_distinct(entries),
        !has_key(entries, e.key@),
    ensures
        keys_distinct(entries.push(e)),
        entries_map(entries.push(e)) == entries_map(entries).insert(e.key@, e.app),
{
    let s = entries.push(e);
    assert(keys_distinct(s)) by {
        assert forall|i: int, j: int|
            0 <= i < s.len() && 0 <= j < s.len() && i != j implies s[i].key@ != s[j].key@ by {
            if i == entries.len() {
                assert(!(0 <= j < entries.len() && entries[j].key@ == e.key@));
            } else if j == entries.len() {
                assert(!(0 <= i < entries.len() && entries[i].key@ == e.key@));
            }
        }
    }
    let m1 = entries_map(s);
    let m2 = entries_map(entries).insert(e.key@, e.app);
    assert forall|k: Seq<char>| #[trigger] m1.contains_key(k) == m2.contains_key(k) by {
        if has_key(entries, k) {
            let i = choose|i: int| 0 <= i < entries.len() && entries[i].key@ == k;
            assert(s[i].key@ == k);
        }
        if k == e.key@ {
            assert(s[entries.len() as int].key@ == k);
        }
        if has_key(s, k) {
            let i = choose|i: int| 0 <= i < s.len() && s[i].key@ == k;
            if i < entries.len() {
                assert(entries[i].key@ == k);
            }
        }
    }
    assert forall|k: Seq<char>| m1.contains_key(k) implies #[trigger] m1[k] == m2[k] by {
        let i = choose|i: int| 0 <= i < s.len() && s[i].key@ == k;
        lemma_entries_map_at(s, i);
        if i < entries.len() {
            lemma_entries_map_at(entries, i);
        }
    }
    assert(m1 =~= m2);
}

/// Replacing the application of entry `i` (same key) updates the map at that key.
pub proof fn lemma_entries_map_update(entries: Seq<Entry>, i: int, e: Entry)
    requires
        keys_distinct(entries),
        0 <= i < entries.len(),
        e.key@ == entries[i].key@,
    ensures
        keys_distinct(entries.update(i, e)),
        entries_map(entries.update(i, e)) == entries_map(entries).insert(e.key@, e.app),
{
    let s = entries.update(i, e);
    assert(keys_distinct(s)) by {
        assert forall|a: int, b: int|
            0 <= a < s.len() && 0 <= b < s.len() && a != b implies s[a].key@ != s[b].key@ by {
            assert(s[a].key@ == entries[a].key@);
            assert(s[b].key@ == entries[b].key@);
        }
    }
    let m1 = entries_map(s);
    let m2 = entries_map(entries).insert(e.key@, e.app);
    assert forall|k: Seq<char>| #[trigger] m1.contains_key(k) == m2.contains_key(k) by {
        if has_key(entries, k) {
            let j = choose|j: int| 0 <= j < entries.len() && entries[j].key@ == k;
            assert(s[j].key@ == k);
        }
        if k == e.key@ {
            assert(s[i].key@ == k);
        }
        if has_key(s, k) {
            let j = choose|j: int| 0 <= j < s.len() && s[j].key@ == k;
            assert(entries[j].key@ == k);
        }
    }
    assert forall|k: Seq<char>| m1.contains_key(k) implies #[trigger] m1[k] == m2[k] by {
        let j = choose|j: int| 0 <= j < s.len() && s[j].key@ == k;
        lemma_entries_map_at(s, j);
        if j != i {
            lemma_entries_map_at(entries, j);
        }
    }
    assert(m1 =~= m2);
}

impl View for ApplicationMap {
    type V = Map<Seq<char>, Application>;

    closed spec fn view(&self) -> Map<Seq<char>, Application> {
        entries_map(self.entries@)
    }
}

impl ApplicationMap {
    /// The well-formedness of the map: no key occurs twice.
    pub closed spec fn wf(&self) -> bool {
        keys_distinct(self.entries@)
    }

    /// The stored applications, in the order in which their keys were first inserted.
    pub closed spec fn values(&self) -> Seq<Application> {
        self.entries@.map_values(|e: Entry| e.app)
    }

    /// The keys, in the order in which they were first inserted.
    pub closed spec fn keys(&self) -> Seq<Seq<char>> {
        self.entries@.map_values(|e: Entry| e.key@)
    }

    /// The keys are distinct, each maps to the application at its position, and the
    /// map's domain is exactly the set of keys.
    pub proof fn lemma_view(&self)
        requires
            self.wf(),
        ensures
            self.keys().len() == self.values().len(),
            forall|i: int, j: int|
                0 <= i < self.keys().len() && 0 <= j < self.keys().len() && i != j
                    ==> self.keys()[i] != self.keys()[j],
            forall|i: int|
                0 <= i < self.keys().len() ==> #[trigger] self@.contains_key(self.keys()[i])
                    && self@[self.keys()[i]] == self.values()[i],
            forall|k: Seq<char>|
                #[trigger] self@.contains_key(k) ==> exists|i: int|
                    0 <= i < self.keys().len() && self.keys()[i] == k,
    {
        assert forall|i: int|
            0 <= i < self.keys().len() implies #[trigger] self@.contains_key(self.keys()[i])
            && self@[self.keys()[i]] == self.values()[i] by {
            lemma_entries_map_at(self.entries@, i);
        }
        assert forall|k: Seq<char>| #[trigger] self@.contains_key(k) implies exists|i: int|
            0 <= i < self.keys().len() && self.keys()[i] == k by {
            let i = choose|i: int| 0 <= i < self.entries@.len() && self.entries@[i].key@ == k;
            assert(self.keys()[i] == k);
        }
    }

    /// Every entry is filed under its own executable, as the collector files them.
    pub open spec fn keyed_by_executable(&self) -> bool {
        forall|i: int|
            0 <= i < self.keys().len() ==> #[trigger] self.keys()[i] == self.values()[i].executable@
    }

    /// An empty map.
    pub fn new() -> (m: ApplicationMap)
        ensures
            m.wf(),
            m@ == Map::<Seq<char>, Application>::empty(),
            m.values() == Seq::<Application>::empty(),
            m.keys() == Seq::<Seq<char>>::empty(),
    {
        let m = ApplicationMap { entries: Vec::new() };
        assert(m@ =~= Map::<Seq<char>, Application>::empty());
        assert(m.values() =~= Seq::<Application>::empty());
        assert(m.keys() =~= Seq::<Seq<char>>::empty());
        m
    }

    /// The number of entries.
    pub fn len(&self) -> (n: usize)
        ensures
            n == self.values().len(),
            n == self.keys().len(),
    {
        self.entries.len()
    }

    /// The key of the entry at position `i`.
    pub fn key_at(&self, i: usize) -> (k: &String)
        requires
            i < self.keys().len(),
        ensures
            k@ == self.keys()[i as int],
    {
        &self.entries[i].key
    }

    /// The application of the entry at position `i`.
    pub fn app_at(&self, i: usize) -> (a: &Application)
        requires
            i < self.values().len(),
        ensures
            *a == self.values()[i as int],
    {
        &self.entries[i].app
    }

    /// The position of the entry with key `key`, if there is one.
    pub fn find(&self, key: &String) -> (r: Option<usize>)
        requires
            self.wf(),
        ensures
            r is None <==> !self@.contains_key(key@),
            r matches Some(i) ==> i < self.keys().len() && i < self.values().len()
                && self.keys()[i as int] == key@
                && self@[key@] == self.values()[i as int],
    {
        let mut i: usize = 0;
        while i < self.entries.len()
            invariant
                i <= self.entries@.len(),
                keys_distinct(self.entries@),
                forall|j: int| 0 <= j < i ==> self.entries@[j].key@ != key@,
            decreases self.entries@.len() - i,
        {
            if self.entries[i].key == *key {
                proof {
                    lemma_entries_map_at(self.entries@, i as int);
                }
                return Some(i);
            }
            i = i + 1;
        }
        None
    }

    /// The application stored under `key`.
    pub fn get(&self, key: &String) -> (r: Option<&Application>)
        requires
            self.wf(),
        ensures
            r is None <==> !self@.contains_key(key@),
            r matches Some(a) ==> *a == self@[key@],
    {
        match self.find(key) {
            Some(i) => Some(&self.entries[i].app),
            None => None,
        }
    }

    /// Stores `app` under `key`, replacing what was stored there.
    pub fn insert(&mut self, key: String, app: Application)
        requires
            old(self).wf(),
        ensures
            final(self).wf(),
            final(self)@ == old(self)@.insert(key@, app),
            !old(self)@.contains_key(key@) ==> final(self).values() == old(self).values().push(app)
                && final(self).keys() == old(self).keys().push(key@),
            old(self)@.contains_key(key@) ==> final(self).keys() == old(self).keys() && exists|i: int|
                0 <= i < old(self).keys().len() && old(self).keys()[i] == key@
                    && final(self).values() == old(self).values().update(i, app),
    {
        match self.find(&key) {
            Some(i) => {
                let ghost old_entries = self.entries@;
                let e = Entry { key, app };
                proof {
                    lemma_entries_map_update(old_entries, i as int, e);
                }
                self.entries.set(i, e);
                assert(self.keys() =~= old(self).keys());
                assert(self.values() =~= old(self).values().update(i as int, e.app));
            },
            None => {
                let ghost old_entries = self.entries@;
                let e = Entry { key, app };
                proof {
                    lemma_entries_map_push(old_entries, e);
                }
                self.entries.push(e);
                assert(self.values() =~= old(self).values().push(e.app));
                assert(self.keys() =~= old(self).keys().push(e.key@));
            },
        }
    }

    /// Stores `app` under `key` unless something is stored there already.
    pub fn insert_if_absent(&mut self, key: String, app: Application)
        requires
            old(self).wf(),
        ensures
            final(self).wf(),
            old(self)@.contains_key(key@) ==> final(self)@ == old(self)@ && final(self).values()
                == old(self).values() && final(self).keys() == old(self).keys(),
            !old(self)@.contains_key(key@) ==> final(self)@ == old(self)@.insert(key@, app)
                && final(self).values() == old(self).values().push(app) && final(self).keys()
                == old(self).keys().push(key@),
    {
        if self.find(&key).is_none() {
            self.insert(key, app);
        }
    }
}

impl Clone for ApplicationMap {
    fn clone(&self) -> (r: Self)
        ensures
            r@ == self@,
            r.values() == self.values(),
            r.keys() == self.keys(),
            r.wf() == self.wf(),
    {
        let mut entries: Vec<Entry> = Vec::new();
        let mut i: usize = 0;
        while i < self.entries.len()
            invariant
                i <= self.entries@.len(),
                entries@ == self.entries@.take(i as int),
            decreases self.entries@.len() - i,
        {
            entries.push(self.entries[i].clone());
            assert(self.entries@.take(i + 1) =~= self.entries@.take(i as int).push(self.entries@[i as int]));
            i = i + 1;
        }
        assert(self.entries@.take(i as int) =~= self.entries@);
        ApplicationMap { entries }
    }
}

} // verus!
