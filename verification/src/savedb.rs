use vstd::prelude::*;

verus! {

/// How a game whose saves are synced is identified.
#[derive(Debug, PartialEq, Eq, Hash)]
pub enum SaveType {
    /// A GOG game, by its product id.
    GOG(i64),
    /// Anything else, by a name.
    Other(String),
}

/// Where the save files of one game are.
#[derive(Debug)]
pub struct SaveInfo {
    pub identifier: SaveType,
    pub path: String,
}

/// The map that a sequence of (key, save) entries describes; a later entry for a key
/// replaces an earlier one.
pub open spec fn entries_map(s: Seq<(String, SaveInfo)>) -> Map<Seq<char>, SaveInfo>
    decreases s.len(),
{
    if s.len() == 0 {
        Map::empty()
    } else {
        entries_map(s.drop_last()).insert(s.last().0@, s.last().1)
    }
}

/// No two entries share a key.
pub open spec fn keys_distinct(s: Seq<(String, SaveInfo)>) -> bool {
    forall|i: int, j: int|
        0 <= i < s.len() && 0 <= j < s.len() && i != j ==> #[trigger] s[i].0@ != #[trigger] s[j].0@
}

proof fn lemma_entries_map_lookup(s: Seq<(String, SaveInfo)>)
    requires
        keys_distinct(s),
    ensures
        forall|i: int|
            0 <= i < s.len() ==> entries_map(s).contains_key(#[trigger] s[i].0@) && entries_map(
                s,
            )[s[i].0@] == s[i].1,
        forall|k: Seq<char>|
            #[trigger] entries_map(s).contains_key(k) ==> exists|i: int|
                0 <= i < s.len() && s[i].0@ == k,
        entries_map(s).dom().finite(),
        entries_map(s).len() == s.len(),
    decreases s.len(),
{
    if s.len() > 0 {
        let t = s.drop_last();
        assert forall|i: int, j: int|
            0 <= i < t.len() && 0 <= j < t.len() && i != j implies #[trigger] t[i].0@
            != #[trigger] t[j].0@ by {
            assert(t[i] == s[i] && t[j] == s[j]);
        }
        lemma_entries_map_lookup(t);
        let last = s.last();
        assert forall|i: int| 0 <= i < t.len() implies #[trigger] t[i].0@ != last.0@ by {
            assert(t[i] == s[i]);
            assert(s[i].0@ != s[s.len() - 1].0@);
        }
        assert(!entries_map(t).contains_key(last.0@));
        assert forall|i: int|
            0 <= i < s.len() implies entries_map(s).contains_key(#[trigger] s[i].0@)
            && entries_map(s)[s[i].0@] == s[i].1 by {
            if i < s.len() - 1 {
                assert(s[i] == t[i]);
            }
        }
        assert forall|k: Seq<char>| #[trigger] entries_map(s).contains_key(k) implies exists|
            i: int,
        | 0 <= i < s.len() && s[i].0@ == k by {
            if k == last.0@ {
                assert(s[s.len() - 1].0@ == k);
            } else {
                assert(entries_map(t).contains_key(k));
                let i = choose|i: int| 0 <= i < t.len() && t[i].0@ == k;
                assert(s[i] == t[i]);
            }
        }
    }
}

proof fn lemma_replaced(before: Seq<(String, SaveInfo)>, s: Seq<(String, SaveInfo)>, i: int)
    requires
        keys_distinct(before),
        0 <= i < before.len(),
        s.len() == before.len(),
        s[i].0@ == before[i].0@,
        forall|j: int| 0 <= j < before.len() && j != i ==> #[trigger] s[j] == before[j],
    ensures
        keys_distinct(s),
        entries_map(s) == entries_map(before).insert(
            s[i].0@,
            s[i].1,
        ),
{
    assert forall|a: int, b: int|
        0 <= a < s.len() && 0 <= b < s.len() && a != b implies #[trigger] s[a].0@
        != #[trigger] s[b].0@ by {
        if a != i {
            assert(s[a] == before[a]);
        }
        if b != i {
            assert(s[b] == before[b]);
        }
    }
    lemma_entries_map_lookup(s);
    lemma_entries_map_lookup(before);
    let m = entries_map(before).insert(s[i].0@, s[i].1);
    assert forall|k: Seq<char>| #[trigger] entries_map(s).contains_key(k) implies m.contains_key(k) by {
        let j = choose|j: int| 0 <= j < s.len() && s[j].0@ == k;
        if j != i {
            assert(s[j] == before[j]);
        }
    }
    assert forall|k: Seq<char>| #[trigger] m.contains_key(k) implies entries_map(s).contains_key(k) && entries_map(s)[k] == m[k] by {
        if k != s[i].0@ {
            let j = choose|j: int| 0 <= j < before.len() && before[j].0@ == k;
            assert(j != i);
            assert(s[j] == before[j]);
        }
    }
    assert(entries_map(s) =~= m);
}


/// Where the save files of each synced game are, by key.
pub struct SaveDB {
    saves: Vec<(String, SaveInfo)>,
}

impl View for SaveDB {
    type V = Map<Seq<char>, SaveInfo>;

    closed spec fn view(&self) -> Map<Seq<char>, SaveInfo> {
        entries_map(self.saves@)
    }
}

impl SaveDB {
    #[verifier::type_invariant]
    spec fn inv(self) -> bool {
        keys_distinct(self.saves@)
    }

    /// An empty database.
    pub fn new() -> (db: SaveDB)
        ensures
            db@ == Map::<Seq<char>, SaveInfo>::empty(),
    {
        SaveDB { saves: Vec::new() }
    }

    fn position(&self, key: &String) -> (res: Option<usize>)
        ensures
            match res {
                Some(i) => i < self.saves@.len() && self.saves@[i as int].0@ == key@,
                None => forall|i: int| 0 <= i < self.saves@.len() ==> #[trigger] self.saves@[i].0@ != key@,
            },
    {
        let mut i: usize = 0;
        while i < self.saves.len()
            invariant
                i <= self.saves@.len(),
                forall|j: int| 0 <= j < i ==> #[trigger] self.saves@[j].0@ != key@,
            decreases self.saves@.len() - i,
        {
            if self.saves[i].0 == *key {
                return Some(i);
            }
            i += 1;
        }
        None
    }

    /// Whether the database has an entry for `key`.
    pub fn contains_key(&self, key: &String) -> (res: bool)
        ensures
            res == self@.contains_key(key@),
    {
        proof {
            use_type_invariant(self);
            lemma_entries_map_lookup(self.saves@);
        }
        self.position(key).is_some()
    }

    /// The entry for `key`, if there is one.
    pub fn get(&self, key: &String) -> (res: Option<&SaveInfo>)
        ensures
            match res {
                Some(v) => self@.contains_key(key@) && *v == self@[key@],
                None => !self@.contains_key(key@),
            },
    {
        proof {
            use_type_invariant(self);
            lemma_entries_map_lookup(self.saves@);
        }
        match self.position(key) {
            Some(i) => Some(&self.saves[i].1),
            None => None,
        }
    }

    /// The number of entries.
    pub fn len(&self) -> (n: usize)
        ensures
            n == self@.len(),
    {
        proof {
            use_type_invariant(self);
            lemma_entries_map_lookup(self.saves@);
        }
        self.saves.len()
    }

    /// Records `value` under `key`, replacing and handing back the entry that was there.
    pub fn insert(&mut self, key: String, value: SaveInfo) -> (old_value: Option<SaveInfo>)
        ensures
            final(self)@ == old(self)@.insert(key@, value),
            match old_value {
                Some(v) => old(self)@.contains_key(key@) && v == old(self)@[key@],
                None => !old(self)@.contains_key(key@),
            },
    {
        proof {
            use_type_invariant(&*self);
            lemma_entries_map_lookup(self.saves@);
        }
        let ghost before = self.saves@;
        let found = self.position(&key);
        let mut saves: Vec<(String, SaveInfo)> = Vec::new();
        std::mem::swap(&mut saves, &mut self.saves);
        match found {
            Some(i) => {
                let ghost expected = before.update(i as int, (key, value));
                let old_entry = saves.remove(i);
                assert(saves@ =~= before.remove(i as int));
                saves.insert(i, (key, value));
                proof {
                    assert(saves@ =~= expected);
                    lemma_replaced(before, saves@, i as int);
                }
                self.saves = saves;
                Some(old_entry.1)
            },
            None => {
                saves.push((key, value));
                proof {
                    assert(saves@.drop_last() =~= before);
                    assert forall|a: int, b: int|
                        0 <= a < saves@.len() && 0 <= b < saves@.len() && a != b implies #[trigger] saves@[a].0@
                        != #[trigger] saves@[b].0@ by {
                        if a < before.len() {
                            assert(saves@[a] == before[a]);
                        }
                        if b < before.len() {
                            assert(saves@[b] == before[b]);
                        }
                    }
                }
                self.saves = saves;
                None
            },
        }
    }

    /// The entries, each key once, in no particular order.
    pub fn entries(&self) -> (res: &[(String, SaveInfo)])
        ensures
            res@.len() == self@.len(),
            keys_distinct(res@),
            forall|i: int|
                0 <= i < res@.len() ==> self@.contains_key(#[trigger] res@[i].0@) && self@[res@[i].0@]
                    == res@[i].1,
            forall|k: Seq<char>|
                #[trigger] self@.contains_key(k) ==> exists|i: int| 0 <= i < res@.len() && res@[i].0@ == k,
    {
        proof {
            use_type_invariant(self);
            lemma_entries_map_lookup(self.saves@);
        }
        self.saves.as_slice()
    }

    /// The database that the given entries describe; a later entry for a key replaces an
    /// earlier one.
    pub fn from_entries(entries: Vec<(String, SaveInfo)>) -> (db: SaveDB)
        ensures
            db@ == entries_map(entries@),
    {
        let mut db = SaveDB::new();
        let mut entries = entries;
        let ghost all = entries@;
        assert(all.len() == entries.len());
        let mut k: usize = 0;
        assert(all.skip(0) =~= all);
        assert(all.take(0) =~= Seq::<(String, SaveInfo)>::empty());
        while entries.len() > 0
            invariant
                0 <= k <= all.len(),
                all.len() <= usize::MAX,
                entries@ == all.skip(k as int),
                db@ == entries_map(all.take(k as int)),
            decreases entries@.len(),
        {
            assert(entries@.len() == all.len() - k);
            let e = entries.remove(0);
            proof {
                assert(e == all[k as int]);
                assert(all.take(k + 1).drop_last() =~= all.take(k as int));
                assert(all.take(k + 1).last() == all[k as int]);
            }
            db.insert(e.0, e.1);
            k += 1;
            proof {
                assert(entries@ =~= all.skip(k as int));
            }
        }
        assert(all.take(all.len() as int) =~= all);
        db
    }
}

impl Default for SaveDB {
    fn default() -> (db: SaveDB)
        ensures
            db@ == Map::<Seq<char>, SaveInfo>::empty(),
    {
        SaveDB::new()
    }
}

/// What a read gives back of a write: after `insert(key, value)` the database holds `value`
/// under `key`, and every other key reads as before.
pub proof fn law_savedb_read_after_write(
    before: Map<Seq<char>, SaveInfo>,
    key: Seq<char>,
    value: SaveInfo,
    other: Seq<char>,
)
    ensures
        before.insert(key, value).contains_key(key),
        before.insert(key, value)[key] == value,
        other != key ==> before.insert(key, value).contains_key(other) == before.contains_key(other),
        other != key && before.contains_key(other) ==> before.insert(key, value)[other] == before[other],
{
}

/// Rebuilding a database from the entries it hands out (as a store and a load do) gives the
/// same database.
pub proof fn law_savedb_rebuilds_from_entries(m: Map<Seq<char>, SaveInfo>, e: Seq<(String, SaveInfo)>)
    requires
        keys_distinct(e),
        forall|i: int| 0 <= i < e.len() ==> m.contains_key(#[trigger] e[i].0@) && m[e[i].0@] == e[i].1,
        forall|k: Seq<char>| #[trigger] m.contains_key(k) ==> exists|i: int| 0 <= i < e.len() && e[i].0@ == k,
    ensures
        entries_map(e) == m,
{
    lemma_entries_map_lookup(e);
    assert forall|k: Seq<char>| #[trigger] entries_map(e).contains_key(k) implies m.contains_key(k) && entries_map(e)[k] == m[k] by {
        let i = choose|i: int| 0 <= i < e.len() && e[i].0@ == k;
    }
    assert forall|k: Seq<char>| #[trigger] m.contains_key(k) implies entries_map(e).contains_key(k) by {
        let i = choose|i: int| 0 <= i < e.len() && e[i].0@ == k;
    }
    assert(entries_map(e) =~= m);
}

} // verus!
