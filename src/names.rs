use vstd::prelude::*;
use crate::entries::{ConfigEntry, EntryType};

verus! {

/// Entries keyed by name; where names repeat, the later entry wins.
pub open spec fn names_map(es: Seq<ConfigEntry>) -> Map<Seq<char>, ConfigEntry>
    decreases es.len(),
{
    if es.len() == 0 {
        Map::empty()
    } else {
        names_map(es.drop_last()).insert(es.last().name@, es.last())
    }
}

/// Entries looked up by name. Built from a sequence of entries, where a later entry with a
/// name hides the earlier ones.
pub struct NameMap {
    entries: Vec<ConfigEntry>,
}

impl View for NameMap {
    type V = Map<Seq<char>, ConfigEntry>;

    closed spec fn view(&self) -> Map<Seq<char>, ConfigEntry> {
        names_map(self.entries@)
    }
}

/// A copy of an entry type.
pub fn copy_entry_type(t: &EntryType) -> (r: EntryType)
    ensures
        r == *t,
{
    match t {
        EntryType::Str { max_length, default, value } => EntryType::Str {
            max_length: *max_length,
            default: default.clone(),
            value: match value {
                Some(v) => Some(v.clone()),
                None => None,
            },
        },
        EntryType::Int { max, min, default, value } => EntryType::Int {
            max: *max,
            min: *min,
            default: *default,
            value: *value,
        },
        EntryType::Color { default, value } => EntryType::Color { default: *default, value: *value },
    }
}

/// A copy of an entry.
pub fn copy_entry(e: &ConfigEntry) -> (r: ConfigEntry)
    ensures
        r == *e,
{
    ConfigEntry {
        description: e.description.clone(),
        entry_type: copy_entry_type(&e.entry_type),
        flags: e.flags,
        name: e.name.clone(),
        symbol: e.symbol.clone(),
    }
}

impl NameMap {
    /// The entry named `name`, if any.
    pub fn get(&self, name: &str) -> (r: Option<&ConfigEntry>)
        ensures
            match r {
                Some(e) => self@.contains_key(name@) && *e == self@[name@],
                None => !self@.contains_key(name@),
            },
    {
        let ghost s = self.entries@;
        let key = name.to_owned();
        let mut i = self.entries.len();
        assert(s.take(i as int) =~= s);
        while i > 0
            invariant
                i <= s.len(),
                s == self.entries@,
                key@ == name@,
                names_map(s).contains_key(name@) == names_map(s.take(i as int)).contains_key(name@),
                names_map(s.take(i as int)).contains_key(name@) ==> names_map(s)[name@] == names_map(
                    s.take(i as int),
                )[name@],
            decreases i,
        {
            let e = &self.entries[i - 1];
            assert(s.take(i as int).drop_last() =~= s.take(i - 1));
            assert(s.take(i as int).last() == s[i - 1]);
            if e.name == key {
                return Some(e);
            }
            i = i - 1;
        }
        None
    }

    /// The entries that remain under their names, each once, in the order of their last
    /// occurrence.
    pub fn entries(&self) -> (r: Vec<ConfigEntry>)
        ensures
            forall|k: int|
                0 <= k < r@.len() ==> self@.contains_key((#[trigger] r@[k]).name@) && self@[r@[k].name@]
                    == r@[k],
            forall|a: int, b: int|
                0 <= a < b < r@.len() ==> (#[trigger] r@[a]).name@ != (#[trigger] r@[b]).name@,
            forall|key: Seq<char>|
                #[trigger] self@.contains_key(key) ==> exists|k: int| 0 <= k < r@.len() && (#[trigger] r@[k]).name@ == key,
    {
        let ghost s = self.entries@;
        let n = self.entries.len();
        let mut r: Vec<ConfigEntry> = Vec::new();
        let ghost mut ids: Seq<int> = Seq::empty();
        let mut i: usize = 0;
        while i < n
            invariant
                i <= n,
                n == s.len(),
                s == self.entries@,
                ids.len() == r@.len(),
                forall|k: int| 0 <= k < ids.len() ==> 0 <= #[trigger] ids[k] < i && is_last(s, ids[k]) && r@[k] == s[ids[k]],
                forall|a: int, b: int| 0 <= a < b < ids.len() ==> #[trigger] ids[a] < #[trigger] ids[b],
                forall|x: int| 0 <= x < i && is_last(s, x) ==> exists|k: int| 0 <= k < ids.len() && #[trigger] ids[k] == x,
            decreases n - i,
        {
            let mut j = i + 1;
            let mut later = false;
            while j < n && !later
                invariant
                    i < n,
                    i + 1 <= j <= n,
                    n == s.len(),
                    s == self.entries@,
                    later ==> !is_last(s, i as int),
                    !later ==> forall|m: int| i < m < j ==> s[m].name@ != s[i as int].name@,
                decreases n - j,
            {
                if self.entries[j].name == self.entries[i].name {
                    later = true;
                }
                j = j + 1;
            }
            if !later {
                assert(is_last(s, i as int));
                let ghost old_ids = ids;
                r.push(copy_entry(&self.entries[i]));
                proof {
                    ids = ids.push(i as int);
                    assert forall|x: int| 0 <= x < i + 1 && is_last(s, x) implies exists|k: int|
                        0 <= k < ids.len() && #[trigger] ids[k] == x by {
                        if x == i {
                            assert(ids[ids.len() - 1] == x);
                        } else {
                            let k = choose|k: int| 0 <= k < old_ids.len() && #[trigger] old_ids[k] == x;
                            assert(ids[k] == x);
                        }
                    }
                }
            }
            i = i + 1;
        }
        proof {
            assert forall|k: int| 0 <= k < r@.len() implies self@.contains_key((#[trigger] r@[k]).name@)
                && self@[r@[k].name@] == r@[k] by {
                lemma_last_is_value(s, ids[k]);
            }
            assert forall|a: int, b: int| 0 <= a < b < r@.len() implies (#[trigger] r@[a]).name@
                != (#[trigger] r@[b]).name@ by {
                assert(ids[a] < ids[b]);
            }
            assert forall|key: Seq<char>| #[trigger] self@.contains_key(key) implies exists|k: int|
                0 <= k < r@.len() && (#[trigger] r@[k]).name@ == key by {
                lemma_names_map_last(s, key);
                let x = choose|x: int|
                    0 <= x < s.len() && (#[trigger] s[x]).name@ == key && names_map(s)[key] == s[x] && forall|j: int|
                        x < j < s.len() ==> (#[trigger] s[j]).name@ != key;
                assert(is_last(s, x));
                let k = choose|k: int| 0 <= k < ids.len() && #[trigger] ids[k] == x;
                assert(r@[k].name@ == key);
            }
        }
        r
    }

    /// The number of distinct names.
    pub fn len(&self) -> (r: usize)
        ensures
            r == self@.dom().len(),
    {
        let es = self.entries();
        proof {
            let names = es@.map_values(|e: ConfigEntry| e.name@);
            assert(names.no_duplicates()) by {
                assert forall|a: int, b: int| 0 <= a < names.len() && 0 <= b < names.len() && a != b implies names[a]
                    != names[b] by {
                    if a < b {
                        assert(es@[a].name@ != es@[b].name@);
                    } else {
                        assert(es@[b].name@ != es@[a].name@);
                    }
                }
            }
            names.unique_seq_to_set();
            assert(names.to_set() =~= self@.dom()) by {
                assert forall|key: Seq<char>| names.to_set().contains(key) implies self@.dom().contains(key) by {
                    let k = choose|k: int| 0 <= k < names.len() && names[k] == key;
                    assert(self@.contains_key(es@[k].name@));
                }
                assert forall|key: Seq<char>| self@.dom().contains(key) implies names.to_set().contains(key) by {
                    assert(self@.contains_key(key));
                    let k = choose|k: int| 0 <= k < es@.len() && (#[trigger] es@[k]).name@ == key;
                    assert(names[k] == key);
                }
            }
        }
        es.len()
    }

    /// Whether an entry is named `name`.
    pub fn contains_key(&self, name: &str) -> (r: bool)
        ensures
            r == self@.contains_key(name@),
    {
        self.get(name).is_some()
    }
}

/// Converts a list of config entries to a map with name -> entry. Where two entries share a
/// name, the later one is kept.
pub fn map_with_names(entries: &[ConfigEntry]) -> (r: NameMap)
    ensures
        r@ == names_map(entries@),
{
    let mut out: Vec<ConfigEntry> = Vec::new();
    let mut i: usize = 0;
    while i < entries.len()
        invariant
            i <= entries@.len(),
            out@ == entries@.take(i as int),
        decreases entries@.len() - i,
    {
        out.push(copy_entry(&entries[i]));
        assert(out@ =~= entries@.take(i + 1));
        i = i + 1;
    }
    assert(entries@.take(entries@.len() as int) =~= entries@);
    NameMap { entries: out }
}

/// Entry `i` is the last in `s` with its name.
pub open spec fn is_last(s: Seq<ConfigEntry>, i: int) -> bool {
    &&& 0 <= i < s.len()
    &&& forall|j: int| i < j < s.len() ==> (#[trigger] s[j]).name@ != s[i].name@
}

/// The last entry with a name is the one under that name.
pub proof fn lemma_last_is_value(s: Seq<ConfigEntry>, i: int)
    requires
        is_last(s, i),
    ensures
        names_map(s).contains_key(s[i].name@),
        names_map(s)[s[i].name@] == s[i],
{
    let key = s[i].name@;
    lemma_names_map_last(s, key);
    let x = choose|x: int|
        0 <= x < s.len() && (#[trigger] s[x]).name@ == key && names_map(s)[key] == s[x] && forall|j: int|
            x < j < s.len() ==> (#[trigger] s[j]).name@ != key;
    if x < i {
        assert(s[i].name@ == key);
    } else if x > i {
        assert(s[x].name@ != s[i].name@);
    }
}

/// Of two entries that share a name, in that order, only the second remains under it.
pub proof fn lemma_later_entry_wins(a: ConfigEntry, b: ConfigEntry)
    requires
        a.name@ == b.name@,
    ensures
        names_map(seq![a, b]) == Map::<Seq<char>, ConfigEntry>::empty().insert(b.name@, b),
{
    let s = seq![a, b];
    assert(s.drop_last() =~= seq![a]);
    assert(seq![a].drop_last() =~= Seq::<ConfigEntry>::empty());
    assert(names_map(Seq::<ConfigEntry>::empty()) == Map::<Seq<char>, ConfigEntry>::empty());
    assert(seq![a].last() == a);
    assert(names_map(seq![a]) == Map::<Seq<char>, ConfigEntry>::empty().insert(a.name@, a));
    assert(s.last() == b);
    assert(names_map(s) =~= Map::<Seq<char>, ConfigEntry>::empty().insert(b.name@, b));
}

/// An entry is under a name exactly when one of the entries has that name, and then it is the
/// last entry with that name.
pub proof fn lemma_names_map_last(es: Seq<ConfigEntry>, k: Seq<char>)
    ensures
        names_map(es).contains_key(k) <==> exists|i: int| 0 <= i < es.len() && (#[trigger] es[i]).name@ == k,
        names_map(es).contains_key(k) ==> exists|i: int|
            0 <= i < es.len() && (#[trigger] es[i]).name@ == k && names_map(es)[k] == es[i] && forall|j: int|
                i < j < es.len() ==> (#[trigger] es[j]).name@ != k,
    decreases es.len(),
{
    if es.len() > 0 {
        let p = es.drop_last();
        lemma_names_map_last(p, k);
        let n = es.len() - 1;
        if es.last().name@ == k {
            assert(es[n].name@ == k);
        } else {
            if names_map(p).contains_key(k) {
                let i = choose|i: int|
                    0 <= i < p.len() && (#[trigger] p[i]).name@ == k && names_map(p)[k] == p[i] && forall|j: int|
                        i < j < p.len() ==> (#[trigger] p[j]).name@ != k;
                assert(es[i] == p[i]);
                assert forall|j: int| i < j < es.len() implies (#[trigger] es[j]).name@ != k by {
                    if j < n {
                        assert(es[j] == p[j]);
                    }
                }
            }
            assert forall|i: int| 0 <= i < es.len() && (#[trigger] es[i]).name@ == k implies 0 <= i
                < p.len() && p[i].name@ == k by {
                if i < n {
                    assert(es[i] == p[i]);
                }
            }
        }
    }
}

} // verus!
