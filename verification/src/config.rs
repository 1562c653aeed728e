//! The client's settings: its contacts (aliases of mixnet addresses) and
//! the SSH account on the mail server.
use vstd::prelude::*;
use crate::text::{
    text_lt, lemma_text_lt_trichotomy, lemma_text_lt_transitive, compare_text, TextOrder,
    texts,
};

verus! {

/// The SSH port used when the settings name none.
pub fn default_ssh_port() -> (port: u16)
    ensures
        port == 22,
{
    22
}

/// The SSH account on the mail server.
#[derive(Clone)]
pub struct SshConfig {
    pub host: String,
    pub port: u16,
    pub username: String,
}

impl Default for SshConfig {
    /// No host, no user, port 0 (the derived default of the settings type).
    fn default() -> (c: Self)
        ensures
            c.host@.len() == 0,
            c.port == 0,
            c.username@.len() == 0,
    {
        SshConfig { host: String::new(), port: 0, username: String::new() }
    }
}

/// The keys of `entries`, in order.
pub open spec fn keys_of(entries: Seq<(String, String)>) -> Seq<Seq<char>> {
    entries.map_values(|e: (String, String)| e.0@)
}

/// `keys` is strictly increasing in text order.
pub open spec fn keys_sorted(keys: Seq<Seq<char>>) -> bool {
    forall|i: int, j: int| 0 <= i < j < keys.len() ==> text_lt(keys[i], keys[j])
}

/// The map that `entries` stand for.
pub open spec fn table_map(entries: Seq<(String, String)>) -> Map<Seq<char>, Seq<char>> {
    Map::new(
        |k: Seq<char>| keys_of(entries).contains(k),
        |k: Seq<char>| entries[keys_of(entries).index_of(k)].1@,
    )
}

proof fn lemma_index_of_sorted(keys: Seq<Seq<char>>, i: int)
    requires
        keys_sorted(keys),
        0 <= i < keys.len(),
    ensures
        keys.contains(keys[i]),
        keys.index_of(keys[i]) == i,
{
    assert(keys.contains(keys[i]));
    let j = keys.index_of(keys[i]);
    lemma_text_lt_trichotomy(keys[i], keys[i]);
    if j < i {
        assert(text_lt(keys[j], keys[i]));
    }
    if j > i {
        assert(text_lt(keys[i], keys[j]));
    }
}

/// Contacts: each alias stands for one address. Kept sorted by alias.
pub struct AliasTable {
    entries: Vec<(String, String)>,
}

impl View for AliasTable {
    type V = Map<Seq<char>, Seq<char>>;

    closed spec fn view(&self) -> Map<Seq<char>, Seq<char>> {
        table_map(self.entries@)
    }
}

impl Clone for AliasTable {
    /// A table with the same contacts, in the same order.
    fn clone(&self) -> (c: Self)
        ensures
            c@ == self@,
    {
        proof {
            use_type_invariant(self);
        }
        let mut entries: Vec<(String, String)> = Vec::new();
        let n: usize = self.entries.len();
        let mut i: usize = 0;
        while i < n
            invariant
                n == self.entries@.len(),
                i <= n,
                entries@ == self.entries@.subrange(0, i as int),
            decreases n - i,
        {
            let alias = self.entries[i].0.clone();
            let address = self.entries[i].1.clone();
            entries.push((alias, address));
            assert(entries@ == self.entries@.subrange(0, i + 1));
            i = i + 1;
        }
        assert(entries@ == self.entries@);
        AliasTable { entries }
    }
}

impl AliasTable {
    #[verifier::type_invariant]
    closed spec fn sorted_by_alias(&self) -> bool {
        keys_sorted(keys_of(self.entries@))
    }

    /// A table with no contact.
    pub fn new() -> (t: Self)
        ensures
            t@ == Map::<Seq<char>, Seq<char>>::empty(),
    {
        let t = AliasTable { entries: Vec::new() };
        assert(t@ =~= Map::<Seq<char>, Seq<char>>::empty());
        t
    }

    /// Where `alias` stands or would stand, and whether it is there.
    fn position(&self, alias: &str) -> (r: (usize, bool))
        ensures
            r.0 <= self.entries@.len(),
            forall|i: int| 0 <= i < r.0 ==> text_lt(keys_of(self.entries@)[i], alias@),
            r.0 < self.entries@.len() ==> !text_lt(keys_of(self.entries@)[r.0 as int], alias@),
            r.1 <==> (r.0 < self.entries@.len() && keys_of(self.entries@)[r.0 as int] == alias@),
    {
        proof {
            use_type_invariant(self);
        }
        let ghost keys = keys_of(self.entries@);
        let n: usize = self.entries.len();
        let mut p: usize = 0;
        while p < n
            invariant
                n == self.entries@.len(),
                keys == keys_of(self.entries@),
                p <= n,
                forall|i: int| 0 <= i < p ==> text_lt(keys[i], alias@),
            decreases n - p,
        {
            let o = compare_text(self.entries[p].0.as_str(), alias);
            assert(self.entries@[p as int].0@ == keys[p as int]);
            match o {
                TextOrder::Before => {},
                TextOrder::Same => {
                    return (p, true);
                },
                TextOrder::After => {
                    proof {
                        lemma_text_lt_trichotomy(keys[p as int], alias@);
                    }
                    return (p, false);
                },
            }
            p = p + 1;
        }
        (p, false)
    }

    /// The address of `alias`, if it is a contact.
    pub fn get(&self, alias: &str) -> (r: Option<&String>)
        ensures
            match r {
                Some(address) => self@.contains_key(alias@) && address@ == self@[alias@],
                None => !self@.contains_key(alias@),
            },
    {
        proof {
            use_type_invariant(self);
        }
        let ghost keys = keys_of(self.entries@);
        let (p, found) = self.position(alias);
        if found {
            proof {
                lemma_index_of_sorted(keys, p as int);
            }
            Some(&self.entries[p].1)
        } else {
            assert(!keys.contains(alias@)) by {
                if keys.contains(alias@) {
                    let j = choose|j: int| 0 <= j < keys.len() && keys[j] == alias@;
                    lemma_text_lt_trichotomy(alias@, alias@);
                    if j < p {
                    } else if j > p {
                        assert(text_lt(keys[p as int], keys[j]));
                        lemma_text_lt_trichotomy(keys[p as int], alias@);
                    }
                }
            }
            None
        }
    }

    /// Sets the address of `alias`, adding it or replacing its old address.
    pub fn insert(&mut self, alias: String, address: String)
        ensures
            final(self)@ == old(self)@.insert(alias@, address@),
    {
        proof {
            use_type_invariant(&*self);
        }
        let ghost old_entries = self.entries@;
        let ghost old_keys = keys_of(old_entries);
        let (p, found) = self.position(alias.as_str());
        let ghost k = alias@;
        let ghost v = address@;
        let mut entries: Vec<(String, String)> = Vec::new();
        std::mem::swap(&mut entries, &mut self.entries);
        if found {
            entries.set(p, (alias, address));
            let ghost new_keys = keys_of(entries@);
            assert(new_keys == old_keys.update(p as int, k));
            assert(new_keys == old_keys);
            assert forall|x: Seq<char>| #![auto] table_map(entries@).dom().contains(x)
                implies table_map(entries@)[x] == old(self)@.insert(k, v)[x] by {
                let i = new_keys.index_of(x);
                lemma_index_of_sorted(new_keys, i);
            }
            assert(table_map(entries@) =~= old(self)@.insert(k, v));
        } else {
            entries.insert(p, (alias, address));
            let ghost new_keys = keys_of(entries@);
            assert(new_keys == old_keys.insert(p as int, k));
            assert forall|i: int, j: int| 0 <= i < j < new_keys.len() implies text_lt(
                new_keys[i],
                new_keys[j],
            ) by {
                if j == p {
                } else if i == p {
                    // k sorts before everything that followed position p
                    if p < old_keys.len() {
                        lemma_text_lt_trichotomy(old_keys[p as int], k);
                        if j - 1 > p {
                            lemma_text_lt_transitive(k, old_keys[p as int], old_keys[j - 1]);
                        }
                    }
                } else if i < p && j > p {
                    if p < old_keys.len() {
                        lemma_text_lt_trichotomy(old_keys[p as int], k);
                        lemma_text_lt_transitive(old_keys[i], k, old_keys[p as int]);
                        if j - 1 > p {
                            lemma_text_lt_transitive(old_keys[i], old_keys[p as int], old_keys[j - 1]);
                        }
                    }
                }
            }
            assert(!old_keys.contains(k)) by {
                if old_keys.contains(k) {
                    let j = choose|j: int| 0 <= j < old_keys.len() && old_keys[j] == k;
                    lemma_text_lt_trichotomy(k, k);
                    if j > p {
                        assert(text_lt(old_keys[p as int], old_keys[j]));
                        lemma_text_lt_trichotomy(old_keys[p as int], k);
                    }
                }
            }
            assert forall|x: Seq<char>| #![auto] table_map(entries@).dom().contains(x)
                <==> old(self)@.insert(k, v).dom().contains(x) by {
                if new_keys.contains(x) {
                    let i = choose|i: int| 0 <= i < new_keys.len() && new_keys[i] == x;
                    if i < p {
                        assert(old_keys[i] == x);
                    } else if i > p {
                        assert(old_keys[i - 1] == x);
                    }
                }
                if old_keys.contains(x) {
                    let i = choose|i: int| 0 <= i < old_keys.len() && old_keys[i] == x;
                    if i < p {
                        assert(new_keys[i] == x);
                    } else {
                        assert(new_keys[i + 1] == x);
                    }
                }
                if x == k {
                    assert(new_keys[p as int] == x);
                }
            }
            assert forall|x: Seq<char>| #![auto] table_map(entries@).dom().contains(x)
                implies table_map(entries@)[x] == old(self)@.insert(k, v)[x] by {
                let i = new_keys.index_of(x);
                lemma_index_of_sorted(new_keys, i);
                if i < p {
                    lemma_index_of_sorted(old_keys, i);
                    assert(old_keys[i] == x);
                } else if i > p {
                    lemma_index_of_sorted(old_keys, i - 1);
                    assert(old_keys[i - 1] == x);
                }
            }
            assert(table_map(entries@) =~= old(self)@.insert(k, v));
        }
        self.entries = entries;
    }

    /// Removes `alias`; tells whether it was a contact.
    pub fn remove(&mut self, alias: &str) -> (removed: bool)
        ensures
            removed == old(self)@.contains_key(alias@),
            final(self)@ == old(self)@.remove(alias@),
            !removed ==> *final(self) == *old(self),
    {
        proof {
            use_type_invariant(&*self);
        }
        let ghost old_entries = self.entries@;
        let ghost old_keys = keys_of(old_entries);
        let (p, found) = self.position(alias);
        let ghost k = alias@;
        if !found {
            assert(!old_keys.contains(k)) by {
                if old_keys.contains(k) {
                    let j = choose|j: int| 0 <= j < old_keys.len() && old_keys[j] == k;
                    lemma_text_lt_trichotomy(k, k);
                    if j > p {
                        assert(text_lt(old_keys[p as int], old_keys[j]));
                        lemma_text_lt_trichotomy(old_keys[p as int], k);
                    }
                }
            }
            assert(old(self)@.remove(k) =~= old(self)@);
            return false;
        }
        let mut entries: Vec<(String, String)> = Vec::new();
        std::mem::swap(&mut entries, &mut self.entries);
        let _gone = entries.remove(p);
        let ghost new_keys = keys_of(entries@);
        assert(new_keys == old_keys.remove(p as int));
        assert forall|x: Seq<char>| #![auto] table_map(entries@).dom().contains(x)
            <==> old(self)@.remove(k).dom().contains(x) by {
            if new_keys.contains(x) {
                let i = choose|i: int| 0 <= i < new_keys.len() && new_keys[i] == x;
                if i < p {
                    assert(old_keys[i] == x);
                    assert(text_lt(old_keys[i], old_keys[p as int]));
                    lemma_text_lt_trichotomy(x, x);
                } else {
                    assert(old_keys[i + 1] == x);
                    assert(text_lt(old_keys[p as int], old_keys[i + 1]));
                    lemma_text_lt_trichotomy(x, x);
                }
            }
            if old_keys.contains(x) && x != k {
                let i = choose|i: int| 0 <= i < old_keys.len() && old_keys[i] == x;
                if i < p {
                    assert(new_keys[i] == x);
                } else {
                    assert(i != p);
                    assert(new_keys[i - 1] == x);
                }
            }
        }
        assert forall|x: Seq<char>| #![auto] table_map(entries@).dom().contains(x)
            implies table_map(entries@)[x] == old(self)@.remove(k)[x] by {
            let i = new_keys.index_of(x);
            lemma_index_of_sorted(new_keys, i);
            if i < p {
                lemma_index_of_sorted(old_keys, i);
                assert(old_keys[i] == x);
            } else {
                lemma_index_of_sorted(old_keys, i + 1);
                assert(old_keys[i + 1] == x);
            }
        }
        assert(table_map(entries@) =~= old(self)@.remove(k));
        self.entries = entries;
        true
    }

    /// The aliases, in ascending text order, each once.
    pub fn aliases(&self) -> (sorted: Vec<String>)
        ensures
            keys_sorted(texts(sorted@)),
            forall|k: Seq<char>| texts(sorted@).contains(k) <==> self@.contains_key(k),
    {
        proof {
            use_type_invariant(self);
        }
        let ghost keys = keys_of(self.entries@);
        let mut sorted: Vec<String> = Vec::new();
        let n: usize = self.entries.len();
        let mut i: usize = 0;
        while i < n
            invariant
                n == self.entries@.len(),
                keys == keys_of(self.entries@),
                keys_sorted(keys),
                i <= n,
                texts(sorted@) == keys.subrange(0, i as int),
            decreases n - i,
        {
            let a = self.entries[i].0.clone();
            assert(a@ == keys[i as int]);
            let ghost before = sorted@;
            sorted.push(a);
            assert(texts(sorted@) == texts(before).push(keys[i as int]));
            assert(keys.subrange(0, i + 1) == keys.subrange(0, i as int).push(keys[i as int]));
            assert(texts(sorted@) == keys.subrange(0, i + 1));
            i = i + 1;
        }
        assert(keys.subrange(0, n as int) == keys);
        sorted
    }
}

/// The client's settings.
#[derive(Clone)]
pub struct NymXConfig {
    pub aliases: AliasTable,
    pub ssh: SshConfig,
}

impl Default for NymXConfig {
    /// No contact and the default SSH settings.
    fn default() -> (c: Self)
        ensures
            c.aliases@ == Map::<Seq<char>, Seq<char>>::empty(),
            c.ssh.host@.len() == 0,
            c.ssh.port == 0,
            c.ssh.username@.len() == 0,
    {
        NymXConfig { aliases: AliasTable::new(), ssh: SshConfig::default() }
    }
}

impl NymXConfig {
    /// The address of the contact named `input`, if there is one.
    pub fn resolve(&self, input: &str) -> (r: Option<String>)
        ensures
            match r {
                Some(address) => self.aliases@.contains_key(input@) && address@
                    == self.aliases@[input@],
                None => !self.aliases@.contains_key(input@),
            },
    {
        match self.aliases.get(input) {
            Some(address) => Some(address.clone()),
            None => None,
        }
    }
}

} // verus!
