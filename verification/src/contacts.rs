//! The contact book behind the client's window: the sorted list of aliases
//! shown for selection, the selected alias, and the rules by which contacts
//! are added and deleted and a message may be sent.
use vstd::prelude::*;
use crate::config::{NymXConfig, keys_sorted};
use crate::text::{lemma_text_lt_trichotomy, text_lt};
use crate::text::{texts, trim, is_blank, same_text};

verus! {

/// `sorted` lists the aliases of `m` in ascending text order, each once.
pub open spec fn lists_aliases(sorted: Seq<String>, m: Map<Seq<char>, Seq<char>>) -> bool {
    &&& keys_sorted(texts(sorted))
    &&& forall|k: Seq<char>| texts(sorted).contains(k) <==> m.contains_key(k)
}

/// Two strictly sorted lists of the same texts are the same list: the list
/// of aliases that the book shows is the one that sorting them gives.
pub proof fn lemma_sorted_texts_unique(a: Seq<Seq<char>>, b: Seq<Seq<char>>)
    requires
        keys_sorted(a),
        keys_sorted(b),
        forall|k: Seq<char>| a.contains(k) <==> b.contains(k),
    ensures
        a == b,
    decreases a.len(),
{
    if a.len() == 0 {
        if b.len() > 0 {
            assert(b.contains(b[0]));
        }
        assert(a == b);
    } else if b.len() == 0 {
        assert(a.contains(a[0]));
    } else {
        assert(a.contains(a[0]));
        assert(b.contains(b[0]));
        let j = choose|j: int| 0 <= j < b.len() && b[j] == a[0];
        let i = choose|i: int| 0 <= i < a.len() && a[i] == b[0];
        lemma_text_lt_trichotomy(a[0], b[0]);
        if j > 0 {
            assert(text_lt(b[0], a[0]));
            if i > 0 {
                assert(text_lt(a[0], b[0]));
            }
        }
        assert(a[0] == b[0]);
        let a1 = a.drop_first();
        let b1 = b.drop_first();
        assert forall|k: Seq<char>| a1.contains(k) <==> b1.contains(k) by {
            if a1.contains(k) {
                let m = choose|m: int| 0 <= m < a1.len() && a1[m] == k;
                assert(a[m + 1] == k);
                assert(a.contains(k));
                let n = choose|n: int| 0 <= n < b.len() && b[n] == k;
                assert(text_lt(a[0], a[m + 1]));
                lemma_text_lt_trichotomy(a[0], k);
                if n == 0 {
                    assert(k == a[0]);
                }
                assert(b1[n - 1] == k);
            }
            if b1.contains(k) {
                let m = choose|m: int| 0 <= m < b1.len() && b1[m] == k;
                assert(b[m + 1] == k);
                assert(b.contains(k));
                let n = choose|n: int| 0 <= n < a.len() && a[n] == k;
                assert(text_lt(b[0], b[m + 1]));
                lemma_text_lt_trichotomy(b[0], k);
                if n == 0 {
                    assert(k == b[0]);
                }
                assert(a1[n - 1] == k);
            }
        }
        lemma_sorted_texts_unique(a1, b1);
        assert(a == seq![a[0]] + a1);
        assert(b == seq![b[0]] + b1);
    }
}

/// The first alias of `sorted`, or the empty text.
pub open spec fn first_or_empty(sorted: Seq<String>) -> Seq<char> {
    if sorted.len() > 0 {
        sorted[0]@
    } else {
        Seq::empty()
    }
}

/// The book's rule: the displayed list is the contacts' aliases in text
/// order, and the selection is empty or a contact.
pub open spec fn book_rule(
    config: NymXConfig,
    sorted: Seq<String>,
    selected: Seq<char>,
) -> bool {
    &&& lists_aliases(sorted, config.aliases@)
    &&& (selected.len() == 0 || config.aliases@.contains_key(selected))
}

/// The settings with the aliases in display order and the selected alias.
pub struct ContactBook {
    config: NymXConfig,
    sorted_aliases: Vec<String>,
    selected_alias: String,
}

impl ContactBook {
    #[verifier::type_invariant]
    closed spec fn keeps_rule(&self) -> bool {
        book_rule(self.config, self.sorted_aliases@, self.selected_alias@)
    }

    /// The settings.
    pub closed spec fn settings(&self) -> NymXConfig {
        self.config
    }

    /// The aliases as displayed.
    pub closed spec fn shown(&self) -> Seq<String> {
        self.sorted_aliases@
    }

    /// The selected alias.
    pub closed spec fn selection(&self) -> Seq<char> {
        self.selected_alias@
    }

    /// The settings.
    pub fn config(&self) -> (c: &NymXConfig)
        ensures
            *c == self.settings(),
            book_rule(self.settings(), self.shown(), self.selection()),
    {
        proof {
            use_type_invariant(self);
        }
        &self.config
    }

    /// The aliases as displayed.
    pub fn sorted_aliases(&self) -> (v: &Vec<String>)
        ensures
            v@ == self.shown(),
            book_rule(self.settings(), self.shown(), self.selection()),
    {
        proof {
            use_type_invariant(self);
        }
        &self.sorted_aliases
    }

    /// The selected alias.
    pub fn selected_alias(&self) -> (a: &str)
        ensures
            a@ == self.selection(),
            book_rule(self.settings(), self.shown(), self.selection()),
    {
        proof {
            use_type_invariant(self);
        }
        self.selected_alias.as_str()
    }

    /// The book for `config`, with its first alias selected.
    pub fn new(config: NymXConfig) -> (book: Self)
        ensures
            book.settings() == config,
            book_rule(book.settings(), book.shown(), book.selection()),
            book.selection() == first_or_empty(book.shown()),
    {
        let sorted_aliases = config.aliases.aliases();
        let selected_alias = if sorted_aliases.len() > 0 {
            sorted_aliases[0].clone()
        } else {
            String::new()
        };
        proof {
            if sorted_aliases@.len() > 0 {
                assert(texts(sorted_aliases@)[0] == sorted_aliases@[0]@);
                assert(texts(sorted_aliases@).contains(sorted_aliases@[0]@));
            }
        }
        ContactBook { config, sorted_aliases, selected_alias }
    }

    /// Whether the selected contact may be deleted: one is selected.
    pub fn can_delete(&self) -> (b: bool)
        ensures
            b == (self.selection().len() > 0),
    {
        !self.selected_alias.as_str().is_empty()
    }

    /// Whether a message may be sent: no send is under way, a contact is
    /// selected, and the message is not blank.
    pub fn can_send(&self, is_sending: bool, message: &str) -> (b: bool)
        ensures
            b == (!is_sending && self.selection().len() > 0 && trim(message@).len() > 0),
    {
        !is_sending && !self.selected_alias.as_str().is_empty() && !is_blank(message)
    }

    /// The address to send to: that of the selected contact, or the
    /// selected text itself when it is no contact.
    pub fn recipient_address(&self) -> (address: String)
        ensures
            address@ == (if self.settings().aliases@.contains_key(self.selection()) {
                self.settings().aliases@[self.selection()]
            } else {
                self.selection()
            }),
    {
        match self.config.resolve(self.selected_alias.as_str()) {
            Some(address) => address,
            None => self.selected_alias.clone(),
        }
    }

    /// Selects `alias` when it is listed; tells whether it was.
    pub fn select(&mut self, alias: &str) -> (selected: bool)
        ensures
            selected == texts(old(self).shown()).contains(alias@),
            final(self).settings() == old(self).settings(),
            final(self).shown() == old(self).shown(),
            final(self).selection() == (if selected {
                alias@
            } else {
                old(self).selection()
            }),
    {
        proof {
            use_type_invariant(&*self);
        }
        let n: usize = self.sorted_aliases.len();
        let mut i: usize = 0;
        while i < n
            invariant
                n == self.sorted_aliases@.len(),
                i <= n,
                forall|m: int| 0 <= m < i ==> self.sorted_aliases@[m]@ != alias@,
                book_rule(self.config, self.sorted_aliases@, self.selected_alias@),
                self.sorted_aliases@ == old(self).shown(),
                self.config == old(self).settings(),
                self.selected_alias@ == old(self).selection(),
            decreases n - i,
        {
            if same_text(self.sorted_aliases[i].as_str(), alias) {
                let chosen = self.sorted_aliases[i].clone();
                assert(texts(self.sorted_aliases@)[i as int] == alias@);
                assert(texts(self.sorted_aliases@).contains(alias@));
                self.selected_alias = chosen;
                return true;
            }
            i = i + 1;
        }
        assert(!texts(self.sorted_aliases@).contains(alias@)) by {
            if texts(self.sorted_aliases@).contains(alias@) {
                let m = choose|m: int|
                    0 <= m < texts(self.sorted_aliases@).len() && texts(self.sorted_aliases@)[m]
                        == alias@;
                assert(self.sorted_aliases@[m]@ == alias@);
            }
        }
        false
    }

    /// Adds contact `alias` for `address` and selects it, unless either is
    /// blank; tells whether it was added. An existing alias gets the new
    /// address.
    pub fn add_contact(&mut self, alias: &str, address: &str) -> (added: bool)
        ensures
            book_rule(final(self).settings(), final(self).shown(), final(self).selection()),
            added == (trim(alias@).len() > 0 && trim(address@).len() > 0),
            added ==> {
                &&& final(self).settings().aliases@ == old(self).settings().aliases@.insert(
                    alias@,
                    address@,
                )
                &&& final(self).settings().ssh == old(self).settings().ssh
                &&& final(self).selection() == alias@
            },
            !added ==> *final(self) == *old(self),
    {
        proof {
            use_type_invariant(&*self);
        }
        if is_blank(alias) || is_blank(address) {
            return false;
        }
        let mut book = ContactBook::new(NymXConfig::default());
        std::mem::swap(self, &mut book);
        let ContactBook { mut config, sorted_aliases: _, selected_alias: _ } = book;
        config.aliases.insert(alias.to_owned(), address.to_owned());
        let sorted_aliases = config.aliases.aliases();
        let selected_alias = alias.to_owned();
        *self = ContactBook { config, sorted_aliases, selected_alias };
        true
    }

    /// Deletes contact `alias`; tells whether there was one. When the
    /// deleted contact was selected, the first remaining one is.
    pub fn delete_contact(&mut self, alias: &str) -> (removed: bool)
        ensures
            book_rule(final(self).settings(), final(self).shown(), final(self).selection()),
            removed == old(self).settings().aliases@.contains_key(alias@),
            removed ==> {
                &&& final(self).settings().aliases@ == old(self).settings().aliases@.remove(
                    alias@,
                )
                &&& final(self).settings().ssh == old(self).settings().ssh
                &&& final(self).selection() == (if old(self).selection() == alias@ {
                    first_or_empty(final(self).shown())
                } else {
                    old(self).selection()
                })
            },
            !removed ==> *final(self) == *old(self),
    {
        proof {
            use_type_invariant(&*self);
        }
        if self.config.aliases.get(alias).is_none() {
            return false;
        }
        let mut book = ContactBook::new(NymXConfig::default());
        std::mem::swap(self, &mut book);
        let ContactBook { mut config, sorted_aliases: _, selected_alias } = book;
        let _removed = config.aliases.remove(alias);
        let sorted_aliases = config.aliases.aliases();
        let selected_alias = if same_text(selected_alias.as_str(), alias) {
            if sorted_aliases.len() > 0 {
                sorted_aliases[0].clone()
            } else {
                String::new()
            }
        } else {
            selected_alias
        };
        proof {
            if sorted_aliases@.len() > 0 {
                assert(texts(sorted_aliases@)[0] == sorted_aliases@[0]@);
                assert(texts(sorted_aliases@).contains(sorted_aliases@[0]@));
            }
        }
        *self = ContactBook { config, sorted_aliases, selected_alias };
        true
    }
}

} // verus!
