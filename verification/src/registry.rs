//! The nickname registry.
//!
//! Seen from outside, a registry is a map from account identities to
//! nicknames. Inside it is a list of entries in which no account occurs twice.

use crate::account::AccountId;
use vstd::prelude::*;

verus! {

/// The nickname that `account` has in `registry`: the one stored for it, or
/// the empty text where none is stored.
pub open spec fn nickname_of(registry: Map<Seq<u8>, Seq<char>>, account: Seq<u8>) -> Seq<char> {
    if registry.contains_key(account) {
        registry[account]
    } else {
        Seq::empty()
    }
}

/// What a read answers for what the store holds under an account: the stored
/// nickname, or the empty text where the store holds nothing.
pub fn nickname_or_empty(stored: Option<String>) -> (nick_name: String)
    ensures
        nick_name@ == match stored {
            Some(text) => text@,
            None => Seq::<char>::empty(),
        },
{
    match stored {
        Some(text) => text,
        None => String::new(),
    }
}

/// One account's nickname.
struct Entry {
    account: AccountId,
    nick_name: String,
}

/// No account owns two of the entries.
spec fn one_entry_per_account(entries: Seq<Entry>) -> bool {
    forall|i: int, j: int|
        0 <= i < j < entries.len() ==> (#[trigger] entries[i]).account@ != (
        #[trigger] entries[j]).account@
}

/// Some entry belongs to `account`.
spec fn has_entry(entries: Seq<Entry>, account: Seq<u8>) -> bool {
    exists|i: int| 0 <= i < entries.len() && (#[trigger] entries[i]).account@ == account
}

/// The place of an entry that belongs to `account`, where there is one.
spec fn entry_index(entries: Seq<Entry>, account: Seq<u8>) -> int {
    choose|i: int| 0 <= i < entries.len() && (#[trigger] entries[i]).account@ == account
}

/// The map that the entries stand for.
spec fn entries_map(entries: Seq<Entry>) -> Map<Seq<u8>, Seq<char>> {
    Map::new(
        |account: Seq<u8>| has_entry(entries, account),
        |account: Seq<u8>| entries[entry_index(entries, account)].nick_name@,
    )
}

/// The entry at place `i` is the one that the map shows for its account.
proof fn lemma_entry_is_mapped(entries: Seq<Entry>, i: int)
    requires
        one_entry_per_account(entries),
        0 <= i < entries.len(),
    ensures
        entries_map(entries).contains_key(entries[i].account@),
        entries_map(entries)[entries[i].account@] == entries[i].nick_name@,
{
    let account = entries[i].account@;
    assert(has_entry(entries, account));
    let k = entry_index(entries, account);
    assert(k == i) by {
        if k < i {
            assert(entries[k].account@ != entries[i].account@);
        } else if i < k {
            assert(entries[i].account@ != entries[k].account@);
        }
    }
}

/// Appending an entry for an account that has none stores its nickname and
/// touches nothing else.
proof fn lemma_append_entry(entries: Seq<Entry>, entry: Entry)
    requires
        one_entry_per_account(entries),
        !has_entry(entries, entry.account@),
    ensures
        one_entry_per_account(entries.push(entry)),
        entries_map(entries.push(entry)) == entries_map(entries).insert(
            entry.account@,
            entry.nick_name@,
        ),
{
    let grown = entries.push(entry);
    let last = entries.len() as int;
    assert forall|i: int, j: int| 0 <= i < j < grown.len() implies (#[trigger] grown[i]).account@
        != (#[trigger] grown[j]).account@ by {
        if j == last {
            assert(entries[i].account@ != entry.account@);
        } else {
            assert(entries[i].account@ != entries[j].account@);
        }
    }
    assert(grown[last] == entry);
    lemma_entry_is_mapped(grown, last);
    assert forall|account: Seq<u8>| account != entry.account@ implies (has_entry(grown, account)
        <==> has_entry(entries, account)) && (has_entry(entries, account) ==> entries_map(
        grown,
    )[account] == entries_map(entries)[account]) by {
        if has_entry(entries, account) {
            let k = entry_index(entries, account);
            assert(grown[k] == entries[k]);
            lemma_entry_is_mapped(grown, k);
            lemma_entry_is_mapped(entries, k);
        }
        if has_entry(grown, account) {
            let k = entry_index(grown, account);
            assert(k != last);
            assert(entries[k] == grown[k]);
        }
    }
    assert(entries_map(grown) =~= entries_map(entries).insert(entry.account@, entry.nick_name@));
}

/// Replacing the entry of an account by another entry of the same account
/// stores the new nickname and touches nothing else.
proof fn lemma_replace_entry(entries: Seq<Entry>, i: int, entry: Entry)
    requires
        one_entry_per_account(entries),
        0 <= i < entries.len(),
        entries[i].account@ == entry.account@,
    ensures
        one_entry_per_account(entries.update(i, entry)),
        entries_map(entries.update(i, entry)) == entries_map(entries).insert(
            entry.account@,
            entry.nick_name@,
        ),
{
    let changed = entries.update(i, entry);
    assert forall|a: int, b: int| 0 <= a < b < changed.len() implies (#[trigger] changed[a]).account@
        != (#[trigger] changed[b]).account@ by {
        assert(changed[a].account@ == entries[a].account@);
        assert(changed[b].account@ == entries[b].account@);
        assert(entries[a].account@ != entries[b].account@);
    }
    assert(changed[i] == entry);
    lemma_entry_is_mapped(changed, i);
    lemma_entry_is_mapped(entries, i);
    assert forall|account: Seq<u8>| account != entry.account@ implies (has_entry(changed, account)
        <==> has_entry(entries, account)) && (has_entry(entries, account) ==> entries_map(
        changed,
    )[account] == entries_map(entries)[account]) by {
        if has_entry(entries, account) {
            let k = entry_index(entries, account);
            assert(changed[k] == entries[k]);
            lemma_entry_is_mapped(changed, k);
            lemma_entry_is_mapped(entries, k);
        }
        if has_entry(changed, account) {
            let k = entry_index(changed, account);
            assert(k != i);
            assert(entries[k] == changed[k]);
        }
    }
    assert(entries_map(changed) =~= entries_map(entries).insert(
        entry.account@,
        entry.nick_name@,
    ));
}

/// The place of the entry that belongs to `account`, if there is one.
fn find(entries: &Vec<Entry>, account: &AccountId) -> (found: Option<usize>)
    ensures
        match found {
            Some(i) => i < entries.len() && entries[i as int].account@ == account@,
            None => !has_entry(entries@, account@),
        },
{
    let mut i: usize = 0;
    while i < entries.len()
        invariant
            i <= entries.len(),
            forall|j: int| 0 <= j < i ==> (#[trigger] entries[j]).account@ != account@,
        decreases entries.len() - i,
    {
        if entries[i].account == *account {
            return Some(i);
        }
        i += 1;
    }
    None
}

/// The registry: at most one nickname for each account.
pub struct Nicks {
    nick_names: Vec<Entry>,
}

impl View for Nicks {
    type V = Map<Seq<u8>, Seq<char>>;

    /// The stored nicknames, by the bytes of the account that owns each.
    closed spec fn view(&self) -> Map<Seq<u8>, Seq<char>> {
        entries_map(self.nick_names@)
    }
}

impl Nicks {
    /// Every registry keeps at most one entry for each account.
    #[verifier::type_invariant]
    spec fn well_formed(self) -> bool {
        one_entry_per_account(self.nick_names@)
    }

    /// A registry as `caller` deploys it: it holds the empty nickname for
    /// `caller` and nothing else.
    pub fn new(caller: AccountId) -> (nicks: Self)
        ensures
            nicks@ == Map::<Seq<u8>, Seq<char>>::empty().insert(caller@, Seq::<char>::empty()),
    {
        let mut nicks = Nicks::default();
        nicks.set_nick_name(caller, String::new());
        nicks
    }

    /// A registry that holds nothing.
    pub fn default() -> (nicks: Self)
        ensures
            nicks@ == Map::<Seq<u8>, Seq<char>>::empty(),
    {
        let nicks = Nicks { nick_names: Vec::new() };
        assert(nicks@ =~= Map::<Seq<u8>, Seq<char>>::empty());
        nicks
    }

    /// Stores `nick_name` as the nickname of `caller`, in place of the one it
    /// had. No other account's nickname changes.
    pub fn set_nick_name(&mut self, caller: AccountId, nick_name: String)
        ensures
            final(self)@ == old(self)@.insert(caller@, nick_name@),
    {
        proof {
            use_type_invariant(&*self);
        }
        let found = find(&self.nick_names, &caller);
        let entry = Entry { account: caller, nick_name };
        let mut entries: Vec<Entry> = Vec::new();
        core::mem::swap(&mut entries, &mut self.nick_names);
        match found {
            Some(i) => {
                proof {
                    lemma_replace_entry(entries@, i as int, entry);
                }
                entries.set(i, entry);
            },
            None => {
                proof {
                    lemma_append_entry(entries@, entry);
                }
                entries.push(entry);
            },
        }
        self.nick_names = entries;
    }

    /// The nickname stored for `account`, if one is stored.
    fn stored(&self, account: &AccountId) -> (found: Option<String>)
        ensures
            match found {
                Some(text) => self@.contains_key(account@) && text@ == self@[account@],
                None => !self@.contains_key(account@),
            },
    {
        proof {
            use_type_invariant(self);
        }
        match find(&self.nick_names, account) {
            Some(i) => {
                proof {
                    lemma_entry_is_mapped(self.nick_names@, i as int);
                }
                Some(self.nick_names[i].nick_name.clone())
            },
            None => None,
        }
    }

    /// The nickname of `caller`: the one it stored last, or the empty text if
    /// it never stored one.
    pub fn get_mine(&self, caller: AccountId) -> (nick_name: String)
        ensures
            nick_name@ == nickname_of(self@, caller@),
    {
        nickname_or_empty(self.stored(&caller))
    }
}

} // verus!
