//! What holds of every registry, stated over the map that a registry stands
//! for: the one that the contracts of `Nicks` speak of.
//!
//! A write of `nick_name` by `account` takes a registry `r` to
//! `r.insert(account, nick_name)`, and a read by `account` answers
//! `nickname_of(r, account)`.

use crate::registry::nickname_of;
use vstd::prelude::*;

verus! {

/// The registry that `start` becomes when the writes of `writes` are made in
/// order, each a pair of the writing account and the nickname that it stores.
pub open spec fn after_writes(
    start: Map<Seq<u8>, Seq<char>>,
    writes: Seq<(Seq<u8>, Seq<char>)>,
) -> Map<Seq<u8>, Seq<char>>
    decreases writes.len(),
{
    if writes.len() == 0 {
        start
    } else {
        after_writes(start, writes.drop_last()).insert(writes.last().0, writes.last().1)
    }
}

/// An account reads back the nickname that it has just stored.
pub proof fn lemma_read_after_write(
    registry: Map<Seq<u8>, Seq<char>>,
    account: Seq<u8>,
    nick_name: Seq<char>,
)
    ensures
        nickname_of(registry.insert(account, nick_name), account) == nick_name,
{
}

/// A write by one account leaves the nickname that any other account reads as
/// it was.
pub proof fn lemma_write_is_private(
    registry: Map<Seq<u8>, Seq<char>>,
    writer: Seq<u8>,
    nick_name: Seq<char>,
    reader: Seq<u8>,
)
    requires
        writer != reader,
    ensures
        nickname_of(registry.insert(writer, nick_name), reader) == nickname_of(registry, reader),
{
}

/// Storing the same nickname a second time changes nothing: the registry is
/// the one that the first write left, and the account still reads that
/// nickname.
pub proof fn lemma_write_twice(
    registry: Map<Seq<u8>, Seq<char>>,
    account: Seq<u8>,
    nick_name: Seq<char>,
)
    ensures
        registry.insert(account, nick_name).insert(account, nick_name) == registry.insert(
            account,
            nick_name,
        ),
        nickname_of(registry.insert(account, nick_name).insert(account, nick_name), account)
            == nick_name,
{
    assert(registry.insert(account, nick_name).insert(account, nick_name) =~= registry.insert(
        account,
        nick_name,
    ));
}

/// A second write by the same account replaces the first: nothing of the
/// first nickname is left, and the account reads the second.
pub proof fn lemma_overwrite(
    registry: Map<Seq<u8>, Seq<char>>,
    account: Seq<u8>,
    first: Seq<char>,
    second: Seq<char>,
)
    ensures
        registry.insert(account, first).insert(account, second) == registry.insert(
            account,
            second,
        ),
        nickname_of(registry.insert(account, first).insert(account, second), account) == second,
{
    assert(registry.insert(account, first).insert(account, second) =~= registry.insert(
        account,
        second,
    ));
}

/// Whatever the other accounts write, and however often, an account that
/// writes nothing keeps the nickname that it had.
pub proof fn lemma_writes_of_others(
    start: Map<Seq<u8>, Seq<char>>,
    writes: Seq<(Seq<u8>, Seq<char>)>,
    account: Seq<u8>,
)
    requires
        forall|i: int| 0 <= i < writes.len() ==> (#[trigger] writes[i]).0 != account,
    ensures
        nickname_of(after_writes(start, writes), account) == nickname_of(start, account),
    decreases writes.len(),
{
    if writes.len() > 0 {
        let earlier = writes.drop_last();
        assert forall|i: int| 0 <= i < earlier.len() implies (#[trigger] earlier[i]).0
            != account by {
            assert(earlier[i] == writes[i]);
        }
        lemma_writes_of_others(start, earlier, account);
        lemma_write_is_private(
            after_writes(start, earlier),
            writes.last().0,
            writes.last().1,
            account,
        );
    }
}

/// An account that has never written reads the empty nickname, whether the
/// registry started out empty or with the empty nickname of the account that
/// deployed it, and whatever the other accounts have written since.
pub proof fn lemma_read_before_any_write(
    deployer: Seq<u8>,
    writes: Seq<(Seq<u8>, Seq<char>)>,
    account: Seq<u8>,
)
    requires
        forall|i: int| 0 <= i < writes.len() ==> (#[trigger] writes[i]).0 != account,
    ensures
        nickname_of(after_writes(Map::empty(), writes), account) == Seq::<char>::empty(),
        nickname_of(
            after_writes(Map::empty().insert(deployer, Seq::empty()), writes),
            account,
        ) == Seq::<char>::empty(),
{
    lemma_writes_of_others(Map::empty(), writes, account);
    lemma_writes_of_others(Map::empty().insert(deployer, Seq::empty()), writes, account);
}

/// The empty nickname that a registry holds for the account that deployed it
/// cannot be told from no nickname at all: after the same writes, a registry
/// that started with it and one that started empty answer every read alike.
pub proof fn lemma_deployer_entry_is_not_observable(
    deployer: Seq<u8>,
    writes: Seq<(Seq<u8>, Seq<char>)>,
    account: Seq<u8>,
)
    ensures
        nickname_of(
            after_writes(Map::empty().insert(deployer, Seq::empty()), writes),
            account,
        ) == nickname_of(after_writes(Map::empty(), writes), account),
    decreases writes.len(),
{
    if writes.len() > 0 {
        lemma_deployer_entry_is_not_observable(deployer, writes.drop_last(), account);
    }
}

} // verus!
