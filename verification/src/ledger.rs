//! Balances by account, and owners by triangle address.
//!
//! Both are small association lists: an account or an address occurs at
//! most once, and the entries stay in the order in which they were first
//! written.

use vstd::prelude::*;
use vstd::string::*;
use crate::address::TriangleAddress;
use crate::decimal::Decimal;

verus! {

/// The balance of one account.
#[derive(Debug)]
pub struct Account {
    /// The name of the account.
    pub owner: String,
    /// What the account holds.
    pub balance: Decimal,
}

/// The owner of one triangle.
#[derive(Debug)]
pub struct Title {
    /// The address of the triangle.
    pub address: TriangleAddress,
    /// The name of the owner.
    pub owner: String,
}

/// The position of the first pair with key `key`, or the number of pairs
/// where there is none.
pub open spec fn key_position<K, V>(pairs: Seq<(K, V)>, key: K) -> int
    decreases pairs.len(),
{
    if pairs.len() == 0 {
        0
    } else if pairs[0].0 == key {
        0
    } else {
        1 + key_position(pairs.drop_first(), key)
    }
}

/// The value under `key`, if there is one.
pub open spec fn value_of<K, V>(pairs: Seq<(K, V)>, key: K) -> Option<V> {
    if 0 <= key_position(pairs, key) < pairs.len() {
        Some(pairs[key_position(pairs, key)].1)
    } else {
        None
    }
}

/// The pairs with `value` written under `key`: in the place of the pair with
/// that key, or at the end where there is none.
pub open spec fn written<K, V>(pairs: Seq<(K, V)>, key: K, value: V) -> Seq<(K, V)> {
    if 0 <= key_position(pairs, key) < pairs.len() {
        pairs.update(key_position(pairs, key), (key, value))
    } else {
        pairs.push((key, value))
    }
}

/// Whether no key occurs twice.
pub open spec fn keys_distinct<K, V>(pairs: Seq<(K, V)>) -> bool {
    forall|i: int, j: int| 0 <= i < j < pairs.len() ==> pairs[i].0 != pairs[j].0
}

/// The balance of `owner`: zero for an account that has none.
pub open spec fn balance_of(pairs: Seq<(Seq<char>, Decimal)>, owner: Seq<char>) -> Decimal {
    match value_of(pairs, owner) {
        Some(balance) => balance,
        None => Decimal::from_pair(0, 0),
    }
}

/// The addresses owned by `owner`, in the order of the pairs.
pub open spec fn owned_by(pairs: Seq<(Seq<u8>, Seq<char>)>, owner: Seq<char>) -> Seq<Seq<u8>>
    decreases pairs.len(),
{
    if pairs.len() == 0 {
        Seq::<Seq<u8>>::empty()
    } else if pairs.last().1 == owner {
        owned_by(pairs.drop_last(), owner).push(pairs.last().0)
    } else {
        owned_by(pairs.drop_last(), owner)
    }
}

/// The position of a key lies within the pairs or just behind them, and
/// the key stands there and nowhere before.
pub proof fn lemma_key_position<K, V>(pairs: Seq<(K, V)>, key: K)
    ensures
        0 <= key_position(pairs, key) <= pairs.len(),
        key_position(pairs, key) < pairs.len() ==> pairs[key_position(pairs, key)].0 == key,
        forall|k: int| 0 <= k < key_position(pairs, key) ==> pairs[k].0 != key,
    decreases pairs.len(),
{
    if pairs.len() > 0 && pairs[0].0 != key {
        let rest = pairs.drop_first();
        lemma_key_position(rest, key);
        assert forall|k: int| 0 <= k < key_position(pairs, key) implies pairs[k].0 != key by {
            if k > 0 {
                assert(rest[k - 1] == pairs[k]);
            }
        }
    }
}

/// Writing a value keeps the keys distinct.
pub proof fn lemma_written_distinct<K, V>(pairs: Seq<(K, V)>, key: K, value: V)
    requires
        keys_distinct(pairs),
    ensures
        keys_distinct(written(pairs, key, value)),
{
    lemma_key_position(pairs, key);
    let p = key_position(pairs, key);
    let after = written(pairs, key, value);
    assert forall|a: int, b: int| 0 <= a < b < after.len() implies after[a].0 != after[b].0 by {
        if p < pairs.len() {
            assert(after[a].0 == pairs[a].0 && after[b].0 == pairs[b].0);
        } else {
            if b < pairs.len() {
                assert(after[a] == pairs[a] && after[b] == pairs[b]);
            } else {
                assert(after[a] == pairs[a]);
            }
        }
    }
}

/// The balances of the accounts.
#[derive(Debug)]
pub struct Ledger {
    accounts: Vec<Account>,
}

impl View for Ledger {
    type V = Seq<(Seq<char>, Decimal)>;

    closed spec fn view(&self) -> Seq<(Seq<char>, Decimal)> {
        self.accounts@.map_values(|a: Account| (a.owner@, a.balance))
    }
}

impl Ledger {
    #[verifier::type_invariant]
    spec fn one_entry_per_account(self) -> bool {
        keys_distinct(self@)
    }

    /// A ledger without accounts.
    pub fn new() -> (r: Ledger)
        ensures
            r@ == Seq::<(Seq<char>, Decimal)>::empty(),
    {
        let r = Ledger { accounts: Vec::new() };
        assert(r@ =~= Seq::<(Seq<char>, Decimal)>::empty());
        r
    }

    fn find(&self, owner: &str) -> (i: usize)
        ensures
            i == key_position(self@, owner@),
            i <= self@.len(),
            self.accounts@.len() == self@.len(),
    {
        let ghost pairs = self@;
        let wanted = owner.to_owned();
        let mut i: usize = 0;
        assert(pairs.skip(0) =~= pairs);
        while i < self.accounts.len()
            invariant
                pairs == self@,
                wanted@ == owner@,
                i <= self.accounts.len(),
                self.accounts@.len() == pairs.len(),
                key_position(pairs, owner@) == i + key_position(pairs.skip(i as int), owner@),
            decreases self.accounts.len() - i,
        {
            assert(pairs.skip(i as int)[0] == pairs[i as int]);
            if self.accounts[i].owner == wanted {
                return i;
            }
            assert(pairs.skip(i as int).drop_first() =~= pairs.skip(i + 1));
            i = i + 1;
        }
        i
    }

    /// The balance of `owner`: zero for an account that has none.
    pub fn balance(&self, owner: &str) -> (r: Decimal)
        ensures
            r == balance_of(self@, owner@),
    {
        let i = self.find(owner);
        if i < self.accounts.len() {
            self.accounts[i].balance
        } else {
            Decimal::zero()
        }
    }

    /// Writes `balance` as the balance of `owner`.
    pub fn set_balance(&mut self, owner: &str, balance: Decimal)
        ensures
            final(self)@ == written(old(self)@, owner@, balance),
    {
        proof {
            use_type_invariant(&*self);
            lemma_written_distinct(self@, owner@, balance);
        }
        let ghost before = self@;
        let i = self.find(owner);
        let account = Account { owner: owner.to_owned(), balance };
        let mut accounts: Vec<Account> = Vec::new();
        std::mem::swap(&mut accounts, &mut self.accounts);
        if i < accounts.len() {
            accounts.set(i, account);
            assert(accounts@.map_values(|a: Account| (a.owner@, a.balance)) =~= before.update(
                i as int,
                (owner@, balance),
            ));
        } else {
            accounts.push(account);
            assert(accounts@.map_values(|a: Account| (a.owner@, a.balance)) =~= before.push((owner@, balance)));
        }
        self.accounts = accounts;
    }

    /// The number of accounts.
    pub fn len(&self) -> (r: usize)
        ensures
            r == self@.len(),
            keys_distinct(self@),
    {
        proof {
            use_type_invariant(self);
        }
        self.accounts.len()
    }
}

/// The owners of the triangles.
#[derive(Debug)]
pub struct Registry {
    titles: Vec<Title>,
}

impl View for Registry {
    type V = Seq<(Seq<u8>, Seq<char>)>;

    closed spec fn view(&self) -> Seq<(Seq<u8>, Seq<char>)> {
        self.titles@.map_values(|t: Title| (t.address@, t.owner@))
    }
}

impl Registry {
    #[verifier::type_invariant]
    spec fn one_entry_per_address(self) -> bool {
        keys_distinct(self@)
    }

    /// A registry without entries.
    pub fn new() -> (r: Registry)
        ensures
            r@ == Seq::<(Seq<u8>, Seq<char>)>::empty(),
    {
        let r = Registry { titles: Vec::new() };
        assert(r@ =~= Seq::<(Seq<u8>, Seq<char>)>::empty());
        r
    }

    fn find(&self, address: &TriangleAddress) -> (i: usize)
        ensures
            i == key_position(self@, address@),
            i <= self@.len(),
            self.titles@.len() == self@.len(),
    {
        let ghost pairs = self@;
        let mut i: usize = 0;
        assert(pairs.skip(0) =~= pairs);
        while i < self.titles.len()
            invariant
                pairs == self@,
                i <= self.titles.len(),
                self.titles@.len() == pairs.len(),
                key_position(pairs, address@) == i + key_position(pairs.skip(i as int), address@),
            decreases self.titles.len() - i,
        {
            assert(pairs.skip(i as int)[0] == pairs[i as int]);
            if self.titles[i].address.same_as(address) {
                return i;
            }
            assert(pairs.skip(i as int).drop_first() =~= pairs.skip(i + 1));
            i = i + 1;
        }
        i
    }

    /// The owner of the triangle at `address`, if it has one.
    pub fn owner(&self, address: &TriangleAddress) -> (r: Option<String>)
        ensures
            match r {
                Some(name) => value_of(self@, address@) == Some(name@),
                None => value_of(self@, address@) is None,
            },
    {
        let i = self.find(address);
        if i < self.titles.len() {
            Some(self.titles[i].owner.clone())
        } else {
            None
        }
    }

    /// Writes `owner` as the owner of the triangle at `address`.
    pub fn set_owner(&mut self, address: &TriangleAddress, owner: &str)
        ensures
            final(self)@ == written(old(self)@, address@, owner@),
    {
        proof {
            use_type_invariant(&*self);
            lemma_written_distinct(self@, address@, owner@);
        }
        let ghost before = self@;
        let i = self.find(address);
        let title = Title { address: address.clone(), owner: owner.to_owned() };
        let mut titles: Vec<Title> = Vec::new();
        std::mem::swap(&mut titles, &mut self.titles);
        if i < titles.len() {
            titles.set(i, title);
            assert(titles@.map_values(|t: Title| (t.address@, t.owner@)) =~= before.update(
                i as int,
                (address@, owner@),
            ));
        } else {
            titles.push(title);
            assert(titles@.map_values(|t: Title| (t.address@, t.owner@)) =~= before.push((address@, owner@)));
        }
        self.titles = titles;
    }

    /// The addresses of the triangles that `owner` owns, in the order in
    /// which they were first written.
    pub fn owned_by(&self, owner: &str) -> (r: Vec<TriangleAddress>)
        ensures
            r@.map_values(|a: TriangleAddress| a@) == owned_by(self@, owner@),
    {
        let ghost pairs = self@;
        let wanted = owner.to_owned();
        let mut found: Vec<TriangleAddress> = Vec::new();
        let mut i: usize = 0;
        assert(found@.map_values(|a: TriangleAddress| a@) =~= owned_by(pairs.subrange(0, 0), owner@));
        while i < self.titles.len()
            invariant
                pairs == self@,
                wanted@ == owner@,
                i <= self.titles.len(),
                self.titles@.len() == pairs.len(),
                found@.map_values(|a: TriangleAddress| a@) == owned_by(pairs.subrange(0, i as int), owner@),
            decreases self.titles.len() - i,
        {
            proof {
                let next = pairs.subrange(0, i + 1);
                assert(next.drop_last() =~= pairs.subrange(0, i as int));
                assert(next.last() == pairs[i as int]);
            }
            let ghost before = found@;
            if self.titles[i].owner == wanted {
                let address = self.titles[i].address.clone();
                found.push(address);
                assert(found@.map_values(|a: TriangleAddress| a@) =~= before.map_values(
                    |a: TriangleAddress| a@,
                ).push(pairs[i as int].0));
            }
            i = i + 1;
        }
        assert(pairs.subrange(0, i as int) =~= pairs);
        found
    }

    /// The number of entries.
    pub fn len(&self) -> (r: usize)
        ensures
            r == self@.len(),
    {
        self.titles.len()
    }
}

} // verus!
