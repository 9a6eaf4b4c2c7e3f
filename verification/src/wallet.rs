//! Wallets: keys, signatures, and a view of what an account owns.
//!
//! Keys and signatures are held as bytes. The Ed25519 operations on them
//! are done by the `ed25519-dalek` crate; the message that is signed, and
//! what a wallet may do with what it owns, is decided here.

use vstd::prelude::*;
use vstd::string::*;
use ed25519_dalek::{Signer, Verifier};
use crate::address::{address_text, TriangleAddress};
use crate::block::{TransactionRecord, TriangleOperation, TriangleTransaction};
use crate::blockchain::TriadChainBlockchain;
use crate::clock::unix_time_now;
use crate::decimal::{over, plus, spec_over, spec_plus, spec_times, times, Decimal};
use crate::errors::{SierpinskiError, SierpinskiResult};
use crate::fractal::{at_depth, records_of_refs, FractalTriangle, TriangleRecord};
use crate::geometry::{settle, settled};
use crate::hashing::{blake3_hex, digest_hex, is_digest_text, text_bytes};
use crate::ident::{id_text, uuid_text};
use crate::ledger::{balance_of, owned_by};
use crate::text::{append_number, join3, number_text};
use crate::triangle::Triangle;

verus! {

/// The length of a secret key and of a public key, in bytes.
pub const KEY_LENGTH: usize = 32;

/// The length of a signature, in bytes.
pub const SIGNATURE_LENGTH: usize = 64;

/// The public key that `ed25519_dalek::SigningKey::verifying_key` gives for
/// a secret key.
pub uninterp spec fn ed25519_public_key(secret: Seq<u8>) -> Seq<u8>;

/// The signature that `ed25519_dalek::SigningKey::sign` makes of a message
/// with a secret key.
pub uninterp spec fn ed25519_signature(secret: Seq<u8>, message: Seq<u8>) -> Seq<u8>;

/// Whether `ed25519_dalek::VerifyingKey::verify` accepts a signature of a
/// message under a public key. Bytes that are no public key accept
/// nothing.
pub uninterp spec fn ed25519_verifies(public: Seq<u8>, message: Seq<u8>, signature: Seq<u8>) -> bool;

/// Thirty-two bytes from `rand::random`, for a new secret key. They come
/// from the random generator of the thread, so nothing is promised of them.
#[verifier::external_body]
fn random_secret() -> [u8; 32] {
    rand::random::<[u8; 32]>()
}

/// The public key of a secret key, by `SigningKey::from_bytes` and
/// `SigningKey::verifying_key` of `ed25519-dalek`. The contract names the
/// key.
#[verifier::external_body]
fn public_key_outside(secret: &[u8; 32]) -> (r: [u8; 32])
    ensures
        r@ == ed25519_public_key(secret@),
{
    ed25519_dalek::SigningKey::from_bytes(secret).verifying_key().to_bytes()
}

/// The signature of `message` with a secret key, by `Signer::sign` of
/// `ed25519-dalek`. Signing is deterministic, and the contract names the
/// signature. It adds what the crate shows of every key pair: the public
/// key of the secret key verifies the signature.
#[verifier::external_body]
fn sign_outside(secret: &[u8; 32], message: &[u8]) -> (r: Vec<u8>)
    ensures
        r@ == ed25519_signature(secret@, message@),
        r@.len() == SIGNATURE_LENGTH,
        ed25519_verifies(ed25519_public_key(secret@), message@, r@),
{
    ed25519_dalek::SigningKey::from_bytes(secret).sign(message).to_bytes().to_vec()
}

/// Whether a signature of 64 bytes is valid for `message` under a public
/// key, by `VerifyingKey::from_bytes` and `Verifier::verify` of
/// `ed25519-dalek`. Bytes that are no public key verify nothing.
#[verifier::external_body]
fn verify_outside(public: &[u8; 32], message: &[u8], signature: &[u8; 64]) -> (r: bool)
    ensures
        r == ed25519_verifies(public@, message@, signature@),
{
    match ed25519_dalek::VerifyingKey::from_bytes(public) {
        Ok(key) => key.verify(message, &ed25519_dalek::Signature::from_bytes(signature)).is_ok(),
        Err(_) => false,
    }
}

/// What a wallet knows of a triangle it owns, as a mathematical value.
pub struct OwnershipRecord {
    pub address: Seq<u8>,
    pub triangle_data: Option<Triangle>,
    pub acquisition_time: u64,
    pub is_staked: bool,
    pub staked_amount: Decimal,
    pub estimated_value: Decimal,
}

/// What a wallet knows of a triangle it owns.
#[derive(Debug, Clone)]
pub struct TriangleOwnership {
    pub address: TriangleAddress,
    pub triangle_data: Option<Triangle>,
    pub acquisition_time: u64,
    pub is_staked: bool,
    pub staked_amount: Decimal,
    pub estimated_value: Decimal,
}

impl View for TriangleOwnership {
    type V = OwnershipRecord;

    open spec fn view(&self) -> OwnershipRecord {
        OwnershipRecord {
            address: self.address@,
            triangle_data: self.triangle_data,
            acquisition_time: self.acquisition_time,
            is_staked: self.is_staked,
            staked_amount: self.staked_amount,
            estimated_value: self.estimated_value,
        }
    }
}

/// The records of a sequence of ownerships.
pub open spec fn ownership_records(owned: Seq<TriangleOwnership>) -> Seq<OwnershipRecord> {
    owned.map_values(|o: TriangleOwnership| o@)
}

/// A wallet: a key pair, and what the account of the wallet holds and
/// owns, as the wallet last saw it on the chain.
#[derive(Debug)]
pub struct TriadChainWallet {
    /// The name of the account: `ST` and the first 32 digits of the hash of
    /// the public key.
    pub wallet_id: String,
    /// The public key.
    pub public_key: [u8; 32],
    signing_key: Option<[u8; 32]>,
    /// The triangles owned, at most one entry for an address.
    pub owned_triangles: Vec<TriangleOwnership>,
    /// The identifiers of the transactions of the wallet.
    pub transaction_history: Vec<String>,
    /// The balance as last seen on the chain.
    pub balance: Decimal,
    /// The part of the balance that is staked.
    pub staked_balance: Decimal,
    /// When the wallet was made, in seconds since the Unix epoch.
    pub created_at: u64,
}

/// A wallet as a mathematical value.
pub struct WalletRecord {
    pub wallet_id: Seq<char>,
    pub public_key: Seq<u8>,
    pub secret: Option<Seq<u8>>,
    pub owned: Seq<OwnershipRecord>,
    pub transaction_history: Seq<Seq<char>>,
    pub balance: Decimal,
    pub staked_balance: Decimal,
    pub created_at: u64,
}

impl View for TriadChainWallet {
    type V = WalletRecord;

    closed spec fn view(&self) -> WalletRecord {
        WalletRecord {
            wallet_id: self.wallet_id@,
            public_key: self.public_key@,
            secret: match self.signing_key {
                Some(k) => Some(k@),
                None => None,
            },
            owned: ownership_records(self.owned_triangles@),
            transaction_history: crate::text::texts(self.transaction_history@),
            balance: self.balance,
            staked_balance: self.staked_balance,
            created_at: self.created_at,
        }
    }
}

/// What a wallet shows of itself.
#[derive(Debug)]
pub struct PublicWalletData {
    pub wallet_id: String,
    pub public_key: [u8; 32],
    pub owned_triangles: Vec<TriangleOwnership>,
    pub balance: Decimal,
    pub created_at: u64,
}

/// Counts and sums of a wallet.
#[derive(Debug)]
pub struct WalletStats {
    pub wallet_id: String,
    pub total_balance: Decimal,
    pub staked_balance: Decimal,
    pub available_balance: Decimal,
    pub total_triangles: usize,
    pub staked_triangles: usize,
    pub estimated_portfolio_value: Decimal,
    pub transaction_count: usize,
}

/// A wallet together with the price it offers for gas.
#[derive(Debug)]
pub struct TransactionBuilder {
    wallet: TriadChainWallet,
    gas_price: Decimal,
}

/// How an operation is written in the message that is signed: as JSON, a
/// plain operation by its name as a string, and an operation with an
/// amount as an object that holds the amount as a string under its name.
pub open spec fn operation_text(operation: TriangleOperation) -> Seq<char> {
    match operation {
        TriangleOperation::Create => "\"Create\""@,
        TriangleOperation::Subdivide => "\"Subdivide\""@,
        TriangleOperation::Transfer => "\"Transfer\""@,
        TriangleOperation::Merge => "\"Merge\""@,
        TriangleOperation::Stake { amount } => "{\"Stake\":{\"amount\":\""@ + amount.spec_text() + "\"}}"@,
        TriangleOperation::ClaimReward { amount } => "{\"ClaimReward\":{\"amount\":\""@ + amount.spec_text()
            + "\"}}"@,
    }
}

/// The message that is signed for a transaction: its identifier, the text
/// of the recipient's address, the operation, and the time stamp, with
/// colons between them.
pub open spec fn signing_message(transaction: TransactionRecord) -> Seq<char> {
    uuid_text(transaction.id) + ":"@ + address_text(transaction.to_address) + ":"@ + operation_text(
        transaction.operation,
    ) + ":"@ + number_text(transaction.timestamp as nat)
}

/// The name of the account of a public key: `ST` and the first 32 digits of
/// the hash of the key.
pub open spec fn account_name(public_key: Seq<u8>) -> Seq<char> {
    "ST"@ + blake3_hex(public_key).subrange(0, 32)
}

/// Whether the signature of a transaction is a valid signature of its
/// message under `public_key`.
pub open spec fn signature_verifies(transaction: TransactionRecord, public_key: Seq<u8>) -> bool {
    transaction.signature.len() == SIGNATURE_LENGTH && ed25519_verifies(
        public_key,
        text_bytes(signing_message(transaction)),
        transaction.signature,
    )
}

/// The position of the first ownership of the triangle at `path`, or the
/// number of ownerships where there is none.
pub open spec fn ownership_position(owned: Seq<OwnershipRecord>, path: Seq<u8>) -> int
    decreases owned.len(),
{
    if owned.len() == 0 {
        0
    } else if owned[0].address == path {
        0
    } else {
        1 + ownership_position(owned.drop_first(), path)
    }
}

/// The triangle that the wallet has for the address `path`, if it owns the
/// triangle and has its data.
pub open spec fn owned_triangle(owned: Seq<OwnershipRecord>, path: Seq<u8>) -> Option<Triangle> {
    if 0 <= ownership_position(owned, path) < owned.len() {
        owned[ownership_position(owned, path)].triangle_data
    } else {
        None
    }
}

/// Two to the power `depth + 1`, multiplied out from two.
pub open spec fn spec_doubling(depth: nat) -> Option<Decimal>
    decreases depth,
{
    if depth == 0 {
        Some(Decimal::from_pair(2, 0))
    } else {
        spec_times(spec_doubling((depth - 1) as nat), Some(Decimal::from_pair(2, 0)))
    }
}

/// The factor by which the area of a triangle bears on its value: one over
/// the area and a thousandth; one for a triangle that is not at hand.
pub open spec fn spec_area_factor(triangle: Option<Triangle>) -> Option<Decimal> {
    match triangle {
        Some(t) => match t.spec_area() {
            Some(area) => spec_over(Some(Decimal::from_pair(1, 0)), area.spec_add(Decimal::from_pair(1, 3))),
            None => Some(Decimal::from_pair(1, 0)),
        },
        None => Some(Decimal::from_pair(1, 0)),
    }
}

/// What a wallet takes a triangle at an address of `depth` digits to be
/// worth: ten tokens, doubled once and once more for every level, times the
/// area factor.
pub open spec fn spec_estimate(depth: u8, triangle: Option<Triangle>) -> Option<Decimal> {
    spec_times(
        spec_times(Some(Decimal::from_pair(10, 0)), spec_doubling(depth as nat)),
        spec_area_factor(triangle),
    )
}

/// The first triangle among `records` that is at the address `path`.
pub open spec fn first_at(records: Seq<TriangleRecord>, path: Seq<u8>) -> Option<Triangle>
    decreases records.len(),
{
    if records.len() == 0 {
        None
    } else if records[0].address == path {
        Some(records[0].triangle)
    } else {
        first_at(records.drop_first(), path)
    }
}

/// The ownerships after a wallet has seen on the chain that it owns the
/// triangles at `addresses`: for every address that it has no entry for,
/// in their order, an entry is added, with the triangle as the fractal
/// holds it at the depth of the address, not staked, seen at `now`. `None`
/// where an estimate overflows.
pub open spec fn synced(
    owned: Seq<OwnershipRecord>,
    addresses: Seq<Seq<u8>>,
    triangles: Seq<TriangleRecord>,
    now: u64,
) -> Option<Seq<OwnershipRecord>>
    decreases addresses.len(),
{
    if addresses.len() == 0 {
        Some(owned)
    } else {
        match synced(owned, addresses.drop_last(), triangles, now) {
            None => None,
            Some(before) => {
                let path = addresses.last();
                let depth = (path.len() % 256) as u8;
                if ownership_position(before, path) < before.len() {
                    Some(before)
                } else {
                    match spec_estimate(depth, None) {
                        Some(value) => Some(
                            before.push(
                                OwnershipRecord {
                                    address: path,
                                    triangle_data: first_at(at_depth(triangles, depth), path),
                                    acquisition_time: now,
                                    is_staked: false,
                                    staked_amount: Decimal::from_pair(0, 0),
                                    estimated_value: value,
                                },
                            ),
                        ),
                        None => None,
                    }
                }
            },
        }
    }
}

/// The estimated values of the ownerships, added up from zero in their
/// order.
pub open spec fn portfolio_value(owned: Seq<OwnershipRecord>) -> Option<Decimal>
    decreases owned.len(),
{
    if owned.len() == 0 {
        Some(Decimal::from_pair(0, 0))
    } else {
        spec_plus(portfolio_value(owned.drop_last()), Some(owned.last().estimated_value))
    }
}

/// The number of ownerships that are staked.
pub open spec fn staked_count(owned: Seq<OwnershipRecord>) -> nat
    decreases owned.len(),
{
    if owned.len() == 0 {
        0
    } else {
        staked_count(owned.drop_last()) + if owned.last().is_staked {
            1nat
        } else {
            0nat
        }
    }
}

/// The text of an operation as it is written in the message that is
/// signed.
pub fn operation_to_text(operation: &TriangleOperation) -> (r: String)
    ensures
        r@ == operation_text(*operation),
{
    match operation {
        TriangleOperation::Create => "\"Create\"".to_owned(),
        TriangleOperation::Subdivide => "\"Subdivide\"".to_owned(),
        TriangleOperation::Transfer => "\"Transfer\"".to_owned(),
        TriangleOperation::Merge => "\"Merge\"".to_owned(),
        TriangleOperation::Stake { amount } => {
            let text = amount.to_text();
            join3("{\"Stake\":{\"amount\":\"", text.as_str(), "\"}}")
        },
        TriangleOperation::ClaimReward { amount } => {
            let text = amount.to_text();
            join3("{\"ClaimReward\":{\"amount\":\"", text.as_str(), "\"}}")
        },
    }
}

/// The message that is signed for `transaction`.
pub fn message_to_sign(transaction: &TriangleTransaction) -> (r: String)
    ensures
        r@ == signing_message(transaction@),
{
    let mut message = id_text(transaction.id);
    message.append(":");
    let to = transaction.to_address.to_string_representation();
    message.append(to.as_str());
    message.append(":");
    let operation = operation_to_text(&transaction.operation);
    message.append(operation.as_str());
    message.append(":");
    append_number(&mut message, transaction.timestamp);
    assert(message@ =~= signing_message(transaction@));
    message
}

/// The position of the ownership of the triangle at `address`, or the
/// number of ownerships where there is none.
pub fn find_ownership(owned: &Vec<TriangleOwnership>, address: &TriangleAddress) -> (i: usize)
    ensures
        i == ownership_position(ownership_records(owned@), address@),
        i <= owned@.len(),
        i < owned@.len() ==> owned@[i as int].address@ == address@,
{
    let ghost records = ownership_records(owned@);
    let mut i: usize = 0;
    assert(records.skip(0) =~= records);
    while i < owned.len()
        invariant
            records == ownership_records(owned@),
            i <= owned.len(),
            ownership_position(records, address@) == i + ownership_position(records.skip(i as int), address@),
        decreases owned.len() - i,
    {
        assert(records.skip(i as int)[0] == owned@[i as int]@);
        if owned[i].address.same_as(address) {
            return i;
        }
        assert(records.skip(i as int).drop_first() =~= records.skip(i + 1));
        i = i + 1;
    }
    i
}

/// A copy of the ownerships.
pub fn copy_ownerships(owned: &Vec<TriangleOwnership>) -> (r: Vec<TriangleOwnership>)
    ensures
        ownership_records(r@) == ownership_records(owned@),
{
    let mut copy: Vec<TriangleOwnership> = Vec::new();
    let mut i: usize = 0;
    while i < owned.len()
        invariant
            i <= owned.len(),
            copy@.len() == i,
            forall|k: int| 0 <= k < i ==> (#[trigger] copy@[k])@ == owned@[k]@,
        decreases owned.len() - i,
    {
        let o = &owned[i];
        copy.push(
            TriangleOwnership {
                address: o.address.clone(),
                triangle_data: o.triangle_data,
                acquisition_time: o.acquisition_time,
                is_staked: o.is_staked,
                staked_amount: o.staked_amount,
                estimated_value: o.estimated_value,
            },
        );
        i = i + 1;
    }
    assert(ownership_records(copy@) =~= ownership_records(owned@));
    copy
}

impl TriadChainWallet {
    /// The secret key of the wallet, if it has one.
    pub open spec fn secret(self) -> Option<Seq<u8>> {
        self@.secret
    }

    /// Whether the public key of the wallet is that of its secret key, and
    /// its name that of its public key.
    pub open spec fn keys_match(self) -> bool {
        &&& self@.secret matches Some(secret) && self@.public_key == ed25519_public_key(secret)
        &&& self@.wallet_id == account_name(self@.public_key)
    }

    /// The triangles owned, as records.
    pub open spec fn owned(self) -> Seq<OwnershipRecord> {
        self@.owned
    }

    /// A wallet with a new key pair, made now. It owns nothing.
    pub fn new() -> (r: SierpinskiResult<TriadChainWallet>)
        ensures
            r matches Ok(w) && w.keys_match() && w.is_fresh(),
    {
        Ok(TriadChainWallet::from_signing_key(random_secret()))
    }

    /// Whether the wallet holds and owns nothing.
    pub open spec fn is_fresh(self) -> bool {
        &&& self@.owned.len() == 0
        &&& self@.transaction_history.len() == 0
        &&& self@.balance == Decimal::from_pair(0, 0)
        &&& self@.staked_balance == Decimal::from_pair(0, 0)
    }

    /// A wallet with the key pair of the secret key `signing_key`, made
    /// now. It owns nothing.
    pub fn from_signing_key(signing_key: [u8; 32]) -> (r: TriadChainWallet)
        ensures
            r.keys_match(),
            r.secret() == Some(signing_key@),
            r.is_fresh(),
    {
        let public_key = public_key_outside(&signing_key);
        let wallet_id = TriadChainWallet::derive_wallet_address(&public_key);
        TriadChainWallet {
            wallet_id,
            public_key,
            signing_key: Some(signing_key),
            owned_triangles: Vec::new(),
            transaction_history: Vec::new(),
            balance: Decimal::zero(),
            staked_balance: Decimal::zero(),
            created_at: unix_time_now(),
        }
    }

    /// The name of the account of `public_key`.
    pub fn derive_wallet_address(public_key: &[u8; 32]) -> (r: String)
        ensures
            r@ == account_name(public_key@),
    {
        let hash = digest_hex(public_key.as_slice());
        let mut name = "ST".to_owned();
        name.append(hash.as_str().substring_char(0, 32));
        name
    }

    /// Signs `transaction` with the secret key of the wallet.
    ///
    /// Fails with `ValidationError` where the wallet has no secret key; the
    /// transaction is then left as it was.
    pub fn sign_transaction(&self, transaction: &mut TriangleTransaction) -> (r: SierpinskiResult<()>)
        ensures
            match self.secret() {
                Some(secret) => r is Ok && final(transaction)@ == (TransactionRecord {
                    signature: ed25519_signature(secret, text_bytes(signing_message(old(transaction)@))),
                    ..old(transaction)@
                }),
                None => final(transaction)@ == old(transaction)@ && (r matches Err(
                    SierpinskiError::ValidationError { message },
                ) && message@ == "Wallet signing key not available"@),
            },
            r is Ok && self.keys_match() ==> signature_verifies(final(transaction)@, self@.public_key),
    {
        let secret = match &self.signing_key {
            Some(k) => k,
            None => {
                return Err(SierpinskiError::validation("Wallet signing key not available"));
            },
        };
        let message = message_to_sign(transaction);
        let signature = sign_outside(secret, message.as_str().as_bytes());
        transaction.signature = signature;
        assert(signing_message(transaction@) == signing_message(old(transaction)@));
        Ok(())
    }

    /// Whether the signature of `transaction` is a valid signature of its
    /// message under `public_key`.
    pub fn verify_transaction_signature(transaction: &TriangleTransaction, public_key: &[u8; 32]) -> (r: bool)
        ensures
            r == signature_verifies(transaction@, public_key@),
    {
        if transaction.signature.len() != SIGNATURE_LENGTH {
            return false;
        }
        let mut signature = [0u8; 64];
        let mut i: usize = 0;
        while i < SIGNATURE_LENGTH
            invariant
                i <= SIGNATURE_LENGTH,
                transaction.signature@.len() == SIGNATURE_LENGTH,
                forall|k: int| 0 <= k < i ==> signature@[k] == transaction.signature@[k],
            decreases SIGNATURE_LENGTH - i,
        {
            signature[i] = transaction.signature[i];
            i = i + 1;
        }
        assert(signature@ =~= transaction.signature@);
        let message = message_to_sign(transaction);
        verify_outside(public_key, message.as_str().as_bytes(), &signature)
    }

    /// What the wallet takes the triangle at `address` to be worth.
    pub fn estimate_triangle_value(&self, address: &TriangleAddress) -> (r: SierpinskiResult<Decimal>)
        ensures
            r == settled(spec_estimate((address@.len() % 256) as u8, owned_triangle(self.owned(), address@))),
    {
        let depth = address.depth();
        let two = Decimal::new(2, 0);
        let mut doubling = Some(two);
        let mut level: u8 = 0;
        while level < depth
            invariant
                level <= depth,
                two == Decimal::from_pair(2, 0),
                doubling == spec_doubling(level as nat),
            decreases depth - level,
        {
            doubling = times(doubling, Some(two));
            level = level + 1;
        }
        let at = find_ownership(&self.owned_triangles, address);
        let triangle = if at < self.owned_triangles.len() {
            self.owned_triangles[at].triangle_data
        } else {
            None
        };
        let factor = match triangle {
            Some(t) => match t.area() {
                Ok(area) => over(Some(Decimal::one()), area.checked_add(Decimal::new(1, 3))),
                Err(_) => Some(Decimal::one()),
            },
            None => Some(Decimal::one()),
        };
        settle(times(times(Some(Decimal::new(10, 0)), doubling), factor))
    }

    /// Brings the wallet up to date with `blockchain`, as the clock stands:
    /// its balance, and the triangles it owns.
    ///
    /// Fails with `ArithmeticOverflow` where an estimate overflows; the
    /// wallet is then left as it was.
    pub fn sync_with_blockchain(&mut self, blockchain: &TriadChainBlockchain) -> (r: SierpinskiResult<()>)
        ensures
            final(self).frame(*old(self)),
            exists|now: u64| #[trigger] final(self).brought_up_to_date(*old(self), *blockchain, now, r),
    {
        let now = unix_time_now();
        let r = self.sync_with_blockchain_at(now, blockchain);
        assert(self.brought_up_to_date(*old(self), *blockchain, now, r));
        r
    }

    /// Whether this wallet and `r` are what bringing `before` up to date
    /// with `blockchain` gives where the clock reads `now`. Where no
    /// estimate overflows, the wallet has the balance that the chain holds
    /// under its name and the ownerships of [`synced`]. Where one does, the
    /// result is `ArithmeticOverflow` and the wallet is as it was.
    pub open spec fn brought_up_to_date(
        self,
        before: TriadChainWallet,
        blockchain: TriadChainBlockchain,
        now: u64,
        r: SierpinskiResult<()>,
    ) -> bool {
        match synced(before.owned(), owned_by(blockchain.owners(), before@.wallet_id), blockchain.triangles(), now) {
            Some(owned) => r is Ok && self.owned() == owned && self@.balance == balance_of(
                blockchain.accounts(),
                before@.wallet_id,
            ),
            None => r == Err::<(), SierpinskiError>(SierpinskiError::ArithmeticOverflow) && self@ == before@,
        }
    }

    /// Whether the wallet has the name, the keys, the history, the staked
    /// balance and the time of making of `other`.
    pub open spec fn frame(self, other: TriadChainWallet) -> bool {
        self@ == (WalletRecord { owned: self@.owned, balance: self@.balance, ..other@ })
    }

    /// Brings the wallet up to date as
    /// [`TriadChainWallet::sync_with_blockchain`] does, with `now` as the
    /// reading of the clock.
    ///
    /// Fails with `ArithmeticOverflow` where an estimate overflows; the
    /// wallet is then left as it was.
    pub fn sync_with_blockchain_at(
        &mut self,
        now: u64,
        blockchain: &TriadChainBlockchain,
    ) -> (r: SierpinskiResult<()>)
        ensures
            final(self).frame(*old(self)),
            match synced(
                old(self).owned(),
                owned_by(blockchain.owners(), old(self)@.wallet_id),
                blockchain.triangles(),
                now,
            ) {
                Some(owned) => r is Ok && final(self).owned() == owned && final(self)@.balance == balance_of(
                    blockchain.accounts(),
                    old(self)@.wallet_id,
                ),
                None => r == Err::<(), SierpinskiError>(SierpinskiError::ArithmeticOverflow) && final(self)@
                    == old(self)@,
            },
    {
        let balance = blockchain.get_balance(self.wallet_id.as_str());
        let addresses = blockchain.get_owned_triangles(self.wallet_id.as_str());
        let ghost paths = addresses@.map_values(|a: TriangleAddress| a@);
        let ghost triangles = blockchain.triangles();
        let ghost start = self.owned();
        let mut owned = copy_ownerships(&self.owned_triangles);
        let mut i: usize = 0;
        assert(paths.subrange(0, 0) =~= Seq::<Seq<u8>>::empty());
        while i < addresses.len()
            invariant
                paths == addresses@.map_values(|a: TriangleAddress| a@),
                triangles == blockchain.triangles(),
                i <= addresses.len(),
                synced(start, paths.subrange(0, i as int), triangles, now) == Some(ownership_records(owned@)),
                start == old(self).owned(),
                paths == owned_by(blockchain.owners(), old(self)@.wallet_id),
                *self == *old(self),
            decreases addresses.len() - i,
        {
            let address = &addresses[i];
            proof {
                let next = paths.subrange(0, i + 1);
                assert(next.drop_last() =~= paths.subrange(0, i as int));
                assert(next.last() == address@);
            }
            if find_ownership(&owned, address) >= owned.len() {
                let depth = address.depth();
                let members = blockchain.fractal_state().triangles_at_depth(depth);
                let triangle_data = find_at(&members, address);
                let estimated_value = match TriadChainWallet::estimate_unseen(depth) {
                    Some(v) => v,
                    None => {
                        proof {
                            lemma_sync_fails(start, paths, i + 1, triangles, now);
                        }
                        return Err(SierpinskiError::ArithmeticOverflow);
                    },
                };
                let ghost before = ownership_records(owned@);
                owned.push(
                    TriangleOwnership {
                        address: address.clone(),
                        triangle_data,
                        acquisition_time: now,
                        is_staked: false,
                        staked_amount: Decimal::zero(),
                        estimated_value,
                    },
                );
                assert(ownership_records(owned@) =~= before.push(owned@.last()@));
            }
            i = i + 1;
        }
        assert(paths.subrange(0, i as int) =~= paths);
        self.balance = balance;
        self.owned_triangles = owned;
        Ok(())
    }

    /// What a triangle at an address of `depth` digits is taken to be worth
    /// before the wallet has its data.
    fn estimate_unseen(depth: u8) -> (r: Option<Decimal>)
        ensures
            r == spec_estimate(depth, None),
    {
        let two = Decimal::new(2, 0);
        let mut doubling = Some(two);
        let mut level: u8 = 0;
        while level < depth
            invariant
                level <= depth,
                two == Decimal::from_pair(2, 0),
                doubling == spec_doubling(level as nat),
            decreases depth - level,
        {
            doubling = times(doubling, Some(two));
            level = level + 1;
        }
        times(times(Some(Decimal::new(10, 0)), doubling), Some(Decimal::one()))
    }

    /// Whether the wallet may spend `needed`: whether it owns the triangle
    /// at `path` and its balance is not below `needed`. Otherwise the
    /// sentence that says why not.
    pub open spec fn spending_fault(
        self,
        path: Seq<u8>,
        needed: Option<Decimal>,
        shortfall: Seq<char>,
    ) -> Option<Seq<char>> {
        if ownership_position(self.owned(), path) >= self.owned().len() {
            Some("Triangle not owned by this wallet"@)
        } else {
            match needed {
                Some(n) => if self@.balance.less_than(n) {
                    Some(shortfall)
                } else {
                    None
                },
                None => Some(shortfall),
            }
        }
    }

    /// A signed transaction that hands the triangle at `triangle_address`
    /// to `to_address`.
    ///
    /// Fails with `ValidationError` where the wallet does not own the
    /// triangle, where its balance does not cover the fee, or where it has
    /// no secret key, and with `InvalidAddress` where `to_address` is no
    /// address.
    pub fn create_transfer_transaction(
        &self,
        to_address: &str,
        triangle_address: TriangleAddress,
        gas_fee: Decimal,
    ) -> (r: SierpinskiResult<TriangleTransaction>)
        ensures
            match self.spending_fault(triangle_address@, Some(gas_fee), "Insufficient balance for gas fee"@) {
                Some(text) => r matches Err(SierpinskiError::ValidationError { message }) && message@ == text,
                None => match crate::address::parse_address(to_address@) {
                    None => r matches Err(SierpinskiError::InvalidAddress { address }) && address@ == to_address@,
                    Some(to) => match self.secret() {
                        None => r matches Err(SierpinskiError::ValidationError { message }) && message@
                            == "Wallet signing key not available"@,
                        Some(secret) => r matches Ok(t) && self.signed_by(
                            t@,
                            Some(triangle_address@),
                            to,
                            TriangleOperation::Transfer,
                            owned_triangle(self.owned(), triangle_address@),
                            gas_fee,
                        ),
                    },
                },
            },
    {
        let at = find_ownership(&self.owned_triangles, &triangle_address);
        if at >= self.owned_triangles.len() {
            return Err(SierpinskiError::validation("Triangle not owned by this wallet"));
        }
        if self.balance.lt(&gas_fee) {
            return Err(SierpinskiError::validation("Insufficient balance for gas fee"));
        }
        let to = TriangleAddress::from_string_representation(to_address)?;
        let mut transaction = TriangleTransaction::new(
            Some(triangle_address),
            to,
            TriangleOperation::Transfer,
            self.owned_triangles[at].triangle_data,
            gas_fee,
        );
        self.sign_transaction(&mut transaction)?;
        Ok(transaction)
    }

    /// Whether `t` is a transaction with the given parts, signed by this
    /// wallet.
    pub open spec fn signed_by(
        self,
        t: TransactionRecord,
        from: Option<Seq<u8>>,
        to: Seq<u8>,
        operation: TriangleOperation,
        triangle: Option<Triangle>,
        gas_fee: Decimal,
    ) -> bool {
        &&& t.from_address == from
        &&& t.to_address == to
        &&& t.operation == operation
        &&& t.triangle_data == triangle
        &&& t.gas_fee == gas_fee
        &&& self.secret() matches Some(secret) && t.signature == ed25519_signature(
            secret,
            text_bytes(signing_message(t)),
        )
        &&& self.keys_match() ==> signature_verifies(t, self@.public_key)
    }

    /// A signed transaction that stakes `stake_amount` on the triangle at
    /// `triangle_address`.
    ///
    /// Fails with `ValidationError` where the wallet does not own the
    /// triangle, where its balance does not cover the stake and the fee, or
    /// where it has no secret key.
    pub fn create_stake_transaction(
        &self,
        triangle_address: TriangleAddress,
        stake_amount: Decimal,
        gas_fee: Decimal,
    ) -> (r: SierpinskiResult<TriangleTransaction>)
        ensures
            match self.spending_fault(
                triangle_address@,
                stake_amount.spec_add(gas_fee),
                "Insufficient balance for stake and gas"@,
            ) {
                Some(text) => r matches Err(SierpinskiError::ValidationError { message }) && message@ == text,
                None => match self.secret() {
                    None => r matches Err(SierpinskiError::ValidationError { message }) && message@
                        == "Wallet signing key not available"@,
                    Some(secret) => r matches Ok(t) && self.signed_by(
                        t@,
                        Some(triangle_address@),
                        triangle_address@,
                        (TriangleOperation::Stake { amount: stake_amount }),
                        None,
                        gas_fee,
                    ),
                },
            },
    {
        let at = find_ownership(&self.owned_triangles, &triangle_address);
        if at >= self.owned_triangles.len() {
            return Err(SierpinskiError::validation("Triangle not owned by this wallet"));
        }
        let covered = match stake_amount.checked_add(gas_fee) {
            Some(needed) => !self.balance.lt(&needed),
            None => false,
        };
        if !covered {
            return Err(SierpinskiError::validation("Insufficient balance for stake and gas"));
        }
        let mut transaction = TriangleTransaction::new(
            Some(triangle_address.clone()),
            triangle_address,
            TriangleOperation::Stake { amount: stake_amount },
            None,
            gas_fee,
        );
        self.sign_transaction(&mut transaction)?;
        Ok(transaction)
    }

    /// A signed transaction that subdivides the triangle at
    /// `triangle_address`.
    ///
    /// Fails with `ValidationError` where the wallet does not own the
    /// triangle, where its balance does not cover the fee, or where it has
    /// no secret key.
    pub fn create_subdivision_transaction(
        &self,
        triangle_address: TriangleAddress,
        gas_fee: Decimal,
    ) -> (r: SierpinskiResult<TriangleTransaction>)
        ensures
            match self.spending_fault(triangle_address@, Some(gas_fee), "Insufficient balance for gas fee"@) {
                Some(text) => r matches Err(SierpinskiError::ValidationError { message }) && message@ == text,
                None => match self.secret() {
                    None => r matches Err(SierpinskiError::ValidationError { message }) && message@
                        == "Wallet signing key not available"@,
                    Some(secret) => r matches Ok(t) && self.signed_by(
                        t@,
                        Some(triangle_address@),
                        triangle_address@,
                        TriangleOperation::Subdivide,
                        owned_triangle(self.owned(), triangle_address@),
                        gas_fee,
                    ),
                },
            },
    {
        let at = find_ownership(&self.owned_triangles, &triangle_address);
        if at >= self.owned_triangles.len() {
            return Err(SierpinskiError::validation("Triangle not owned by this wallet"));
        }
        let triangle_data = self.owned_triangles[at].triangle_data;
        if self.balance.lt(&gas_fee) {
            return Err(SierpinskiError::validation("Insufficient balance for gas fee"));
        }
        let mut transaction = TriangleTransaction::new(
            Some(triangle_address.clone()),
            triangle_address,
            TriangleOperation::Subdivide,
            triangle_data,
            gas_fee,
        );
        self.sign_transaction(&mut transaction)?;
        Ok(transaction)
    }

    /// Counts and sums of the wallet.
    ///
    /// Fails with `ArithmeticOverflow` where a sum or the available balance
    /// overflows.
    pub fn get_stats(&self) -> (r: SierpinskiResult<WalletStats>)
        ensures
            match (portfolio_value(self.owned()), self@.balance.spec_sub(self@.staked_balance)) {
                (Some(value), Some(available)) => r matches Ok(s) && {
                    &&& s.wallet_id@ == self@.wallet_id
                    &&& s.total_balance == self@.balance
                    &&& s.staked_balance == self@.staked_balance
                    &&& s.available_balance == available
                    &&& s.total_triangles == self.owned().len()
                    &&& s.staked_triangles == staked_count(self.owned())
                    &&& s.estimated_portfolio_value == value
                    &&& s.transaction_count == self@.transaction_history.len()
                },
                _ => r matches Err(SierpinskiError::ArithmeticOverflow),
            },
    {
        let ghost owned = self.owned();
        let mut staked: usize = 0;
        let mut value = Some(Decimal::zero());
        let mut i: usize = 0;
        while i < self.owned_triangles.len()
            invariant
                owned == ownership_records(self.owned_triangles@),
                i <= self.owned_triangles.len(),
                staked <= i,
                staked == staked_count(owned.subrange(0, i as int)),
                value == portfolio_value(owned.subrange(0, i as int)),
            decreases self.owned_triangles.len() - i,
        {
            proof {
                let next = owned.subrange(0, i + 1);
                assert(next.drop_last() =~= owned.subrange(0, i as int));
                assert(next.last() == self.owned_triangles@[i as int]@);
            }
            if self.owned_triangles[i].is_staked {
                staked = staked + 1;
            }
            value = plus(value, Some(self.owned_triangles[i].estimated_value));
            i = i + 1;
        }
        assert(owned.subrange(0, i as int) =~= owned);
        match (value, self.balance.checked_sub(self.staked_balance)) {
            (Some(value), Some(available)) => Ok(
                WalletStats {
                    wallet_id: self.wallet_id.clone(),
                    total_balance: self.balance,
                    staked_balance: self.staked_balance,
                    available_balance: available,
                    total_triangles: self.owned_triangles.len(),
                    staked_triangles: staked,
                    estimated_portfolio_value: value,
                    transaction_count: self.transaction_history.len(),
                },
            ),
            _ => Err(SierpinskiError::ArithmeticOverflow),
        }
    }

    /// What the wallet shows of itself: everything but the secret key, the
    /// history and the staked balance.
    pub fn export_public(&self) -> (r: PublicWalletData)
        ensures
            r.wallet_id@ == self@.wallet_id,
            r.public_key@ == self@.public_key,
            ownership_records(r.owned_triangles@) == self.owned(),
            r.balance == self@.balance,
            r.created_at == self@.created_at,
    {
        PublicWalletData {
            wallet_id: self.wallet_id.clone(),
            public_key: self.public_key,
            owned_triangles: copy_ownerships(&self.owned_triangles),
            balance: self.balance,
            created_at: self.created_at,
        }
    }
}

/// The first triangle among `members` that is at `address`.
fn find_at(members: &Vec<&FractalTriangle>, address: &TriangleAddress) -> (r: Option<Triangle>)
    ensures
        r == first_at(records_of_refs(members@), address@),
{
    let ghost records = records_of_refs(members@);
    let mut i: usize = 0;
    assert(records.skip(0) =~= records);
    while i < members.len()
        invariant
            records == records_of_refs(members@),
            i <= members.len(),
            first_at(records, address@) == first_at(records.skip(i as int), address@),
        decreases members.len() - i,
    {
        assert(records.skip(i as int)[0] == members@[i as int]@);
        assert(records.skip(i as int).drop_first() =~= records.skip(i + 1));
        if members[i].address.same_as(address) {
            return Some(members[i].triangle);
        }
        i = i + 1;
    }
    assert(records.skip(i as int) =~= Seq::<TriangleRecord>::empty());
    None
}

/// Once the ownerships cannot be brought up to date with some of the
/// addresses, they cannot with more of them.
proof fn lemma_sync_fails(
    owned: Seq<OwnershipRecord>,
    addresses: Seq<Seq<u8>>,
    upto: int,
    triangles: Seq<TriangleRecord>,
    now: u64,
)
    requires
        0 <= upto <= addresses.len(),
        synced(owned, addresses.subrange(0, upto), triangles, now) is None,
    ensures
        synced(owned, addresses, triangles, now) is None,
    decreases addresses.len() - upto,
{
    if upto < addresses.len() {
        let next = addresses.subrange(0, upto + 1);
        assert(next.drop_last() =~= addresses.subrange(0, upto));
        lemma_sync_fails(owned, addresses, upto + 1, triangles, now);
    } else {
        assert(addresses.subrange(0, upto) =~= addresses);
    }
}

} // verus!
