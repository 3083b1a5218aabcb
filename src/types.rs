use vstd::prelude::*;

verus! {

/// Identifies an account.
pub type AccountId = u64;

/// An amount of currency.
pub type Balance = u128;

/// Identifies a kitty; ids are handed out as 0, 1, 2, ...
pub type KittyIndex = u64;

/// A kitty's gender, fixed when it is minted.
#[derive(Clone, Copy, Debug, PartialEq, Eq, Structural)]
pub enum Gender {
    Male,
    Female,
}

/// A collectible: its genome, asking price, gender and owner.
#[derive(Clone, Copy, Debug, PartialEq, Eq)]
pub struct Kitty {
    /// Sixteen bytes of genome, fixed at mint time.
    pub dna: [u8; 16],
    /// The asking price; `None` when it is not for sale.
    pub price: Option<Balance>,
    pub gender: Gender,
    pub owner: AccountId,
}

/// The constants the ledger is configured with.
#[derive(Clone, Copy, Debug, PartialEq, Eq, Structural)]
pub struct Config {
    /// How many kitties one account may own.
    pub max_kitty_owned: u32,
    /// The amount reserved from an account's free balance for each kitty it
    /// creates or breeds.
    pub reservation_fee: Balance,
}

/// Randomness supplied by the host for one call: a seed drawn for genomes, a
/// seed drawn for genders, and the current block height.
#[derive(Clone, Copy, Debug, PartialEq, Eq)]
pub struct Entropy {
    pub dna_seed: [u8; 32],
    pub gender_seed: [u8; 32],
    pub block_number: u64,
}

/// Why an operation was refused. A refused operation changes nothing.
#[derive(Clone, Copy, Debug, PartialEq, Eq, Structural)]
pub enum Error {
    /// The kitty counter cannot grow any further.
    KittiesCountOverflow,
    /// Not an id of this ledger. No operation of this ledger returns it.
    InvalidKittyIndex,
    /// The receiving account already owns as many kitties as it may.
    ExceedMaxKittyOwned,
    /// The buyer already owns the kitty.
    BuyerIsKittyOwner,
    /// A kitty cannot be transferred to its owner.
    TransferToSelf,
    /// No kitty has this id.
    KittyNotExist,
    /// The caller does not own the kitty.
    NotKittyOwner,
    /// The kitty has no asking price.
    KittyNotForSale,
    /// The bid is below the asking price.
    KittyBidPriceTooLow,
    /// The account cannot pay.
    NotEnoughBalance,
}

/// A record of a completed operation, appended to the ledger's event log.
#[derive(Clone, Copy, Debug, PartialEq, Eq, Structural)]
pub enum Event {
    /// owner, new kitty id, fee reserved
    KittyCreated(AccountId, KittyIndex, Balance),
    /// owner, kitty id, new price
    KittyPriceSet(AccountId, KittyIndex, Option<Balance>),
    /// from, to, kitty id
    KittyTransferred(AccountId, AccountId, KittyIndex),
    /// buyer, seller, kitty id, price paid, reserved fee released
    KittyBought(AccountId, AccountId, KittyIndex, Balance, Balance),
    /// owner, new kitty id
    KittyBreed(AccountId, KittyIndex),
}

} // verus!
