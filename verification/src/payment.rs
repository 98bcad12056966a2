//! Orders, as the screens about payments read them.

use crate::order::Ranked;
use vstd::prelude::*;

verus! {

/// A Bitcoin network.
#[derive(Debug, Clone, Copy, PartialEq, Eq, Structural)]
pub enum BitcoinNetwork {
    Mainnet,
    Testnet,
    Signet,
    Regtest,
}

/// Where an order stands on the store's contract.
#[derive(Debug, Clone, Copy, PartialEq, Eq, Structural)]
pub enum OrderStatus {
    AwaitingPayment,
    Paid,
    PaymentReversed,
    Cancelled,
}

/// A moment: seconds since the epoch, and nanoseconds within the second.
#[derive(Debug, Clone, Copy, PartialEq, Eq, Structural)]
pub struct Moment {
    pub secs: i64,
    pub nanos: u32,
}

impl Moment {
    /// Whether this moment is later than another.
    pub open spec fn later_than(self, other: Moment) -> bool {
        self.secs > other.secs || (self.secs == other.secs && self.nanos > other.nanos)
    }

    /// Whether this moment is later than another.
    pub fn is_later_than(&self, other: &Moment) -> (r: bool)
        ensures
            r == self.later_than(*other),
    {
        self.secs > other.secs || (self.secs == other.secs && self.nanos > other.nanos)
    }
}

/// An order's terms.
#[derive(Debug, Clone, PartialEq, Eq)]
pub struct Order {
    pub id: [u8; 32],
    pub seller_fingerprint: String,
    pub amount_sats: u64,
    pub network: BitcoinNetwork,
    /// The script whose payment settles the order.
    pub payment_script_pubkey: Vec<u8>,
    /// The address a person reads.
    pub payment_address: String,
    /// The bridges whose evidence settles the order.
    pub trusted_bridges: Vec<[u8; 32]>,
    /// The contract that follows the order's address, where its terms name
    /// one.
    pub address_instance_id: Option<Vec<u8>>,
    /// The first and the last block a payment can confirm in. An order that
    /// names no anchor block has none.
    pub payment_window: Option<(u32, u32)>,
    /// What ties the order to a buyer's request.
    pub order_binding: Option<[u8; 32]>,
    /// What ties the order to a listing.
    pub listing_tag: Option<[u8; 32]>,
    pub created_at: Moment,
}

/// An order as its store publishes it.
#[derive(Debug, Clone, PartialEq, Eq)]
pub struct AuthorizedOrder {
    pub order: Order,
    pub status: OrderStatus,
}

impl Ranked for AuthorizedOrder {
    /// Newest first.
    open spec fn ranks_before(&self, other: &Self) -> bool {
        self.order.created_at.later_than(other.order.created_at)
    }

    fn before(&self, other: &Self) -> (yes: bool) {
        self.order.created_at.is_later_than(&other.order.created_at)
    }

    proof fn ranking(a: &Self, b: &Self, c: &Self) {
    }
}

/// Of two moments the later is the one of more seconds, or of as many and
/// more nanoseconds; of two different ones exactly one is later.
pub proof fn moments_are_ordered_by_seconds_first(a: Moment, b: Moment)
    ensures
        a.secs > b.secs ==> a.later_than(b),
        a.secs == b.secs ==> (a.later_than(b) <==> a.nanos > b.nanos),
        a.later_than(b) ==> !b.later_than(a),
        a.later_than(b) || b.later_than(a) || a == b,
{
}

/// Orders come newest first: of two in a sorted list, the earlier one was not
/// made before the later.
pub proof fn the_newest_order_comes_first(
    sorted: Seq<AuthorizedOrder>,
    all: Seq<AuthorizedOrder>,
    i: int,
    j: int,
)
    requires
        crate::order::is_sorted_from(sorted, all),
        0 <= i < j < sorted.len(),
    ensures
        sorted[i].order.created_at.secs >= sorted[j].order.created_at.secs,
        sorted[i].order.created_at.secs == sorted[j].order.created_at.secs
            ==> sorted[i].order.created_at.nanos >= sorted[j].order.created_at.nanos,
{
    crate::order::sorted_values_stand_by_rank(sorted, all, i, j);
}

} // verus!
