//! The rules behind Harvest's user interface: what its screens show, what its
//! controls do, and how its two background flows (store-key custody and the
//! delegate secret migration) move from one state to the next.

pub mod base58;
pub mod bitcoin_view;
pub mod buy_view;
pub mod bytes;
pub mod clock;
pub mod confirm;
pub mod custody_flow;
pub mod delegate_migrate;
pub mod document_title;
pub mod invoice_form;
pub mod keyed;
pub mod keys;
pub mod listing;
pub mod listing_form;
pub mod message_view;
pub mod my_store;
pub mod notary;
pub mod order;
pub mod payment;
pub mod purchases_view;
pub mod random;
pub mod reputation_view;
pub mod seller_listings;
pub mod seqs;
pub mod shell;
pub mod state;
pub mod store_view;
pub mod text;
pub mod vault;
