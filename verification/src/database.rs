//! The mint's store: proofs by state, blind signatures, quotes and the
//! mint's settings, held in memory.
//!
//! Every change of a stored proof, signature or quote goes through the
//! operations of one of the tables, each of which either takes effect as a
//! whole or leaves its table as it was.

use vstd::prelude::*;

use crate::database::melt_quotes::MeltQuoteTable;
use crate::database::mint_quotes::MintQuoteTable;
use crate::database::proofs::ProofTable;
use crate::database::signatures::SignatureTable;
use crate::nuts::{MintInfo, QuoteTTL};

pub mod melt_quotes;
pub mod mint_quotes;
pub mod proofs;
pub mod signatures;

verus! {

/// The store of a mint, held in memory.
pub struct MintMemoryDatabase {
    pub proofs: ProofTable,
    pub blind_signatures: SignatureTable,
    pub mint_quotes: MintQuoteTable,
    pub melt_quotes: MeltQuoteTable,
    pub mint_info: MintInfo,
    pub quote_ttl: QuoteTTL,
}

impl MintMemoryDatabase {
    /// Whether every table of the store holds each of its keys once.
    pub open spec fn wf(&self) -> bool {
        &&& self.proofs.wf()
        &&& self.blind_signatures.wf()
        &&& self.mint_quotes.wf()
        &&& self.melt_quotes.wf()
    }

    /// A store without proofs, signatures or quotes.
    pub fn new(mint_info: MintInfo, quote_ttl: QuoteTTL) -> (r: MintMemoryDatabase)
        ensures
            r.wf(),
            r.proofs@.len() == 0,
            r.blind_signatures@.len() == 0,
            r.mint_quotes@.len() == 0,
            r.melt_quotes@.len() == 0,
            r.mint_info == mint_info,
            r.quote_ttl == quote_ttl,
    {
        MintMemoryDatabase {
            proofs: ProofTable::new(),
            blind_signatures: SignatureTable::new(),
            mint_quotes: MintQuoteTable::new(),
            melt_quotes: MeltQuoteTable::new(),
            mint_info,
            quote_ttl,
        }
    }
}

} // verus!
