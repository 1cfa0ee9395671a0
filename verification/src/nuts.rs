//! The values of the protocol: proofs, blinded messages, blind signatures,
//! quotes and the requests that carry them.

use vstd::prelude::*;

use crate::amount::{sum_amounts, Amount};
use crate::conditions::{Conditions, Witness};
use crate::dhke::PublicKey;
use crate::error::Error;
use crate::units::{CurrencyUnit, PaymentMethod};

verus! {

/// The state of a stored proof.
#[derive(Clone, Copy, Debug, PartialEq, Eq, Structural, Hash)]
pub enum State {
    /// The proof can be spent.
    Unspent,
    /// The proof is an input of a request in flight.
    Pending,
    /// The proof has been spent. Nothing follows this state.
    Spent,
    /// The proof is set aside for a later request.
    Reserved,
}

/// The state of a melt quote, and the status a payment backend reports.
#[derive(Clone, Copy, Debug, PartialEq, Eq, Structural, Hash)]
pub enum MeltQuoteState {
    /// No payment has been made.
    Unpaid,
    /// A payment is in flight.
    Pending,
    /// The invoice has been paid. Nothing follows this state.
    Paid,
    /// The payment failed for good.
    Failed,
    /// The backend cannot tell. No stored quote rests in this state.
    Unknown,
}

/// The state of a mint quote.
#[derive(Clone, Copy, Debug, PartialEq, Eq, Structural, Hash)]
pub enum MintQuoteState {
    /// The invoice has not been paid.
    Unpaid,
    /// The invoice has been paid and nothing has been issued.
    Paid,
    /// The signatures have been issued. Nothing follows this state.
    Issued,
}

/// Which signatures a locked proof asks for.
#[derive(Clone, Copy, Debug, PartialEq, Eq, Structural, Hash)]
pub enum SigFlag {
    /// Each input is signed on its own.
    SigInputs,
    /// One set of signatures covers all inputs and outputs of the request.
    SigAll,
}

/// What a melt quote request may ask for beyond the invoice. A request
/// without options pays the invoice as it stands.
#[derive(Clone, Copy, Debug, PartialEq, Eq, Structural, Hash)]
pub enum MeltOptions {
    /// Pay `parts` millisatoshi of the invoice; others pay the rest.
    Mpp { parts: Amount },
    /// The invoice names no amount: pay `msat_to_pay` millisatoshi.
    Amountless { msat_to_pay: Amount },
}

impl MeltOptions {
    /// The millisatoshi the options ask to pay.
    pub open spec fn amount_msat_spec(self) -> Amount {
        match self {
            MeltOptions::Mpp { parts } => parts,
            MeltOptions::Amountless { msat_to_pay } => msat_to_pay,
        }
    }

    /// The millisatoshi the options ask to pay.
    pub fn amount_msat(&self) -> (r: Amount)
        ensures
            r == self.amount_msat_spec(),
    {
        match self {
            MeltOptions::Mpp { parts } => *parts,
            MeltOptions::Amountless { msat_to_pay } => *msat_to_pay,
        }
    }
}

/// A blinded point that a client asks the mint to sign.
#[derive(Clone, Copy, Debug, PartialEq, Eq, Hash)]
pub struct BlindedMessage {
    pub amount: Amount,
    pub keyset_id: u64,
    pub blinded_secret: PublicKey,
}

/// The mint's signature on a blinded point.
#[derive(Clone, Copy, Debug, PartialEq, Eq, Hash)]
pub struct BlindSignature {
    pub amount: Amount,
    pub keyset_id: u64,
    pub c: PublicKey,
}

/// A bearer token: a secret and the mint's unblinded signature on it.
#[derive(Clone, Debug, PartialEq, Eq)]
pub struct Proof {
    pub amount: Amount,
    pub keyset_id: u64,
    pub secret: Vec<u8>,
    pub c: PublicKey,
    /// The spending condition written in the secret, where there is one:
    /// what [`crate::secret::conditions_of`] makes of the kind, the data and
    /// the tags that the secret holds.
    pub conditions: Option<Conditions>,
    /// What is shown to meet the condition.
    pub witness: Option<Witness>,
}

/// The amounts of a sequence of proofs, in order.
pub open spec fn proof_amounts(proofs: Seq<Proof>) -> Seq<Amount> {
    Seq::new(proofs.len(), |i: int| proofs[i].amount)
}

/// The amounts of a sequence of blinded messages, in order.
pub open spec fn output_amounts(outputs: Seq<BlindedMessage>) -> Seq<Amount> {
    Seq::new(outputs.len(), |i: int| outputs[i].amount)
}

/// The amounts of a sequence of blind signatures, in order.
pub open spec fn signature_amounts(signatures: Seq<BlindSignature>) -> Seq<Amount> {
    Seq::new(signatures.len(), |i: int| signatures[i].amount)
}

/// The sum of the amounts of `proofs`, or `AmountOverflow` where it does
/// not fit in 64 bits.
pub fn proofs_total(proofs: &Vec<Proof>) -> (r: Result<Amount, Error>)
    ensures
        r == if sum_amounts(proof_amounts(proofs@)) <= u64::MAX {
            Ok::<Amount, Error>(Amount(sum_amounts(proof_amounts(proofs@)) as u64))
        } else {
            Err(Error::AmountOverflow)
        },
        r matches Ok(total) ==> total.0 == sum_amounts(proof_amounts(proofs@)),
{
    let mut amounts: Vec<Amount> = Vec::new();
    let mut i: usize = 0;
    while i < proofs.len()
        invariant
            0 <= i <= proofs.len(),
            amounts@ == proof_amounts(proofs@).take(i as int),
        decreases proofs.len() - i,
    {
        amounts.push(proofs[i].amount);
        i = i + 1;
        assert(amounts@ =~= proof_amounts(proofs@).take(i as int));
    }
    assert(amounts@ =~= proof_amounts(proofs@));
    Amount::try_sum(&amounts)
}

/// The sum of the amounts of `outputs`, or `AmountOverflow` where it does
/// not fit in 64 bits.
pub fn outputs_total(outputs: &Vec<BlindedMessage>) -> (r: Result<Amount, Error>)
    ensures
        r == if sum_amounts(output_amounts(outputs@)) <= u64::MAX {
            Ok::<Amount, Error>(Amount(sum_amounts(output_amounts(outputs@)) as u64))
        } else {
            Err(Error::AmountOverflow)
        },
        r matches Ok(total) ==> total.0 == sum_amounts(output_amounts(outputs@)),
{
    let mut amounts: Vec<Amount> = Vec::new();
    let mut i: usize = 0;
    while i < outputs.len()
        invariant
            0 <= i <= outputs.len(),
            amounts@ == output_amounts(outputs@).take(i as int),
        decreases outputs.len() - i,
    {
        amounts.push(outputs[i].amount);
        i = i + 1;
        assert(amounts@ =~= output_amounts(outputs@).take(i as int));
    }
    assert(amounts@ =~= output_amounts(outputs@));
    Amount::try_sum(&amounts)
}

/// A promise to issue blind signatures once an incoming invoice is paid.
#[derive(Clone, Debug, PartialEq, Eq)]
pub struct MintQuote {
    pub id: u128,
    pub unit: CurrencyUnit,
    pub amount: Amount,
    /// The invoice the mint asks to have paid.
    pub request: String,
    /// The backend's handle for the invoice.
    pub request_lookup_id: String,
    /// Seconds since the epoch after which the quote lapses.
    pub expiry: u64,
    pub state: MintQuoteState,
    /// The sum of the signatures issued against the quote.
    pub issued_amount: Amount,
}

/// A promise to pay an outgoing invoice once proofs are presented.
#[derive(Clone, Debug, PartialEq, Eq)]
pub struct MeltQuote {
    pub id: u128,
    pub unit: CurrencyUnit,
    pub amount: Amount,
    /// The most the routing may cost; what is not used comes back as change.
    pub fee_reserve: Amount,
    /// The invoice to pay.
    pub request: String,
    /// The backend's handle for the payment.
    pub request_lookup_id: String,
    /// Seconds since the epoch after which the quote lapses.
    pub expiry: u64,
    pub state: MeltQuoteState,
    pub payment_preimage: Option<String>,
    /// Set for invoices without an amount and for multi-part payments.
    pub msat_to_pay: Option<Amount>,
}

impl MintQuote {
    /// A copy of the quote.
    pub fn duplicate(&self) -> (r: MintQuote)
        ensures
            r == *self,
    {
        MintQuote {
            id: self.id,
            unit: self.unit,
            amount: self.amount,
            request: self.request.clone(),
            request_lookup_id: self.request_lookup_id.clone(),
            expiry: self.expiry,
            state: self.state,
            issued_amount: self.issued_amount,
        }
    }
}

/// A copy of an optional string.
pub fn duplicate_optional_string(s: &Option<String>) -> (r: Option<String>)
    ensures
        r == *s,
{
    match s {
        Some(text) => Some(text.clone()),
        None => None,
    }
}

impl MeltQuote {
    /// A copy of the quote.
    pub fn duplicate(&self) -> (r: MeltQuote)
        ensures
            r == *self,
    {
        MeltQuote {
            id: self.id,
            unit: self.unit,
            amount: self.amount,
            fee_reserve: self.fee_reserve,
            request: self.request.clone(),
            request_lookup_id: self.request_lookup_id.clone(),
            expiry: self.expiry,
            state: self.state,
            payment_preimage: duplicate_optional_string(&self.payment_preimage),
            msat_to_pay: self.msat_to_pay,
        }
    }
}

/// A request for a melt quote.
#[derive(Clone, Debug, PartialEq, Eq)]
pub struct MeltQuoteBolt11Request {
    /// The invoice to pay.
    pub request: String,
    pub unit: CurrencyUnit,
    pub options: Option<MeltOptions>,
}

/// What the mint answers about a melt quote.
#[derive(Clone, Debug, PartialEq, Eq)]
pub struct MeltQuoteBolt11Response {
    pub quote: u128,
    pub amount: Amount,
    pub fee_reserve: Amount,
    pub paid: Option<bool>,
    pub state: MeltQuoteState,
    pub expiry: u64,
    pub payment_preimage: Option<String>,
    pub change: Option<Vec<BlindSignature>>,
    pub request: Option<String>,
    pub unit: Option<CurrencyUnit>,
}

/// A request to melt: proofs to burn for a quote, and blinded messages for
/// the change.
#[derive(Clone, Debug, PartialEq, Eq)]
pub struct MeltRequest {
    pub quote: u128,
    pub inputs: Vec<Proof>,
    pub outputs: Option<Vec<BlindedMessage>>,
}

/// A request for a mint quote.
#[derive(Clone, Debug, PartialEq, Eq)]
pub struct MintQuoteBolt11Request {
    pub amount: Amount,
    pub unit: CurrencyUnit,
    /// What the invoice is to say it is for.
    pub description: Option<String>,
}

/// A request to mint: blinded messages to sign against a paid quote.
#[derive(Clone, Debug, PartialEq, Eq)]
pub struct MintRequest {
    pub quote: u128,
    pub outputs: Vec<BlindedMessage>,
}

/// A request to swap proofs for blind signatures of the same value.
#[derive(Clone, Debug, PartialEq, Eq)]
pub struct SwapRequest {
    pub inputs: Vec<Proof>,
    pub outputs: Vec<BlindedMessage>,
}

/// The limits and options of melting with one method in one unit.
#[derive(Clone, Copy, Debug, PartialEq, Eq)]
pub struct MeltMethodSettings {
    pub method: PaymentMethod,
    pub unit: CurrencyUnit,
    pub min_amount: Option<Amount>,
    pub max_amount: Option<Amount>,
    /// Whether invoices without an amount are paid.
    pub amountless: bool,
}

/// The limits of minting with one method in one unit.
#[derive(Clone, Copy, Debug, PartialEq, Eq)]
pub struct MintMethodSettings {
    pub method: PaymentMethod,
    pub unit: CurrencyUnit,
    pub min_amount: Option<Amount>,
    pub max_amount: Option<Amount>,
}

/// A method and unit for which multi-part payments are made.
#[derive(Clone, Copy, Debug, PartialEq, Eq)]
pub struct MppMethodSettings {
    pub method: PaymentMethod,
    pub unit: CurrencyUnit,
}

/// What the mint offers.
#[derive(Clone, Debug, PartialEq, Eq)]
pub struct MintInfo {
    pub minting_disabled: bool,
    pub mint_methods: Vec<MintMethodSettings>,
    pub melting_disabled: bool,
    pub melt_methods: Vec<MeltMethodSettings>,
    pub mpp_methods: Vec<MppMethodSettings>,
}

/// The first settings of `methods` for the unit and method, where there are
/// any.
pub open spec fn melt_settings_for(
    methods: Seq<MeltMethodSettings>,
    unit: CurrencyUnit,
    method: PaymentMethod,
) -> Option<MeltMethodSettings>
    decreases methods.len(),
{
    if methods.len() == 0 {
        None
    } else if methods[0].unit == unit && methods[0].method == method {
        Some(methods[0])
    } else {
        melt_settings_for(methods.drop_first(), unit, method)
    }
}

/// The first settings of `methods` for the unit and method, where there are
/// any.
pub open spec fn mint_settings_for(
    methods: Seq<MintMethodSettings>,
    unit: CurrencyUnit,
    method: PaymentMethod,
) -> Option<MintMethodSettings>
    decreases methods.len(),
{
    if methods.len() == 0 {
        None
    } else if methods[0].unit == unit && methods[0].method == method {
        Some(methods[0])
    } else {
        mint_settings_for(methods.drop_first(), unit, method)
    }
}

/// Whether `methods` offer multi-part payments for the unit and method.
pub open spec fn mpp_supported(
    methods: Seq<MppMethodSettings>,
    unit: CurrencyUnit,
    method: PaymentMethod,
) -> bool {
    exists|i: int|
        0 <= i < methods.len() && (#[trigger] methods[i]).unit == unit && methods[i].method
            == method
}

impl MintInfo {
    /// The settings for melting with `method` in `unit`, where the mint
    /// offers it.
    pub fn get_melt_settings(&self, unit: &CurrencyUnit, method: &PaymentMethod) -> (r: Option<
        MeltMethodSettings,
    >)
        ensures
            r == melt_settings_for(self.melt_methods@, *unit, *method),
    {
        let mut i: usize = 0;
        assert(self.melt_methods@.skip(0) =~= self.melt_methods@);
        while i < self.melt_methods.len()
            invariant
                0 <= i <= self.melt_methods.len(),
                melt_settings_for(self.melt_methods@, *unit, *method) == melt_settings_for(
                    self.melt_methods@.skip(i as int),
                    *unit,
                    *method,
                ),
            decreases self.melt_methods.len() - i,
        {
            proof {
                assert(self.melt_methods@.skip(i as int).drop_first() =~= self.melt_methods@.skip(
                    i + 1,
                ));
            }
            if self.melt_methods[i].unit == *unit && self.melt_methods[i].method == *method {
                return Some(self.melt_methods[i]);
            }
            i = i + 1;
        }
        None
    }

    /// The settings for minting with `method` in `unit`, where the mint
    /// offers it.
    pub fn get_mint_settings(&self, unit: &CurrencyUnit, method: &PaymentMethod) -> (r: Option<
        MintMethodSettings,
    >)
        ensures
            r == mint_settings_for(self.mint_methods@, *unit, *method),
    {
        let mut i: usize = 0;
        assert(self.mint_methods@.skip(0) =~= self.mint_methods@);
        while i < self.mint_methods.len()
            invariant
                0 <= i <= self.mint_methods.len(),
                mint_settings_for(self.mint_methods@, *unit, *method) == mint_settings_for(
                    self.mint_methods@.skip(i as int),
                    *unit,
                    *method,
                ),
            decreases self.mint_methods.len() - i,
        {
            proof {
                assert(self.mint_methods@.skip(i as int).drop_first() =~= self.mint_methods@.skip(
                    i + 1,
                ));
            }
            if self.mint_methods[i].unit == *unit && self.mint_methods[i].method == *method {
                return Some(self.mint_methods[i]);
            }
            i = i + 1;
        }
        None
    }

    /// Whether the mint makes multi-part payments with `method` in `unit`.
    pub fn supports_mpp(&self, unit: &CurrencyUnit, method: &PaymentMethod) -> (r: bool)
        ensures
            r == mpp_supported(self.mpp_methods@, *unit, *method),
    {
        let mut i: usize = 0;
        while i < self.mpp_methods.len()
            invariant
                0 <= i <= self.mpp_methods.len(),
                forall|j: int|
                    0 <= j < i ==> !((#[trigger] self.mpp_methods@[j]).unit == *unit
                        && self.mpp_methods@[j].method == *method),
            decreases self.mpp_methods.len() - i,
        {
            if self.mpp_methods[i].unit == *unit && self.mpp_methods[i].method == *method {
                return true;
            }
            i = i + 1;
        }
        false
    }
}

/// How long quotes live, in seconds.
#[derive(Clone, Copy, Debug, PartialEq, Eq)]
pub struct QuoteTTL {
    pub mint_ttl: u64,
    pub melt_ttl: u64,
}

} // verus!
