use std::cell::RefCell;

use cdk_mint::amount::Amount;
use cdk_mint::dhke::{hash_to_curve, public_key_of, sign_message, PublicKey, SecretKey};
use cdk_mint::error::{DatabaseError, Error};
use cdk_mint::keyset::{MintKeyPair, MintKeySet};
use cdk_mint::mint::Mint;
use cdk_mint::nuts::{
    BlindSignature, BlindedMessage, MeltMethodSettings, MeltOptions, MeltQuote,
    MeltQuoteBolt11Request, MeltQuoteState, MeltRequest, MintInfo, MintMethodSettings,
    MintQuoteBolt11Request, MintQuoteState, MintRequest, Proof, QuoteTTL, State,
    SwapRequest,
};
use cdk_mint::payment::{
    CreateIncomingPaymentResponse, MakePaymentResponse, MintPayment,
    PaymentError, PaymentQuoteResponse,
};
use cdk_mint::pubsub::NotificationPayload;
use cdk_mint::units::{CurrencyUnit, PaymentMethod};

fn unix_now() -> u64 {
    std::time::SystemTime::now().duration_since(std::time::UNIX_EPOCH).unwrap().as_secs()
}
use cdk_mint::verification::{get_proofs_fee, verify_proof};

fn secret_key(n: u8) -> SecretKey {
    let mut bytes = [0u8; 32];
    bytes[31] = n;
    SecretKey { bytes }
}

fn keyset(id: u64, unit: CurrencyUnit, input_fee_ppk: u64) -> MintKeySet {
    let mut keys = Vec::new();
    for i in 0..64u32 {
        let secret = secret_key((i + 1) as u8);
        let public_key = public_key_of(&secret).unwrap();
        keys.push(MintKeyPair { amount: Amount(1u64 << i), secret_key: secret, public_key });
    }
    MintKeySet { id, unit, active: true, input_fee_ppk, keys }
}

fn mint_info() -> MintInfo {
    MintInfo {
        minting_disabled: false,
        mint_methods: vec![MintMethodSettings {
            method: PaymentMethod::Bolt11,
            unit: CurrencyUnit::Sat,
            min_amount: Some(Amount(1)),
            max_amount: Some(Amount(1_000_000)),
        }],
        melting_disabled: false,
        melt_methods: vec![MeltMethodSettings {
            method: PaymentMethod::Bolt11,
            unit: CurrencyUnit::Sat,
            min_amount: Some(Amount(1)),
            max_amount: Some(Amount(1_000_000)),
            amountless: false,
        }],
        mpp_methods: vec![],
    }
}

fn new_mint(input_fee_ppk: u64) -> Mint {
    Mint::new(
        vec![keyset(1, CurrencyUnit::Sat, input_fee_ppk), keyset(2, CurrencyUnit::Msat, 0)],
        mint_info(),
        QuoteTTL { mint_ttl: 600, melt_ttl: 120 },
    )
}

fn signed_proof(keyset_id: u64, amount: u64, secret: &str) -> Proof {
    let keys = keyset(keyset_id, CurrencyUnit::Sat, 0);
    let key = keys.find_key(Amount(amount)).unwrap();
    let y = hash_to_curve(&secret.as_bytes().to_vec()).unwrap();
    let c = sign_message(&key.secret_key, &y).unwrap();
    Proof {
        amount: Amount(amount),
        keyset_id,
        secret: secret.as_bytes().to_vec(),
        c,
        conditions: None,
        witness: None,
    }
}

fn y_of(secret: &str) -> PublicKey {
    hash_to_curve(&secret.as_bytes().to_vec()).unwrap()
}

fn output(keyset_id: u64, amount: u64, tag: &str) -> BlindedMessage {
    BlindedMessage { amount: Amount(amount), keyset_id, blinded_secret: y_of(tag) }
}

fn total(signatures: &[BlindSignature]) -> u64 {
    signatures.iter().map(|s| s.amount.0).sum()
}

fn invoice(amount_msat: Option<u64>, tag: u8) -> String {
    let key = bitcoin::secp256k1::SecretKey::from_slice(&[0x42; 32]).unwrap();
    let hash = <bitcoin::hashes::sha256::Hash as bitcoin::hashes::Hash>::from_slice(&[tag; 32])
        .unwrap();
    let builder = lightning_invoice::InvoiceBuilder::new(lightning_invoice::Currency::Bitcoin)
        .description("melt".to_string())
        .payment_hash(hash)
        .payment_secret(lightning_invoice::PaymentSecret([tag; 32]))
        .duration_since_epoch(std::time::Duration::from_secs(1_700_000_000))
        .min_final_cltv_expiry_delta(144);
    let builder = match amount_msat {
        Some(amount) => builder.amount_milli_satoshis(amount),
        None => builder,
    };
    builder
        .build_signed(|hash| {
            bitcoin::secp256k1::Secp256k1::new().sign_ecdsa_recoverable(hash, &key)
        })
        .unwrap()
        .to_string()
}

struct Backend {
    units: Vec<CurrencyUnit>,
    quote: RefCell<Option<Result<PaymentQuoteResponse, PaymentError>>>,
    incoming: RefCell<Option<Result<CreateIncomingPaymentResponse, PaymentError>>>,
    pay: RefCell<Option<Result<MakePaymentResponse, PaymentError>>>,
    check: RefCell<Option<Result<MakePaymentResponse, PaymentError>>>,
    incoming_status: RefCell<Option<Result<MintQuoteState, PaymentError>>>,
    calls: RefCell<Vec<String>>,
}

impl Backend {
    fn new() -> Backend {
        Backend {
            units: vec![CurrencyUnit::Sat],
            quote: RefCell::new(None),
            incoming: RefCell::new(None),
            pay: RefCell::new(None),
            check: RefCell::new(None),
            incoming_status: RefCell::new(None),
            calls: RefCell::new(Vec::new()),
        }
    }

    fn called(&self, name: &str) -> usize {
        self.calls.borrow().iter().filter(|c| c.as_str() == name).count()
    }
}

fn response(status: MeltQuoteState, total_spent: u64, proof: Option<&str>) -> MakePaymentResponse {
    MakePaymentResponse {
        payment_lookup_id: "lookup".to_string(),
        payment_proof: proof.map(|p| p.to_string()),
        status,
        total_spent: Amount(total_spent),
        unit: CurrencyUnit::Sat,
    }
}

impl MintPayment for Backend {
    fn has_backend(&self, unit: &CurrencyUnit, method: &PaymentMethod) -> bool {
        self.calls.borrow_mut().push("has_backend".to_string());
        *method == PaymentMethod::Bolt11 && self.units.contains(unit)
    }

    fn get_payment_quote(
        &self,
        _request: &String,
        _unit: &CurrencyUnit,
        _options: Option<MeltOptions>,
    ) -> Result<PaymentQuoteResponse, PaymentError> {
        self.calls.borrow_mut().push("get_payment_quote".to_string());
        self.quote.borrow().clone().unwrap_or(Err(PaymentError::Backend))
    }

    fn create_incoming_payment_request(
        &self,
        _amount: Amount,
        _unit: &CurrencyUnit,
        _description: &String,
        _unix_expiry: Option<u64>,
    ) -> Result<CreateIncomingPaymentResponse, PaymentError> {
        self.calls.borrow_mut().push("create_incoming_payment_request".to_string());
        self.incoming.borrow().clone().unwrap_or(Err(PaymentError::Backend))
    }

    fn make_payment(
        &self,
        _melt_quote: &MeltQuote,
        _partial_amount: Option<Amount>,
        _max_fee_amount: Option<Amount>,
    ) -> Result<MakePaymentResponse, PaymentError> {
        self.calls.borrow_mut().push("make_payment".to_string());
        self.pay.borrow().clone().unwrap_or(Err(PaymentError::Backend))
    }

    fn check_outgoing_payment(
        &self,
        _unit: &CurrencyUnit,
        _request_lookup_id: &String,
    ) -> Result<MakePaymentResponse, PaymentError> {
        self.calls.borrow_mut().push("check_outgoing_payment".to_string());
        self.check.borrow().clone().unwrap_or(Err(PaymentError::Backend))
    }

    fn check_incoming_payment_status(
        &self,
        _unit: &CurrencyUnit,
        _request_lookup_id: &String,
    ) -> Result<MintQuoteState, PaymentError> {
        self.calls.borrow_mut().push("check_incoming_payment_status".to_string());
        self.incoming_status.borrow().clone().unwrap_or(Err(PaymentError::Backend))
    }
}

fn melt_quote(mint: &mut Mint, id: u128, request: &str, amount: u64, fee_reserve: u64) {
    let melt_request = MeltQuoteBolt11Request {
        request: request.to_string(),
        unit: CurrencyUnit::Sat,
        options: None,
    };
    let payment_quote = PaymentQuoteResponse {
        request_lookup_id: "lookup".to_string(),
        amount: Amount(amount),
        fee: Amount(fee_reserve),
        state: MeltQuoteState::Unpaid,
    };
    mint.create_melt_quote(&melt_request, payment_quote, 1_700_000_000, id).unwrap();
}

fn state_of(mint: &Mint, secret: &str) -> Option<State> {
    mint.localstore.proofs.get_state(&y_of(secret))
}


fn paid_mint_quote(mint: &mut Mint, id: u128, amount: u64) {
    let request =
        MintQuoteBolt11Request { amount: Amount(amount), unit: CurrencyUnit::Sat, description: None };
    let lookup = format!("incoming-{}", id);
    let made = CreateIncomingPaymentResponse {
        request_lookup_id: lookup.clone(),
        request: format!("invoice-{}", id),
        expiry: None,
    };
    mint.create_mint_quote(&request, made, 0, id).unwrap();
    mint.pay_mint_quote_for_request_id(&lookup).unwrap();
}

#[test]
fn happy_mint() {
    let mut mint = new_mint(0);
    let backend = Backend::new();
    *backend.incoming.borrow_mut() = Some(Ok(CreateIncomingPaymentResponse {
        request_lookup_id: "incoming-1".to_string(),
        request: "lnbc-invoice".to_string(),
        expiry: None,
    }));
    let request = MintQuoteBolt11Request {
        amount: Amount(100),
        unit: CurrencyUnit::Sat,
        description: Some("coffee".to_string()),
    };
    let before = unix_now();

    let quote = mint.get_mint_bolt11_quote(&backend, &request).unwrap();

    assert_eq!(quote.state, MintQuoteState::Unpaid);
    assert_eq!(quote.amount, Amount(100));
    assert_eq!(quote.unit, CurrencyUnit::Sat);
    assert_eq!(quote.request, "lnbc-invoice".to_string());
    assert_eq!(quote.request_lookup_id, "incoming-1".to_string());
    assert_eq!(quote.issued_amount, Amount(0));
    assert!(quote.expiry >= before + 600 && quote.expiry <= unix_now() + 600);
    assert_eq!(mint.check_mint_quote(quote.id), Ok(quote.clone()));
    let outputs = vec![output(1, 64, "o1"), output(1, 32, "o2"), output(1, 4, "o3")];
    let redeem = MintRequest { quote: quote.id, outputs: outputs.clone() };
    assert_eq!(mint.process_mint_request(&redeem), Err(Error::UnpaidQuote));

    // the subscriber to the backend sees the payment
    mint.pay_mint_quote_for_request_id(&"incoming-1".to_string()).unwrap();
    assert_eq!(mint.check_mint_quote(quote.id).unwrap().state, MintQuoteState::Paid);

    let signatures = mint.process_mint_request(&redeem).unwrap();

    assert_eq!(signatures.len(), 3);
    assert_eq!(signatures.iter().map(|s| s.amount.0).collect::<Vec<u64>>(), vec![64, 32, 4]);
    for (signature, output) in signatures.iter().zip(outputs.iter()) {
        let key = keyset(1, CurrencyUnit::Sat, 0).find_key(output.amount).unwrap();
        assert_eq!(signature.c, sign_message(&key.secret_key, &output.blinded_secret).unwrap());
        assert_eq!(signature.keyset_id, 1);
    }
    let issued = mint.check_mint_quote(quote.id).unwrap();
    assert_eq!(issued.state, MintQuoteState::Issued);
    assert_eq!(issued.issued_amount, Amount(100));
    assert_eq!(
        mint.pubsub_manager.take_notifications(),
        vec![
            NotificationPayload::MintQuote(quote.id, MintQuoteState::Unpaid),
            NotificationPayload::MintQuote(quote.id, MintQuoteState::Paid),
            NotificationPayload::MintQuote(quote.id, MintQuoteState::Issued),
        ]
    );
    assert_eq!(mint.mint_quotes().unwrap(), vec![issued]);
}

#[test]
fn mint_request_sent_again_issues_nothing_new() {
    let mut mint = new_mint(0);
    paid_mint_quote(&mut mint, 5, 100);
    let redeem = MintRequest {
        quote: 5,
        outputs: vec![output(1, 64, "o1"), output(1, 32, "o2"), output(1, 4, "o3")],
    };
    let first = mint.process_mint_request(&redeem).unwrap();

    let again = mint.process_mint_request(&redeem).unwrap();

    assert_eq!(again, first);
    assert_eq!(mint.localstore.blind_signatures.get_blind_signatures_for_quote(5), first);
    let other = MintRequest {
        quote: 5,
        outputs: vec![output(1, 64, "x1"), output(1, 32, "x2"), output(1, 4, "x3")],
    };
    assert_eq!(mint.process_mint_request(&other), Err(Error::IssuedQuote));
    let fewer = MintRequest { quote: 5, outputs: vec![output(1, 64, "o1"), output(1, 32, "o2")] };
    assert_eq!(mint.process_mint_request(&fewer), Err(Error::IssuedQuote));
    assert_eq!(mint.localstore.blind_signatures.get_blind_signatures_for_quote(5).len(), 3);
}

#[test]
fn mint_request_that_is_refused() {
    let mut mint = new_mint(0);
    paid_mint_quote(&mut mint, 5, 100);
    let redeem = |outputs: Vec<BlindedMessage>| MintRequest { quote: 5, outputs };

    assert_eq!(
        mint.process_mint_request(&MintRequest { quote: 6, outputs: vec![] }),
        Err(Error::UnknownQuote)
    );
    assert_eq!(mint.check_mint_quote(6), Err(Error::UnknownQuote));
    // the total must equal the amount of the quote, not stay below it
    assert_eq!(
        mint.process_mint_request(&redeem(vec![output(1, 64, "o1"), output(1, 32, "o2")])),
        Err(Error::TransactionUnbalanced(100, 96, 0))
    );
    assert_eq!(
        mint.process_mint_request(&redeem(vec![output(1, 64, "o1"), output(1, 64, "o2")])),
        Err(Error::TransactionUnbalanced(100, 128, 0))
    );
    assert_eq!(
        mint.process_mint_request(&redeem(vec![output(2, 64, "o1"), output(2, 32, "o2"), output(2, 4, "o3")])),
        Err(Error::UnitMismatch)
    );
    assert_eq!(
        mint.process_mint_request(&redeem(vec![output(1, 64, "o1"), output(2, 32, "o2"), output(1, 4, "o3")])),
        Err(Error::MultipleUnits)
    );
    assert_eq!(
        mint.process_mint_request(&redeem(vec![output(1, 50, "o1"), output(1, 50, "o1")])),
        Err(Error::DuplicateOutputs)
    );
    assert_eq!(
        mint.process_mint_request(&redeem(vec![output(9, 100, "o1")])),
        Err(Error::UnknownKeySet)
    );
    // a hundred is no power of two
    assert_eq!(
        mint.process_mint_request(&redeem(vec![output(1, 100, "o1")])),
        Err(Error::AmountKey)
    );
    let mut off_curve = output(1, 64, "o1");
    off_curve.blinded_secret = PublicKey { bytes: [0x02; 33] };
    let invalid = PublicKey { bytes: [0xff; 33] };
    assert_eq!(sign_message(&secret_key(1), &invalid), Err(Error::InvalidPoint));
    off_curve.blinded_secret = invalid;
    assert_eq!(
        mint.process_mint_request(&redeem(vec![off_curve, output(1, 32, "o2"), output(1, 4, "o3")])),
        Err(Error::InvalidPoint)
    );
    assert_eq!(mint.check_mint_quote(5).unwrap().state, MintQuoteState::Paid);
    assert_eq!(mint.localstore.blind_signatures.get_blind_signatures_for_quote(5), vec![]);

    let swap = SwapRequest { inputs: vec![signed_proof(1, 4, "s")], outputs: vec![output(1, 4, "o3")] };
    mint.process_swap_request(&swap).unwrap();
    assert_eq!(
        mint.process_mint_request(&redeem(vec![output(1, 64, "o1"), output(1, 32, "o2"), output(1, 4, "o3")])),
        Err(Error::BlindedMessageAlreadySigned)
    );
}

#[test]
fn mint_quote_that_is_refused() {
    let backend = Backend::new();
    let ask = |mint: &mut Mint, amount: u64, unit: CurrencyUnit| {
        mint.get_mint_bolt11_quote(
            &backend,
            &MintQuoteBolt11Request { amount: Amount(amount), unit, description: None },
        )
    };
    let mut mint = new_mint(0);
    assert_eq!(ask(&mut mint, 0, CurrencyUnit::Sat), Err(Error::AmountOutofLimitRange(1, 1_000_000, 0)));
    assert_eq!(
        ask(&mut mint, 1_000_001, CurrencyUnit::Sat),
        Err(Error::AmountOutofLimitRange(1, 1_000_000, 1_000_001))
    );
    assert_eq!(ask(&mut mint, 10, CurrencyUnit::Eur), Err(Error::UnsupportedUnit));
    // the backend makes no invoice
    assert_eq!(ask(&mut mint, 10, CurrencyUnit::Sat), Err(Error::InvalidPaymentRequest));
    assert_eq!(mint.mint_quotes().unwrap().len(), 0);
    let mut info = mint_info();
    info.minting_disabled = true;
    let mut closed = Mint::new(vec![], info, QuoteTTL { mint_ttl: 1, melt_ttl: 1 });
    assert_eq!(ask(&mut closed, 10, CurrencyUnit::Sat), Err(Error::MintingDisabled));
}

#[test]
fn unpaid_mint_quotes_are_checked_at_startup() {
    let mut mint = new_mint(0);
    let request = MintQuoteBolt11Request { amount: Amount(64), unit: CurrencyUnit::Sat, description: None };
    for (id, lookup) in [(1u128, "one"), (2u128, "two")] {
        let made = CreateIncomingPaymentResponse {
            request_lookup_id: lookup.to_string(),
            request: format!("invoice-{}", lookup),
            expiry: None,
        };
        mint.create_mint_quote(&request, made, 0, id).unwrap();
    }
    let backend = Backend::new();
    *backend.incoming_status.borrow_mut() = Some(Ok(MintQuoteState::Unpaid));
    mint.check_pending_mint_quotes(&backend).unwrap();
    assert_eq!(mint.check_mint_quote(1).unwrap().state, MintQuoteState::Unpaid);

    *backend.incoming_status.borrow_mut() = Some(Ok(MintQuoteState::Paid));
    mint.check_pending_mint_quotes(&backend).unwrap();
    assert_eq!(mint.check_mint_quote(1).unwrap().state, MintQuoteState::Paid);
    assert_eq!(mint.check_mint_quote(2).unwrap().state, MintQuoteState::Paid);
    // paying again changes nothing
    mint.pay_mint_quote_for_request_id(&"one".to_string()).unwrap();
    mint.pay_mint_quote_for_request_id(&"nobody".to_string()).unwrap();
    assert_eq!(mint.check_mint_quote(1).unwrap().state, MintQuoteState::Paid);
}

#[test]
fn swap_burns_inputs_and_signs_outputs() {
    let mut mint = new_mint(0);
    let request = SwapRequest {
        inputs: vec![signed_proof(1, 64, "a"), signed_proof(1, 32, "b"), signed_proof(1, 4, "c")],
        outputs: vec![output(1, 32, "o1"), output(1, 64, "o2"), output(1, 2, "o3"), output(1, 2, "o4")],
    };

    let signatures = mint.process_swap_request(&request).unwrap();

    // in the order of the request
    assert_eq!(signatures.iter().map(|s| s.amount.0).collect::<Vec<u64>>(), vec![32, 64, 2, 2]);
    for (signature, output) in signatures.iter().zip(request.outputs.iter()) {
        let key = keyset(1, CurrencyUnit::Sat, 0).find_key(output.amount).unwrap();
        assert_eq!(signature.c, sign_message(&key.secret_key, &output.blinded_secret).unwrap());
    }
    for secret in ["a", "b", "c"] {
        assert_eq!(state_of(&mint, secret), Some(State::Spent));
    }
    assert_eq!(
        mint.localstore.blind_signatures.get_blind_signatures(&request.outputs.iter().map(|o| o.blinded_secret).collect()),
        signatures.iter().map(|s| Some(*s)).collect::<Vec<Option<BlindSignature>>>()
    );
    let told = mint.pubsub_manager.take_notifications();
    assert_eq!(told.len(), 6);
    assert_eq!(told[0], NotificationPayload::ProofState(y_of("a"), State::Pending));
    assert_eq!(told[5], NotificationPayload::ProofState(y_of("c"), State::Spent));
    // a signature of the mint is a proof once unblinded: here the blinding factor is none
    let reused = Proof {
        amount: Amount(32),
        keyset_id: 1,
        secret: b"fresh".to_vec(),
        c: sign_message(&keyset(1, CurrencyUnit::Sat, 0).find_key(Amount(32)).unwrap().secret_key, &y_of("fresh")).unwrap(),
        conditions: None,
        witness: None,
    };
    assert!(verify_proof(&vec![keyset(1, CurrencyUnit::Sat, 0)], &reused).is_ok());
}

#[test]
fn double_spend_is_refused() {
    let mut mint = new_mint(0);
    let first = SwapRequest {
        inputs: vec![signed_proof(1, 64, "A"), signed_proof(1, 32, "B")],
        outputs: vec![output(1, 64, "o1"), output(1, 32, "o2")],
    };
    mint.process_swap_request(&first).unwrap();
    let second = SwapRequest {
        inputs: vec![signed_proof(1, 64, "A"), signed_proof(1, 32, "C")],
        outputs: vec![output(1, 64, "o3"), output(1, 32, "o4")],
    };

    assert_eq!(mint.process_swap_request(&second), Err(Error::TokenAlreadySpent));

    assert_eq!(state_of(&mint, "A"), Some(State::Spent));
    assert_eq!(state_of(&mint, "C"), None);
    assert_eq!(mint.localstore.blind_signatures.any_signed(&vec![y_of("o3"), y_of("o4")]), false);
}

#[test]
fn swap_sent_again_makes_nothing_new() {
    let mut mint = new_mint(0);
    let request = SwapRequest {
        inputs: vec![signed_proof(1, 64, "a")],
        outputs: vec![output(1, 32, "o1"), output(1, 32, "o2")],
    };
    mint.process_swap_request(&request).unwrap();
    let signed_before = mint.localstore.blind_signatures.get_blind_signatures(&vec![y_of("o1"), y_of("o2")]);

    assert_eq!(mint.process_swap_request(&request), Err(Error::BlindedMessageAlreadySigned));

    assert_eq!(
        mint.localstore.blind_signatures.get_blind_signatures(&vec![y_of("o1"), y_of("o2")]),
        signed_before
    );
    assert_eq!(mint.localstore.proofs.len(), 1);
    // the same inputs for other outputs
    let other = SwapRequest { inputs: vec![signed_proof(1, 64, "a")], outputs: vec![output(1, 64, "o3")] };
    assert_eq!(mint.process_swap_request(&other), Err(Error::TokenAlreadySpent));
}

#[test]
fn swap_must_balance_with_the_fee() {
    // 3 inputs at 100 per thousand: 300 / 1000 rounded up is 1
    let mut mint = new_mint(100);
    let inputs = vec![signed_proof(1, 64, "a"), signed_proof(1, 32, "b"), signed_proof(1, 4, "c")];
    assert_eq!(get_proofs_fee(&mint.keysets, &inputs), Ok(Amount(1)));
    let even = SwapRequest {
        inputs: inputs.clone(),
        outputs: vec![output(1, 64, "o1"), output(1, 32, "o2"), output(1, 4, "o3")],
    };
    assert_eq!(mint.process_swap_request(&even), Err(Error::TransactionUnbalanced(100, 100, 1)));
    let short = SwapRequest { inputs: inputs.clone(), outputs: vec![output(1, 64, "o1"), output(1, 32, "o2")] };
    assert_eq!(mint.process_swap_request(&short), Err(Error::TransactionUnbalanced(100, 96, 1)));
    assert_eq!(mint.localstore.proofs.len(), 0);
    let exact = SwapRequest {
        inputs,
        outputs: vec![output(1, 64, "o1"), output(1, 32, "o2"), output(1, 2, "o3"), output(1, 1, "o4")],
    };
    let signatures = mint.process_swap_request(&exact).unwrap();
    assert_eq!(total(&signatures) + 1, 100);
}

#[test]
fn fee_is_a_thousandth_rounded_up() {
    let keysets = vec![keyset(1, CurrencyUnit::Sat, 1), keyset(3, CurrencyUnit::Sat, 2500)];
    let none: Vec<Proof> = vec![];
    assert_eq!(get_proofs_fee(&keysets, &none), Ok(Amount(0)));
    assert_eq!(get_proofs_fee(&keysets, &vec![signed_proof(1, 1, "a")]), Ok(Amount(1)));
    let one = signed_proof(1, 1, "a");
    let thousand: Vec<Proof> = (0..1000).map(|_| one.clone()).collect();
    assert_eq!(get_proofs_fee(&keysets, &thousand), Ok(Amount(1)));
    let one_more: Vec<Proof> = (0..1001).map(|_| one.clone()).collect();
    assert_eq!(get_proofs_fee(&keysets, &one_more), Ok(Amount(2)));
    assert_eq!(
        get_proofs_fee(&keysets, &vec![signed_proof(3, 1, "a"), signed_proof(1, 1, "b")]),
        Ok(Amount(3))
    );
    assert_eq!(get_proofs_fee(&keysets, &vec![signed_proof(2, 1, "a")]), Err(Error::UnknownKeySet));
    let dear = vec![keyset(1, CurrencyUnit::Sat, u64::MAX)];
    assert_eq!(get_proofs_fee(&dear, &thousand), Ok(Amount(u64::MAX)));
    assert_eq!(get_proofs_fee(&dear, &one_more), Err(Error::AmountOverflow));
}

#[test]
fn swap_that_is_refused() {
    let mut mint = new_mint(0);
    let swap = |inputs: Vec<Proof>, outputs: Vec<BlindedMessage>| SwapRequest { inputs, outputs };
    assert_eq!(mint.process_swap_request(&swap(vec![], vec![])), Err(Error::UnsupportedUnit));
    assert_eq!(
        mint.process_swap_request(&swap(vec![signed_proof(1, 4, "a")], vec![])),
        Err(Error::UnitMismatch)
    );
    assert_eq!(
        mint.process_swap_request(&swap(vec![signed_proof(1, 4, "a")], vec![output(2, 4, "o1")])),
        Err(Error::UnitMismatch)
    );
    assert_eq!(
        mint.process_swap_request(&swap(
            vec![signed_proof(1, 4, "a"), signed_proof(1, 4, "a")],
            vec![output(1, 8, "o1")]
        )),
        Err(Error::DuplicateInputs)
    );
    let mut forged = signed_proof(1, 4, "a");
    forged.amount = Amount(8);
    assert_eq!(
        mint.process_swap_request(&swap(vec![forged], vec![output(1, 8, "o1")])),
        Err(Error::TokenNotVerified)
    );
    let mut inactive = keyset(4, CurrencyUnit::Sat, 0);
    inactive.active = false;
    mint.keysets.push(inactive);
    // an old keyset still verifies but no longer signs
    assert_eq!(
        mint.process_swap_request(&swap(vec![signed_proof(4, 4, "a")], vec![output(4, 4, "o1")])),
        Err(Error::InactiveKeyset)
    );
    assert_eq!(state_of(&mint, "a"), None);
    assert!(mint.process_swap_request(&swap(vec![signed_proof(4, 4, "a")], vec![output(1, 4, "o1")])).is_ok());
}

#[test]
fn round_trip_pays_out_what_came_in_less_the_fees() {
    // two per thousand for each input
    let mut mint = new_mint(2);
    paid_mint_quote(&mut mint, 5, 128);
    let minted = mint
        .process_mint_request(&MintRequest { quote: 5, outputs: vec![output(1, 128, "m1")] })
        .unwrap();
    assert_eq!(total(&minted), 128);
    // swap the 128 into 64 + 32 + 16 + 8 + 4 + 2 + 1 at a fee of 1
    let parts = [64u64, 32, 16, 8, 4, 2, 1];
    let swapped = mint
        .process_swap_request(&SwapRequest {
            inputs: vec![signed_proof(1, 128, "p")],
            outputs: parts.iter().map(|a| output(1, *a, &format!("s{}", a))).collect(),
        })
        .unwrap();
    assert_eq!(total(&swapped), 127);
    // melt all of it: seven inputs cost a fee of 1
    let inputs: Vec<Proof> = parts.iter().map(|a| signed_proof(1, *a, &format!("q{}", a))).collect();
    assert_eq!(get_proofs_fee(&mint.keysets, &inputs), Ok(Amount(1)));
    melt_quote(&mut mint, 1, &invoice(Some(120_000), 1), 120, 6);
    let backend = Backend::new();
    *backend.pay.borrow_mut() = Some(Ok(response(MeltQuoteState::Paid, 126, Some("p"))));
    let melted = mint
        .melt_bolt11(&backend, &MeltRequest { quote: 1, inputs, outputs: Some(vec![output(1, 1, "c")]) })
        .unwrap();
    // 128 came in; 126 went out; the fees were 1 and 1; nothing is left for change
    assert_eq!(melted.change, None);
    assert_eq!(126, 128 - 1 - 1);
}

#[test]
fn proofs_are_held_only_when_all_can_be_spent() {
    let mut mint = new_mint(0);
    let first = SwapRequest { inputs: vec![signed_proof(1, 4, "a")], outputs: vec![output(1, 4, "o1")] };
    mint.process_swap_request(&first).unwrap();
    melt_quote(&mut mint, 1, &invoice(Some(8_000), 1), 8, 0);
    mint.verify_melt_request(&MeltRequest { quote: 1, inputs: vec![signed_proof(1, 8, "b")], outputs: None })
        .unwrap();
    assert_eq!(state_of(&mint, "a"), Some(State::Spent));
    assert_eq!(state_of(&mint, "b"), Some(State::Pending));

    assert_eq!(mint.check_ys_spendable(&vec![y_of("b"), y_of("a")], State::Pending), Err(Error::TokenAlreadySpent));
    assert_eq!(mint.check_ys_spendable(&vec![y_of("c"), y_of("b")], State::Pending), Err(Error::TokenPending));
    assert_eq!(state_of(&mint, "b"), Some(State::Pending));
    // points that are not stored are no obstacle, and are not stored by this
    assert_eq!(mint.check_ys_spendable(&vec![y_of("c")], State::Pending), Ok(()));
    assert_eq!(state_of(&mint, "c"), None);
}

#[test]
fn value_is_neither_made_nor_lost() {
    let mut mint = new_mint(2);
    let owed = |mint: &Mint| mint.total_issued().unwrap().0 as i64 - mint.total_redeemed().unwrap().0 as i64;
    assert_eq!(owed(&mint), 0);
    // 128 come in
    paid_mint_quote(&mut mint, 5, 128);
    assert_eq!(owed(&mint), 0);
    mint.process_mint_request(&MintRequest { quote: 5, outputs: vec![output(1, 128, "m1")] }).unwrap();
    assert_eq!(mint.total_issued(), Ok(Amount(128)));
    assert_eq!(owed(&mint), 128);
    // a swap costs its fee
    mint.process_swap_request(&SwapRequest {
        inputs: vec![signed_proof(1, 128, "p")],
        outputs: [64u64, 32, 16, 8, 4, 2, 1].iter().map(|a| output(1, *a, &format!("s{}", a))).collect(),
    })
    .unwrap();
    assert_eq!(mint.total_redeemed(), Ok(Amount(128)));
    assert_eq!(owed(&mint), 127);
    // a refused request changes nothing
    assert!(mint
        .process_swap_request(&SwapRequest { inputs: vec![signed_proof(1, 128, "p")], outputs: vec![] })
        .is_err());
    assert_eq!(owed(&mint), 127);
    // a melt pays out 100 at a fee of 1 and returns what is left of 112: 11
    melt_quote(&mut mint, 1, &invoice(Some(100_000), 1), 100, 5);
    let backend = Backend::new();
    *backend.pay.borrow_mut() = Some(Ok(response(MeltQuoteState::Paid, 100, Some("p"))));
    let melted = mint
        .melt_bolt11(
            &backend,
            &MeltRequest {
                quote: 1,
                inputs: vec![signed_proof(1, 64, "q1"), signed_proof(1, 32, "q2"), signed_proof(1, 16, "q3")],
                outputs: Some(vec![output(1, 1, "c1"), output(1, 1, "c2"), output(1, 1, "c3")]),
            },
        )
        .unwrap();
    assert_eq!(total(&melted.change.unwrap()), 11);
    assert_eq!(owed(&mint), 127 - 112 + 11);
    assert_eq!(127 - owed(&mint), 100 + 1);
    // a melt that is rolled back changes nothing
    melt_quote(&mut mint, 2, &invoice(Some(8_000), 2), 8, 0);
    *backend.pay.borrow_mut() = Some(Ok(response(MeltQuoteState::Failed, 0, None)));
    *backend.check.borrow_mut() = Some(Ok(response(MeltQuoteState::Failed, 0, None)));
    let failed = MeltRequest { quote: 2, inputs: vec![signed_proof(1, 16, "q4")], outputs: None };
    assert_eq!(mint.melt_bolt11(&backend, &failed), Err(Error::PaymentFailed));
    assert_eq!(owed(&mint), 26);
}

#[test]
fn new_keyset_takes_over_its_unit() {
    let mut mint = new_mint(0);
    let fresh = MintKeySet::from_secret_keys(
        CurrencyUnit::Sat,
        0,
        &(100..110).map(secret_key).collect::<Vec<SecretKey>>(),
    )
    .unwrap();
    let fresh_id = fresh.id;
    let key_for_four = fresh.find_key(Amount(4)).unwrap();
    mint.rotate_keyset(fresh.clone()).unwrap();
    assert_eq!(mint.rotate_keyset(fresh), Err(Error::Database(DatabaseError::Duplicate)));
    assert_eq!(
        mint.keysets.iter().map(|k| (k.id, k.active)).collect::<Vec<(u64, bool)>>(),
        vec![(1, false), (2, true), (fresh_id, true)]
    );
    // proofs of the old keyset are still good, but only the new one signs
    let old_for_old = SwapRequest { inputs: vec![signed_proof(1, 4, "a")], outputs: vec![output(1, 4, "o1")] };
    assert_eq!(mint.process_swap_request(&old_for_old), Err(Error::InactiveKeyset));
    let old_for_new =
        SwapRequest { inputs: vec![signed_proof(1, 4, "a")], outputs: vec![output(fresh_id, 4, "o1")] };
    let signatures = mint.process_swap_request(&old_for_new).unwrap();
    assert_eq!(signatures[0].keyset_id, fresh_id);
    assert_eq!(signatures[0].c, sign_message(&key_for_four.secret_key, &y_of("o1")).unwrap());
}

#[test]
fn incoming_payment_is_noted_by_the_answer() {
    let mut mint = new_mint(0);
    let request = MintQuoteBolt11Request { amount: Amount(64), unit: CurrencyUnit::Sat, description: None };
    let made = CreateIncomingPaymentResponse {
        request_lookup_id: "one".to_string(),
        request: "invoice-one".to_string(),
        expiry: None,
    };
    mint.create_mint_quote(&request, made, 0, 1).unwrap();
    mint.pubsub_manager.take_notifications();
    let lookup = "one".to_string();
    for answer in [
        Ok(MintQuoteState::Unpaid),
        Ok(MintQuoteState::Issued),
        Err(PaymentError::Backend),
        Err(PaymentError::UnknownPaymentState),
    ] {
        mint.note_incoming_status(&lookup, answer);
        assert_eq!(mint.check_mint_quote(1).unwrap().state, MintQuoteState::Unpaid);
    }
    mint.note_incoming_status(&"two".to_string(), Ok(MintQuoteState::Paid));
    assert_eq!(mint.check_mint_quote(1).unwrap().state, MintQuoteState::Unpaid);
    assert_eq!(mint.pubsub_manager.take_notifications(), vec![]);

    mint.note_incoming_status(&lookup, Ok(MintQuoteState::Paid));
    assert_eq!(mint.check_mint_quote(1).unwrap().state, MintQuoteState::Paid);
    assert_eq!(
        mint.pubsub_manager.take_notifications(),
        vec![NotificationPayload::MintQuote(1, MintQuoteState::Paid)]
    );
    // noted once
    mint.note_incoming_status(&lookup, Ok(MintQuoteState::Paid));
    assert_eq!(mint.pubsub_manager.take_notifications(), vec![]);

    // at startup only unpaid quotes are asked about
    let backend = Backend::new();
    *backend.incoming_status.borrow_mut() = Some(Ok(MintQuoteState::Paid));
    mint.check_pending_mint_quotes(&backend).unwrap();
    assert_eq!(backend.called("check_incoming_payment_status"), 0);
    let made = CreateIncomingPaymentResponse {
        request_lookup_id: "three".to_string(),
        request: "invoice-three".to_string(),
        expiry: None,
    };
    mint.create_mint_quote(&request, made, 0, 3).unwrap();
    mint.check_pending_mint_quotes(&backend).unwrap();
    assert_eq!(backend.called("check_incoming_payment_status"), 1);
    assert_eq!(mint.check_mint_quote(3).unwrap().state, MintQuoteState::Paid);
}
