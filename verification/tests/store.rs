use cdk_mint::amount::Amount;
use cdk_mint::database::melt_quotes::MeltQuoteTable;
use cdk_mint::database::mint_quotes::MintQuoteTable;
use cdk_mint::database::proofs::{contains_key, ProofInfo, ProofRecord, ProofTable};
use cdk_mint::database::signatures::{SignatureRecord, SignatureTable};
use cdk_mint::dhke::{hash_to_curve, PublicKey};
use cdk_mint::error::DatabaseError;
use cdk_mint::nuts::{BlindSignature, MeltQuote, MeltQuoteState, MintQuote, MintQuoteState, State};
use cdk_mint::pubsub::{NotificationPayload, PubSubManager, Subscribers, Topic};
use cdk_mint::units::CurrencyUnit;

fn point(n: u8) -> PublicKey {
    hash_to_curve(&vec![n]).unwrap()
}

fn info(n: u8, amount: u64) -> ProofInfo {
    ProofInfo { y: point(n), amount: Amount(amount), keyset_id: 1 }
}

fn quote(id: u128, state: MeltQuoteState) -> MeltQuote {
    MeltQuote {
        id,
        unit: CurrencyUnit::Sat,
        amount: Amount(10),
        fee_reserve: Amount(1),
        request: format!("request-{}", id),
        request_lookup_id: format!("lookup-{}", id),
        expiry: 0,
        state,
        payment_preimage: None,
        msat_to_pay: None,
    }
}

fn mint_quote(id: u128, state: MintQuoteState) -> MintQuote {
    MintQuote {
        id,
        unit: CurrencyUnit::Sat,
        amount: Amount(10),
        request: format!("request-{}", id),
        request_lookup_id: format!("lookup-{}", id),
        expiry: 0,
        state,
        issued_amount: Amount(0),
    }
}

#[test]
fn proofs_enter_the_store_all_or_none() {
    let mut table = ProofTable::new();
    assert_eq!(table.add_proofs(&vec![info(1, 4), info(2, 8)], Some(7)), Ok(()));
    assert_eq!(table.len(), 2);
    assert_eq!(table.get_state(&point(1)), Some(State::Unspent));
    assert_eq!(
        table.get(&point(2)),
        Some(ProofRecord { y: point(2), amount: Amount(8), keyset_id: 1, state: State::Unspent, quote_id: Some(7) })
    );
    assert_eq!(table.get(&point(3)), None);
    assert_eq!(table.find(&point(2)), Some(1));
    // one of the points is stored already
    assert_eq!(table.add_proofs(&vec![info(3, 1), info(1, 4)], None), Err(DatabaseError::Duplicate));
    assert_eq!(table.get_state(&point(3)), None);
    // a point occurs twice
    assert_eq!(table.add_proofs(&vec![info(3, 1), info(3, 1)], None), Err(DatabaseError::Duplicate));
    assert_eq!(table.len(), 2);
    // one of the points is spent
    table.update_proofs_states(&vec![point(1)], State::Spent).unwrap();
    assert_eq!(
        table.add_proofs(&vec![info(2, 8), info(1, 4)], None),
        Err(DatabaseError::AttemptUpdateSpentProof)
    );
    assert_eq!(table.add_proofs(&vec![], None), Ok(()));
}

#[test]
fn a_spent_proof_is_never_moved() {
    let mut table = ProofTable::new();
    table.add_proofs(&vec![info(1, 4), info(2, 8), info(3, 16)], None).unwrap();
    assert_eq!(
        table.update_proofs_states(&vec![point(1), point(9), point(2)], State::Pending),
        Ok(vec![Some(State::Unspent), None, Some(State::Unspent)])
    );
    assert_eq!(table.get_state(&point(1)), Some(State::Pending));
    assert_eq!(table.get_state(&point(3)), Some(State::Unspent));
    assert_eq!(table.update_proofs_states(&vec![point(1)], State::Spent), Ok(vec![Some(State::Pending)]));
    // all or nothing: the second point stays pending
    for state in [State::Unspent, State::Pending, State::Reserved, State::Spent] {
        assert_eq!(
            table.update_proofs_states(&vec![point(2), point(1)], state),
            Err(DatabaseError::AttemptUpdateSpentProof)
        );
        assert_eq!(table.get_state(&point(1)), Some(State::Spent));
        assert_eq!(table.get_state(&point(2)), Some(State::Pending));
    }
    // neither is it taken out
    table.remove_proofs(&vec![point(1), point(2), point(3)], None);
    assert_eq!(table.get_state(&point(1)), Some(State::Spent));
    assert_eq!(table.get_state(&point(2)), None);
    assert_eq!(table.get_state(&point(3)), Some(State::Unspent));
    assert_eq!(table.len(), 2);
}

#[test]
fn proofs_are_taken_out_for_their_quote_only() {
    let mut table = ProofTable::new();
    table.add_proofs(&vec![info(1, 4), info(2, 8)], Some(7)).unwrap();
    table.add_proofs(&vec![info(3, 16)], Some(8)).unwrap();
    table.add_proofs(&vec![info(4, 32), info(5, 64)], None).unwrap();
    table.update_proofs_states(&vec![point(1), point(3), point(4)], State::Pending).unwrap();
    table.update_proofs_states(&vec![point(5)], State::Reserved).unwrap();
    assert_eq!(table.get_pending_ys(7), vec![point(1)]);
    assert_eq!(table.get_pending_ys(8), vec![point(3)]);
    assert_eq!(table.get_pending_ys(9), vec![]);

    let all = vec![point(1), point(2), point(3), point(4), point(5)];
    table.remove_proofs(&all, Some(7));
    // pending for quote 7: gone; unspent for quote 7: stays; all others stay
    assert_eq!(table.get_state(&point(1)), None);
    assert_eq!(table.get_state(&point(2)), Some(State::Unspent));
    assert_eq!(table.get_state(&point(3)), Some(State::Pending));
    assert_eq!(table.get_state(&point(4)), Some(State::Pending));
    table.remove_proofs(&vec![point(4)], None);
    assert_eq!(table.get_state(&point(4)), None);
    assert_eq!(table.get_state(&point(5)), Some(State::Reserved));
    table.remove_proofs(&all, None);
    assert_eq!(table.get_state(&point(5)), None);
    assert_eq!(table.len(), 2);
    assert!(contains_key(&all, &point(3)));
    assert!(!contains_key(&all, &point(6)));
}

#[test]
fn signatures_are_stored_once() {
    let mut table = SignatureTable::new();
    let record = |n: u8, amount: u64, quote_id: Option<u128>| SignatureRecord {
        blinded_secret: point(n),
        signature: BlindSignature { amount: Amount(amount), keyset_id: 1, c: point(n + 100) },
        quote_id,
    };
    assert_eq!(table.add_blind_signatures(&vec![record(1, 4, Some(7)), record(2, 8, None)]), Ok(()));
    assert_eq!(table.add_blind_signatures(&vec![record(3, 16, Some(7))]), Ok(()));
    assert_eq!(
        table.add_blind_signatures(&vec![record(4, 1, None), record(2, 8, None)]),
        Err(DatabaseError::DuplicateSignature)
    );
    assert_eq!(
        table.add_blind_signatures(&vec![record(4, 1, None), record(4, 1, None)]),
        Err(DatabaseError::DuplicateSignature)
    );
    assert_eq!(
        table.get_blind_signatures(&vec![point(2), point(4), point(1)]),
        vec![Some(record(2, 8, None).signature), None, Some(record(1, 4, Some(7)).signature)]
    );
    assert!(table.any_signed(&vec![point(4), point(3)]));
    assert!(!table.any_signed(&vec![point(4), point(5)]));
    assert!(!table.any_signed(&vec![]));
    assert_eq!(
        table.get_blind_signatures_for_quote(7),
        vec![record(1, 4, Some(7)).signature, record(3, 16, Some(7)).signature]
    );
    assert_eq!(table.get_records_for_quote(7), vec![record(1, 4, Some(7)), record(3, 16, Some(7))]);
    assert_eq!(table.get_blind_signatures_for_quote(8), vec![]);
    assert_eq!(table.find(&point(3)), Some(2));
}

#[test]
fn melt_quotes_move_between_states_as_allowed() {
    let (failed, paid, pending, unknown, unpaid) = (
        MeltQuoteState::Failed,
        MeltQuoteState::Paid,
        MeltQuoteState::Pending,
        MeltQuoteState::Unknown,
        MeltQuoteState::Unpaid,
    );
    let allowed = |from: MeltQuoteState, to: MeltQuoteState| {
        let mut table = MeltQuoteTable::new();
        table.add_melt_quote(quote(1, from)).unwrap();
        let (previous, stored) = table.update_melt_quote_state(1, to).unwrap();
        assert_eq!(previous, from);
        assert_eq!(stored, quote(1, from));
        let now = table.get_melt_quote(1).unwrap().state;
        assert!(now == to || now == from);
        now == to && (from != to || to == unpaid || to == failed || to == pending)
    };
    assert!(allowed(unpaid, pending));
    assert!(allowed(failed, pending));
    assert!(allowed(pending, paid));
    assert!(allowed(pending, unpaid));
    assert!(allowed(pending, failed));
    assert!(allowed(unpaid, failed));
    for to in [unpaid, pending, failed, unknown] {
        let mut table = MeltQuoteTable::new();
        table.add_melt_quote(quote(1, paid)).unwrap();
        assert_eq!(table.update_melt_quote_state(1, to), Ok((paid, quote(1, paid))));
        assert_eq!(table.get_melt_quote(1).unwrap().state, paid);
    }
    for from in [unpaid, failed] {
        let mut table = MeltQuoteTable::new();
        table.add_melt_quote(quote(1, from)).unwrap();
        table.update_melt_quote_state(1, paid).unwrap();
        assert_eq!(table.get_melt_quote(1).unwrap().state, from);
        table.update_melt_quote_state(1, unknown).unwrap();
        assert_eq!(table.get_melt_quote(1).unwrap().state, from);
    }
    let mut table = MeltQuoteTable::new();
    assert_eq!(table.update_melt_quote_state(1, pending), Err(DatabaseError::UnknownQuote));
    table.add_melt_quote(quote(1, unpaid)).unwrap();
    table.add_melt_quote(quote(2, unpaid)).unwrap();
    table.update_melt_quote_state(2, pending).unwrap();
    assert_eq!(table.get_melt_quote(1).unwrap().state, unpaid);
    assert_eq!(table.get_melt_quotes(), vec![quote(1, unpaid), quote(2, pending)]);
    table.remove_melt_quote(1);
    table.remove_melt_quote(5);
    assert_eq!(table.get_melt_quotes(), vec![quote(2, pending)]);
    assert_eq!(table.find(2), Some(0));
}

#[test]
fn mint_quotes_move_forward_only() {
    let (issued, paid, unpaid) = (MintQuoteState::Issued, MintQuoteState::Paid, MintQuoteState::Unpaid);
    let mut table = MintQuoteTable::new();
    table.add_mint_quote(mint_quote(1, unpaid)).unwrap();
    table.add_mint_quote(mint_quote(2, unpaid)).unwrap();
    assert_eq!(table.update_mint_quote_state(1, issued), Ok((unpaid, mint_quote(1, unpaid))));
    assert_eq!(table.get_mint_quote(1).unwrap().state, unpaid);
    table.update_mint_quote_state(1, paid).unwrap();
    assert_eq!(table.get_mint_quote(1).unwrap().state, paid);
    table.update_mint_quote_state(1, unpaid).unwrap();
    assert_eq!(table.get_mint_quote(1).unwrap().state, paid);
    table.update_mint_quote_state(1, issued).unwrap();
    for to in [unpaid, paid, issued] {
        assert_eq!(table.update_mint_quote_state(1, to), Ok((issued, mint_quote(1, issued))));
        assert_eq!(table.get_mint_quote(1).unwrap().state, issued);
    }
    assert_eq!(table.update_mint_quote_state(3, paid), Err(DatabaseError::UnknownQuote));
    assert_eq!(table.get_mint_quote_by_request(&"request-2".to_string()), Some(mint_quote(2, unpaid)));
    assert_eq!(table.get_mint_quote_by_request(&"request-3".to_string()), None);
    assert_eq!(
        table.get_mint_quote_by_request_lookup_id(&"lookup-1".to_string()),
        Some(mint_quote(1, issued))
    );
    assert_eq!(table.get_mint_quote_by_request_lookup_id(&"lookup".to_string()), None);
    // a stored quote is replaced, but an issued one stays issued
    let mut changed = mint_quote(2, unpaid);
    changed.amount = Amount(11);
    assert_eq!(table.add_mint_quote(changed.clone()), Ok(()));
    assert_eq!(table.get_mint_quote(2), Some(changed));
    assert_eq!(table.add_mint_quote(mint_quote(2, paid)), Ok(()));
    assert_eq!(table.get_mint_quote(2), Some(mint_quote(2, paid)));
    assert_eq!(table.add_mint_quote(mint_quote(1, paid)), Err(DatabaseError::InvalidStateTransition));
    let mut reissued = mint_quote(1, issued);
    reissued.amount = Amount(12);
    assert_eq!(table.add_mint_quote(reissued.clone()), Ok(()));
    assert_eq!(table.get_mint_quote(1), Some(reissued));
    assert_eq!(table.add_mint_quote(mint_quote(1, issued)), Ok(()));
    table.remove_mint_quote(2);
    assert_eq!(table.get_mint_quotes(), vec![mint_quote(1, issued)]);
}

#[test]
fn notifications_wait_in_order() {
    let mut manager = PubSubManager::new();
    manager.melt_quote_status(1, MeltQuoteState::Pending);
    manager.proof_states(&vec![point(1), point(2)], State::Pending);
    manager.proof_state(point(1), State::Spent);
    manager.mint_quote_status(2, MintQuoteState::Paid);
    assert_eq!(
        manager.take_notifications(),
        vec![
            NotificationPayload::MeltQuote(1, MeltQuoteState::Pending),
            NotificationPayload::ProofState(point(1), State::Pending),
            NotificationPayload::ProofState(point(2), State::Pending),
            NotificationPayload::ProofState(point(1), State::Spent),
            NotificationPayload::MintQuote(2, MintQuoteState::Paid),
        ]
    );
    assert_eq!(manager.take_notifications(), vec![]);
}

#[test]
fn subscribers_are_told_of_their_topics() {
    let mut subscribers = Subscribers::new();
    let first = subscribers.subscribe(vec![Topic::ProofState(point(1)), Topic::MeltQuote(7)]).unwrap();
    let second = subscribers.subscribe(vec![Topic::MintQuote(7)]).unwrap();
    // ids are handed out from zero upwards
    assert_eq!((first, second), (0, 1));
    let published = vec![
        NotificationPayload::MeltQuote(7, MeltQuoteState::Pending),
        NotificationPayload::ProofState(point(1), State::Pending),
        NotificationPayload::ProofState(point(2), State::Pending),
        NotificationPayload::MintQuote(7, MintQuoteState::Paid),
        NotificationPayload::MeltQuote(8, MeltQuoteState::Paid),
    ];
    subscribers.publish(&published);
    subscribers.publish(&vec![NotificationPayload::ProofState(point(1), State::Spent)]);
    let third = subscribers.subscribe(vec![Topic::ProofState(point(1))]).unwrap();
    subscribers.publish(&vec![NotificationPayload::MeltQuote(7, MeltQuoteState::Paid)]);

    assert_eq!(
        subscribers.take(first),
        vec![
            NotificationPayload::MeltQuote(7, MeltQuoteState::Pending),
            NotificationPayload::ProofState(point(1), State::Pending),
            NotificationPayload::ProofState(point(1), State::Spent),
            NotificationPayload::MeltQuote(7, MeltQuoteState::Paid),
        ]
    );
    assert_eq!(subscribers.take(first), vec![]);
    assert_eq!(subscribers.take(second), vec![NotificationPayload::MintQuote(7, MintQuoteState::Paid)]);
    // a subscriber is told of nothing that was published before it subscribed
    assert_eq!(subscribers.take(third), vec![]);
    assert_eq!(subscribers.take(99), vec![]);

    assert!(subscribers.unsubscribe(first));
    assert!(!subscribers.unsubscribe(first));
    subscribers.publish(&published);
    assert_eq!(subscribers.take(first), vec![]);
    assert_eq!(subscribers.take(third), vec![NotificationPayload::ProofState(point(1), State::Pending)]);
    // the id of a subscription that ended is not handed out again
    assert_eq!(third, 2);
    assert_eq!(subscribers.subscribe(vec![]), Some(3));
}
