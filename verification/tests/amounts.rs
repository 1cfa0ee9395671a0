use cdk_mint::amount::{to_unit, Amount};
use cdk_mint::error::Error;
use cdk_mint::mint::melt_quote::quote_amount_msat;
use cdk_mint::nuts::MeltOptions;
use cdk_mint::units::CurrencyUnit;
use cdk_mint::util::saturating_add;

fn amounts(values: &[u64]) -> Vec<Amount> {
    values.iter().map(|v| Amount(*v)).collect()
}

#[test]
fn amount_splits_into_powers_of_two() {
    assert_eq!(Amount(0).split(), amounts(&[]));
    assert_eq!(Amount(1).split(), amounts(&[1]));
    assert_eq!(Amount(2).split(), amounts(&[2]));
    assert_eq!(Amount(3).split(), amounts(&[2, 1]));
    assert_eq!(Amount(35).split(), amounts(&[32, 2, 1]));
    assert_eq!(Amount(100).split(), amounts(&[64, 32, 4]));
    assert_eq!(Amount(255).split(), amounts(&[128, 64, 32, 16, 8, 4, 2, 1]));
    assert_eq!(Amount(1 << 63).split(), amounts(&[1 << 63]));
    let all = Amount(u64::MAX).split();
    assert_eq!(all.len(), 64);
    assert_eq!(all[0], Amount(1 << 63));
    assert_eq!(all[63], Amount(1));
    for value in [5u64, 1000, 12345, 1 << 40, u64::MAX - 1] {
        let parts = Amount(value).split();
        assert_eq!(parts.iter().map(|p| p.0 as u128).sum::<u128>(), value as u128);
        assert!(parts.iter().all(|p| p.0.is_power_of_two()));
        assert!(parts.windows(2).all(|w| w[0].0 > w[1].0));
    }
}

#[test]
fn amounts_add_up_or_overflow() {
    assert_eq!(Amount::try_sum(&amounts(&[])), Ok(Amount(0)));
    assert_eq!(Amount::try_sum(&amounts(&[64, 32, 4])), Ok(Amount(100)));
    assert_eq!(Amount::try_sum(&amounts(&[u64::MAX - 1, 1])), Ok(Amount(u64::MAX)));
    assert_eq!(Amount::try_sum(&amounts(&[u64::MAX, 1])), Err(Error::AmountOverflow));
    assert_eq!(Amount::try_sum(&amounts(&[1, u64::MAX, 5])), Err(Error::AmountOverflow));
    assert_eq!(Amount(5).checked_add(Amount(6)), Some(Amount(11)));
    assert_eq!(Amount(u64::MAX).checked_add(Amount(1)), None);
    assert_eq!(Amount(u64::MAX).checked_add(Amount(0)), Some(Amount(u64::MAX)));
    assert_eq!(Amount(6).checked_sub(Amount(5)), Some(Amount(1)));
    assert_eq!(Amount(5).checked_sub(Amount(5)), Some(Amount(0)));
    assert_eq!(Amount(5).checked_sub(Amount(6)), None);
    assert_eq!(Amount::zero(), Amount(0));
    assert_eq!(Amount(7).to_u64(), 7);
    assert_eq!(saturating_add(3, 4), 7);
    assert_eq!(saturating_add(u64::MAX, 4), u64::MAX);
}

#[test]
fn units_convert_at_a_thousand_to_one() {
    let sat = CurrencyUnit::Sat;
    let msat = CurrencyUnit::Msat;
    assert_eq!(to_unit(Amount(5), &sat, &msat), Ok(Amount(5000)));
    assert_eq!(to_unit(Amount(5000), &msat, &sat), Ok(Amount(5)));
    assert_eq!(to_unit(Amount(5999), &msat, &sat), Ok(Amount(5)));
    assert_eq!(to_unit(Amount(999), &msat, &sat), Ok(Amount(0)));
    assert_eq!(to_unit(Amount(7), &sat, &sat), Ok(Amount(7)));
    assert_eq!(to_unit(Amount(7), &msat, &msat), Ok(Amount(7)));
    assert_eq!(to_unit(Amount(7), &CurrencyUnit::Usd, &CurrencyUnit::Usd), Ok(Amount(7)));
    assert_eq!(to_unit(Amount(7), &CurrencyUnit::Custom(9), &CurrencyUnit::Custom(9)), Ok(Amount(7)));
    assert_eq!(to_unit(Amount(7), &CurrencyUnit::Usd, &sat), Err(Error::CannotConvertUnits));
    assert_eq!(to_unit(Amount(7), &sat, &CurrencyUnit::Eur), Err(Error::CannotConvertUnits));
    assert_eq!(
        to_unit(Amount(7), &CurrencyUnit::Custom(9), &CurrencyUnit::Custom(8)),
        Err(Error::CannotConvertUnits)
    );
    assert_eq!(to_unit(Amount(u64::MAX / 1000), &sat, &msat), Ok(Amount(u64::MAX / 1000 * 1000)));
    assert_eq!(to_unit(Amount(u64::MAX / 1000 + 1), &sat, &msat), Err(Error::AmountOverflow));
    assert!(sat.is_bitcoin() && msat.is_bitcoin());
    assert!(!CurrencyUnit::Usd.is_bitcoin() && !CurrencyUnit::Custom(0).is_bitcoin());
    assert_eq!(
        [sat, msat, CurrencyUnit::Usd, CurrencyUnit::Eur, CurrencyUnit::Custom(17)]
            .map(|u| u.derivation_index()),
        [0, 1, 2, 3, 17]
    );
}

#[test]
fn melt_options_name_an_amount() {
    assert_eq!(MeltOptions::Mpp { parts: Amount(5) }.amount_msat(), Amount(5));
    assert_eq!(MeltOptions::Amountless { msat_to_pay: Amount(6) }.amount_msat(), Amount(6));
    assert_eq!(quote_amount_msat(None, Some(1000)), Ok(Amount(1000)));
    assert_eq!(quote_amount_msat(None, None), Err(Error::InvalidAmountRequest));
    assert_eq!(quote_amount_msat(Some(MeltOptions::Mpp { parts: Amount(5) }), Some(1000)), Ok(Amount(5)));
    assert_eq!(
        quote_amount_msat(Some(MeltOptions::Amountless { msat_to_pay: Amount(6) }), None),
        Ok(Amount(6))
    );
    assert_eq!(
        quote_amount_msat(Some(MeltOptions::Amountless { msat_to_pay: Amount(6) }), Some(6)),
        Ok(Amount(6))
    );
    assert_eq!(
        quote_amount_msat(Some(MeltOptions::Amountless { msat_to_pay: Amount(6) }), Some(7)),
        Err(Error::InvalidAmountRequest)
    );
}
