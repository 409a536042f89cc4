use ledger_snapshot::account::Account;
use ledger_snapshot::codec::{decode, Codec};
use ledger_snapshot::inflation::Inflation;
use ledger_snapshot::key::Key;
use ledger_snapshot::rent::Rent;
use solana_sdk::account::{AccountSharedData, ReadableAccount};
use solana_sdk::pubkey::Pubkey;

#[test]
fn key_holds_the_bytes_of_a_pubkey() {
    for _ in 0..16 {
        let pubkey = Pubkey::new_unique();
        let key = Key::from_array(&pubkey.to_bytes());
        assert_eq!(Pubkey::new_from_array(key.to_array()), pubkey);
        assert_eq!(Key::from_slice(pubkey.as_ref()), Some(key));
    }
    let hash = solana_sdk::hash::Hash::new_unique();
    let key = Key::from_array(&hash.to_bytes());
    assert_eq!(solana_sdk::hash::Hash::new_from_array(key.to_array()), hash);
}

#[test]
fn different_pubkeys_are_different_keys() {
    let a = Pubkey::new_unique();
    let b = Pubkey::new_unique();
    assert_ne!(a, b);
    assert_ne!(Key::from_array(&a.to_bytes()), Key::from_array(&b.to_bytes()));
}

#[test]
fn default_inflation_survives_as_bit_patterns() {
    let theirs = solana_sdk::inflation::Inflation::default();
    let ours = Inflation {
        initial: theirs.initial.to_bits(),
        terminal: theirs.terminal.to_bits(),
        taper: theirs.taper.to_bits(),
        foundation: theirs.foundation.to_bits(),
        foundation_term: theirs.foundation_term.to_bits(),
    };
    let back = decode::<Inflation>(&ours.encode().unwrap()).unwrap();
    assert_eq!(back, ours);
    assert_eq!(f64::from_bits(back.initial), theirs.initial);
    assert_eq!(f64::from_bits(back.terminal), theirs.terminal);
    assert_eq!(f64::from_bits(back.taper), theirs.taper);
    assert_eq!(f64::from_bits(back.foundation), theirs.foundation);
    assert_eq!(f64::from_bits(back.foundation_term), theirs.foundation_term);
}

#[test]
fn default_rent_survives() {
    let theirs = solana_sdk::rent::Rent::default();
    let ours = Rent {
        lamports_per_byte_year: theirs.lamports_per_byte_year,
        exemption_threshold: theirs.exemption_threshold.to_bits(),
        burn_percent: theirs.burn_percent,
    };
    let back = decode::<Rent>(&ours.encode().unwrap()).unwrap();
    assert_eq!(back.lamports_per_byte_year, theirs.lamports_per_byte_year);
    assert_eq!(f64::from_bits(back.exemption_threshold), theirs.exemption_threshold);
    assert_eq!(back.burn_percent, theirs.burn_percent);
}

#[test]
fn shared_account_survives() {
    let owner = Pubkey::new_unique();
    let mut theirs = AccountSharedData::new(500, 3, &owner);
    theirs.set_data_from_slice(&[1, 2, 3]);
    let ours = Account {
        lamports: theirs.lamports(),
        data: theirs.data().to_vec(),
        owner: Key::from_array(&theirs.owner().to_bytes()),
        executable: theirs.executable(),
        rent_epoch: theirs.rent_epoch(),
    };
    let back = decode::<Account>(&ours.encode().unwrap()).unwrap();
    assert_eq!(back.lamports, 500);
    assert_eq!(back.data, vec![1, 2, 3]);
    assert_eq!(Pubkey::new_from_array(back.owner.to_array()), owner);
    assert_eq!(back.executable, theirs.executable());
    assert_eq!(back.rent_epoch, theirs.rent_epoch());
}
