//! Account records.

use crate::codec::Codec;
use crate::error::SnapshotError;
use crate::key::{get_key, last_key, lemma_key_round_trip, put_key_field, wrong_length, Key};
use crate::scalar::{get_flag, last_flag, required};
use crate::reader::Record;
use crate::wire::{
    bytes_field, fields_bytes, last_bytes, last_varint, lemma_fields_bytes_push,
    lemma_matching_empty, lemma_matching_push, varint_field, Field, Kind,
};
use crate::writer::{bool_value, put_bool_field, put_bytes_field, put_varint_field};
use vstd::prelude::*;
use vstd::slice::slice_to_vec;

verus! {

/// One account: balance, opaque data, owning program, flags.
#[derive(Clone, Debug, PartialEq, Eq)]
pub struct Account {
    pub lamports: u64,
    pub data: Vec<u8>,
    pub owner: Key,
    pub executable: bool,
    pub rent_epoch: u64,
}

/// The mathematical content of an [`Account`].
pub struct AccountView {
    pub lamports: u64,
    pub data: Seq<u8>,
    pub owner: Key,
    pub executable: bool,
    pub rent_epoch: u64,
}

impl View for Account {
    type V = AccountView;

    open spec fn view(&self) -> AccountView {
        AccountView {
            lamports: self.lamports,
            data: self.data@,
            owner: self.owner,
            executable: self.executable,
            rent_epoch: self.rent_epoch,
        }
    }
}

impl Codec for Account {
    open spec fn kind_of(number: u32) -> Option<Kind> {
        if number == 1 || number == 4 || number == 5 {
            Some(Kind::Varint)
        } else if number == 2 || number == 3 {
            Some(Kind::Bytes)
        } else {
            None
        }
    }

    fn kind(number: u32) -> (k: Option<Kind>) {
        if number == 1 || number == 4 || number == 5 {
            Some(Kind::Varint)
        } else if number == 2 || number == 3 {
            Some(Kind::Bytes)
        } else {
            None
        }
    }

    open spec fn fields(a: AccountView) -> Seq<Field> {
        Seq::empty()
            .push(varint_field(1, a.lamports))
            .push(bytes_field(2, a.data))
            .push(bytes_field(3, a.owner.bytes()))
            .push(varint_field(4, bool_value(a.executable)))
            .push(varint_field(5, a.rent_epoch))
    }

    /// Every field is required; the owner must have 32 bytes and the flag
    /// must be 0 or 1.
    open spec fn of_fields(fs: Seq<Field>) -> Result<AccountView, SnapshotError> {
        if last_varint(fs, 1) is Some && last_bytes(fs, 2) is Some && last_key(fs, 3) is Some
            && last_flag(fs, 4) is Some && last_varint(fs, 5) is Some {
            Ok(
                AccountView {
                    lamports: last_varint(fs, 1)->Some_0,
                    data: last_bytes(fs, 2)->Some_0,
                    owner: last_key(fs, 3)->Some_0,
                    executable: last_flag(fs, 4)->Some_0,
                    rent_epoch: last_varint(fs, 5)->Some_0,
                },
            )
        } else {
            Err(SnapshotError::MalformedSnapshot)
        }
    }

    open spec fn valid(a: AccountView) -> bool {
        true
    }

    open spec fn encodable(a: AccountView) -> bool {
        true
    }

    open spec fn fits(a: AccountView) -> bool {
        a.data.len() <= u64::MAX
    }

    fn encode(&self) -> (r: Result<Vec<u8>, SnapshotError>) {
        broadcast use lemma_fields_bytes_push;

        let mut out: Vec<u8> = Vec::new();
        put_varint_field(&mut out, 1, self.lamports);
        put_bytes_field(&mut out, 2, self.data.as_slice());
        put_key_field(&mut out, 3, &self.owner);
        put_bool_field(&mut out, 4, self.executable);
        put_varint_field(&mut out, 5, self.rent_epoch);
        assert(fields_bytes(Seq::<Field>::empty()) =~= Seq::<u8>::empty());
        assert(out@ =~= fields_bytes(Self::fields(self@)));
        Ok(out)
    }

    fn from_record(rec: &Record) -> (r: Result<Account, SnapshotError>) {
        let lamports = required(rec.varint(1))?;
        let data = required(rec.bytes(2))?;
        let owner = required(get_key(rec, 3))?;
        let executable = required(get_flag(rec, 4))?;
        let rent_epoch = required(rec.varint(5))?;
        Ok(Account { lamports, data: slice_to_vec(data), owner, executable, rent_epoch })
    }

    proof fn lemma_fields_round_trip(a: AccountView) {
        broadcast use lemma_matching_push, lemma_matching_empty;

        lemma_key_round_trip(a.owner);
    }

    open spec fn can_fail_with(e: SnapshotError) -> bool {
        e == SnapshotError::MalformedSnapshot
    }

    proof fn lemma_error_kinds(fs: Seq<Field>) {
    }

    proof fn lemma_decoded_valid(fs: Seq<Field>) {
    }
}

/// Key length: an owner that is not 32 bytes long makes the record a
/// malformed snapshot.
pub proof fn lemma_account_key_length(fs: Seq<Field>)
    requires
        wrong_length(fs, 3),
    ensures
        Account::of_fields(fs) == Err::<AccountView, SnapshotError>(
            SnapshotError::MalformedSnapshot,
        ),
{
}

} // verus!
