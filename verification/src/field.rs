//! A field of a document: absent, or present with a value, which may be the
//! null value. In a tree the first is an object without the key, the second
//! an entry under the key.

use vstd::prelude::*;
use crate::codec::{decode, decode_spec, encode_spec, try_encode};
use crate::hint::{hint_of, Hint, HintModel};
use crate::keys::{entry_keys, find_key, key_pos, lemma_key_pos, lemma_key_pos_is, stands_again, twice};
use crate::laws::lemma_round_trip;
use crate::mismatch::{repeated, Fault, MismatchModel, PathStep, SchemaMismatch, StepModel};
use crate::tree::{entry_models, Tree, TreeModel};
use crate::value::{keys_of, well_formed, Value, ValueModel};

verus! {

/// The model of a field: `None` where it is absent.
pub open spec fn field_model(field: Option<Value>) -> Option<ValueModel> {
    match field {
        None => None,
        Some(v) => Some(v@),
    }
}

/// The entries of an object after a field was written to it: unchanged for
/// an absent field, else with one more entry, the value's tree under the key.
pub open spec fn with_field(
    fs: Seq<(Seq<char>, TreeModel)>,
    k: Seq<char>,
    field: Option<ValueModel>,
) -> Seq<(Seq<char>, TreeModel)> {
    match field {
        None => fs,
        Some(v) => fs.push((k, encode_spec(v))),
    }
}

/// The field that an object holds under a key: absent where no entry bears
/// the key; a repeated key, reported under the key, where two entries bear
/// it; else the value of the one entry that does, read under the hint, a
/// mismatch in it reported under the key.
pub open spec fn field_of(fs: Seq<(Seq<char>, TreeModel)>, k: Seq<char>, h: HintModel) -> Result<
    Option<ValueModel>,
    MismatchModel,
> {
    let p = key_pos(keys_of(fs), k, fs.len());
    if p >= fs.len() {
        Ok(None)
    } else if twice(keys_of(fs), k) {
        Err(repeated(k))
    } else {
        match decode_spec(fs[p as int].1, h) {
            Ok(v) => Ok(Some(v)),
            Err(e) => Err(e.under(StepModel::Field(k))),
        }
    }
}

/// Writes a field to the entries of an object: nothing for an absent field,
/// an entry for a present one, also where its value is the null value. Where
/// the field is present and an entry bears the key already, or the value is
/// not well formed, nothing is written and `false` is returned: no key comes
/// to stand twice, and no tree is written that cannot be read back.
pub fn serialize(entries: &mut Vec<(String, Tree)>, key: &String, field: &Option<Value>) -> (written:
    bool)
    ensures
        written == (field matches Some(v) ==> well_formed(v@) && key_pos(
            keys_of(entry_models(old(entries)@)),
            key@,
            old(entries)@.len(),
        ) == old(entries)@.len()),
        written ==> entry_models(final(entries)@) == with_field(
            entry_models(old(entries)@),
            key@,
            field_model(*field),
        ),
        !written ==> final(entries)@ == old(entries)@,
{
    proof {
        assert(keys_of(entry_models(entries@)) =~= entry_keys(entries@));
    }
    match field {
        None => true,
        Some(v) => {
            if find_key(entries, key, entries.len()) < entries.len() {
                return false;
            }
            match try_encode(v) {
                None => false,
                Some(t) => {
                    entries.push((key.clone(), t));
                    proof {
                        assert(entry_models(entries@) =~= entry_models(old(entries)@).push(
                            (key@, t@),
                        ));
                    }
                    true
                },
            }
        },
    }
}

/// Reads a field from the entries of an object: absent where no entry bears
/// the key, present where one does, also where its tree is null. Where two
/// entries bear the key the reading fails.
pub fn deserialize(entries: &Vec<(String, Tree)>, key: &String, hint: &Hint) -> (r: Result<
    Option<Value>,
    SchemaMismatch,
>)
    ensures
        match r {
            Ok(field) => field_of(entry_models(entries@), key@, hint@) == Ok::<
                Option<ValueModel>,
                MismatchModel,
            >(field_model(field)),
            Err(e) => field_of(entry_models(entries@), key@, hint@) == Err::<
                Option<ValueModel>,
                MismatchModel,
            >(e@),
        },
{
    proof {
        assert(keys_of(entry_models(entries@)) =~= entry_keys(entries@));
    }
    let p = find_key(entries, key, entries.len());
    if p >= entries.len() {
        return Ok(None);
    }
    if stands_again(entries, key, p) {
        return Err(SchemaMismatch::at_node(Fault::RepeatedKey).under(PathStep::Field(key.clone())));
    }
    match decode(&entries[p].1, hint) {
        Ok(v) => Ok(Some(v)),
        Err(e) => Err(e.under(PathStep::Field(key.clone()))),
    }
}

/// A field written to an object that had no entry under its key is read
/// back as it was: an absent field as absent, a present one as present with
/// its value. In particular the absent field and the field that holds the
/// null value are written differently and read back differently.
pub proof fn lemma_field_round_trip(
    fs: Seq<(Seq<char>, TreeModel)>,
    k: Seq<char>,
    field: Option<ValueModel>,
    h: HintModel,
)
    requires
        key_pos(keys_of(fs), k, fs.len()) == fs.len(),
        field matches Some(v) ==> well_formed(v) && h == hint_of(v),
    ensures
        field_of(with_field(fs, k, field), k, h) == Ok::<Option<ValueModel>, MismatchModel>(field),
        with_field(fs, k, None) == fs,
        with_field(fs, k, Some(ValueModel::Null)) == fs.push((k, TreeModel::Null)),
        with_field(fs, k, None) != with_field(fs, k, Some(ValueModel::Null)),
{
    assert(fs.push((k, TreeModel::Null)).len() != fs.len());
    match field {
        None => {},
        Some(v) => {
            let gs = with_field(fs, k, field);
            lemma_round_trip(v);
            lemma_key_pos(keys_of(fs), k, fs.len());
            assert forall|j: int| 0 <= j < fs.len() implies keys_of(gs)[j] != k by {
                assert(keys_of(gs)[j] == keys_of(fs)[j]);
            }
            lemma_key_pos_is(keys_of(gs), k, gs.len(), fs.len() as int);
            assert(!twice(keys_of(gs), k));
        },
    }
}

/// An object that holds a key twice gives no field under it: the reading
/// fails and names the key, whatever the two entries hold.
pub proof fn lemma_field_twice_fails(fs: Seq<(Seq<char>, TreeModel)>, k: Seq<char>, h: HintModel)
    requires
        twice(keys_of(fs), k),
    ensures
        field_of(fs, k, h) == Err::<Option<ValueModel>, MismatchModel>(repeated(k)),
{
    lemma_key_pos(keys_of(fs), k, fs.len());
}

} // verus!
