//! What holds of writing and reading together.

use vstd::prelude::*;
use crate::codec::{
    decode_fields, decode_items, decode_spec, encode_spec, latitude_key, longitude_key, nanos_key,
    seconds_key,
};
use crate::hex::lemma_hex_round_trip;
use crate::hint::{hint_of, HintModel};
use crate::keys::{key_pos, lemma_key_pos, lemma_key_pos_is};
use crate::codec::lemma_fields_err_stays;
use crate::mismatch::{repeated, MismatchModel};
use crate::tree::TreeModel;
use crate::value::{distinct, keys_of, well_formed, ValueModel};

verus! {

/// The four keys of the two structured leaves differ pairwise where they
/// meet in one object.
pub proof fn lemma_leaf_keys_differ()
    ensures
        seconds_key() != nanos_key(),
        latitude_key() != longitude_key(),
{
    reveal_strlit("seconds");
    reveal_strlit("nanos");
    reveal_strlit("latitude");
    reveal_strlit("longitude");
    assert(seconds_key().len() == 7);
    assert(nanos_key().len() == 5);
    assert(latitude_key().len() == 8);
    assert(longitude_key().len() == 9);
}

/// Reading the tree of a well-formed value under the value's own hint gives
/// the value back, at any depth of lists and maps.
pub proof fn lemma_round_trip(v: ValueModel)
    requires
        well_formed(v),
    ensures
        decode_spec(encode_spec(v), hint_of(v)) == Ok::<ValueModel, MismatchModel>(v),
    decreases v, 0nat,
{
    match v {
        ValueModel::Timestamp(s, n) => {
            lemma_leaf_keys_differ();
            let fs = encode_spec(v)->Object_0;
            assert(keys_of(fs) =~= seq![seconds_key(), nanos_key()]);
            lemma_key_pos_is(keys_of(fs), seconds_key(), 2, 0);
            lemma_key_pos_is(keys_of(fs), nanos_key(), 2, 1);
        },
        ValueModel::GeoPoint(la, lo) => {
            lemma_leaf_keys_differ();
            let fs = encode_spec(v)->Object_0;
            assert(keys_of(fs) =~= seq![latitude_key(), longitude_key()]);
            lemma_key_pos_is(keys_of(fs), latitude_key(), 2, 0);
            lemma_key_pos_is(keys_of(fs), longitude_key(), 2, 1);
        },
        ValueModel::Bytes(b) => {
            lemma_hex_round_trip(b);
        },
        ValueModel::Array(s) => {
            lemma_round_trip_items(s, s.len());
            assert(s.take(s.len() as int) =~= s);
        },
        ValueModel::Fields(f) => {
            lemma_round_trip_fields(f, f.len());
            assert(f.take(f.len() as int) =~= f);
        },
        _ => {},
    }
}

/// The first `n` elements of a list's tree read back as the first `n`
/// elements of the list.
pub proof fn lemma_round_trip_items(s: Seq<ValueModel>, n: nat)
    requires
        n <= s.len(),
        well_formed(ValueModel::Array(s)),
    ensures
        decode_items(
            encode_spec(ValueModel::Array(s))->List_0,
            hint_of(ValueModel::Array(s))->Array_0,
            n,
        ) == Ok::<Seq<ValueModel>, MismatchModel>(s.take(n as int)),
    decreases s, n,
{
    if n == 0 {
        assert(s.take(0) =~= Seq::empty());
    } else {
        lemma_round_trip_items(s, (n - 1) as nat);
        assert(well_formed(s[n - 1]));
        lemma_round_trip(s[n - 1]);
        assert(s.take(n as int) =~= s.take(n - 1).push(s[n - 1]));
    }
}

/// The first `n` entries of a map's tree read back as the first `n` fields
/// of the map.
pub proof fn lemma_round_trip_fields(f: Seq<(Seq<char>, ValueModel)>, n: nat)
    requires
        n <= f.len(),
        well_formed(ValueModel::Fields(f)),
    ensures
        decode_fields(
            encode_spec(ValueModel::Fields(f))->Object_0,
            hint_of(ValueModel::Fields(f))->Fields_0,
            n,
        ) == Ok::<Seq<(Seq<char>, ValueModel)>, MismatchModel>(f.take(n as int)),
    decreases f, n,
{
    if n == 0 {
        assert(f.take(0) =~= Seq::empty());
    } else {
        let fs = encode_spec(ValueModel::Fields(f))->Object_0;
        let hs = hint_of(ValueModel::Fields(f))->Fields_0;
        lemma_round_trip_fields(f, (n - 1) as nat);
        assert(well_formed(f[n - 1].1));
        lemma_round_trip(f[n - 1].1);
        let k = f[n - 1].0;
        assert(keys_of(fs) =~= keys_of(f));
        assert(keys_of(hs) =~= keys_of(f));
        assert forall|j: int| 0 <= j < n - 1 implies keys_of(f)[j] != k by {
            assert(keys_of(f)[j] != keys_of(f)[n - 1]);
        }
        lemma_key_pos_is(keys_of(f), k, (n - 1) as nat, n - 1);
        lemma_key_pos_is(keys_of(f), k, f.len(), n - 1);
        assert(f.take(n as int) =~= f.take(n - 1).push(f[n - 1]));
    }
}

/// A byte sequence, whatever it holds, is read back from its text unchanged.
pub proof fn lemma_bytes_round_trip(b: Seq<u8>)
    ensures
        decode_spec(encode_spec(ValueModel::Bytes(b)), HintModel::Bytes) == Ok::<
            ValueModel,
            MismatchModel,
        >(ValueModel::Bytes(b)),
{
    lemma_hex_round_trip(b);
}

/// A list is written element by element in its order, and a list that is
/// read gives one value for each element, at the element's place.
pub proof fn lemma_array_order(s: Seq<ValueModel>, ts: Seq<TreeModel>, hs: Seq<HintModel>)
    ensures
        encode_spec(ValueModel::Array(s)) is List,
        encode_spec(ValueModel::Array(s))->List_0.len() == s.len(),
        forall|i: int|
            0 <= i < s.len() ==> encode_spec(ValueModel::Array(s))->List_0[i] == encode_spec(s[i]),
        decode_spec(TreeModel::List(ts), HintModel::Array(hs)) matches Ok(v) ==> v is Array
            && v->Array_0.len() == ts.len() && forall|i: int|
            0 <= i < ts.len() ==> decode_spec(ts[i], hs[i]) == Ok::<ValueModel, MismatchModel>(
                v->Array_0[i],
            ),
{
    if decode_spec(TreeModel::List(ts), HintModel::Array(hs)) is Ok {
        lemma_items_read(ts, hs, ts.len());
    }
}

/// Where the first `n` elements of a list are read, each value is that of
/// the element at its place.
pub proof fn lemma_items_read(ts: Seq<TreeModel>, hs: Seq<HintModel>, n: nat)
    requires
        n <= hs.len(),
        decode_items(ts, hs, n) is Ok,
    ensures
        decode_items(ts, hs, n)->Ok_0.len() == n,
        forall|i: int|
            0 <= i < n ==> decode_spec(ts[i], hs[i]) == Ok::<ValueModel, MismatchModel>(
                decode_items(ts, hs, n)->Ok_0[i],
            ),
    decreases n,
{
    if n > 0 {
        lemma_items_read(ts, hs, (n - 1) as nat);
    }
}

/// Where the first `n` entries of an object are read, each field bears its
/// entry's key, no entry repeats an earlier key, and each value is that of
/// the entry's tree under the hint that bears the key.
pub proof fn lemma_fields_read(
    fs: Seq<(Seq<char>, TreeModel)>,
    hs: Seq<(Seq<char>, HintModel)>,
    n: nat,
)
    requires
        n <= fs.len(),
        decode_fields(fs, hs, n) is Ok,
    ensures
        decode_fields(fs, hs, n)->Ok_0.len() == n,
        forall|i: int|
            0 <= i < n ==> (#[trigger] decode_fields(fs, hs, n)->Ok_0[i]).0 == fs[i].0
                && key_pos(keys_of(fs), fs[i].0, i as nat) == i
                && key_pos(keys_of(hs), fs[i].0, hs.len()) < hs.len()
                && decode_spec(fs[i].1, hs[key_pos(keys_of(hs), fs[i].0, hs.len()) as int].1)
                == Ok::<ValueModel, MismatchModel>(decode_fields(fs, hs, n)->Ok_0[i].1),
    decreases n,
{
    if n > 0 {
        lemma_fields_read(fs, hs, (n - 1) as nat);
        lemma_key_pos(keys_of(fs), fs[n - 1].0, (n - 1) as nat);
    }
}

/// An object that holds a key twice is never read as a map: the reading
/// fails, whatever the hint's fields are.
pub proof fn lemma_duplicate_key_fails(
    fs: Seq<(Seq<char>, TreeModel)>,
    hs: Seq<(Seq<char>, HintModel)>,
)
    requires
        !distinct(keys_of(fs)),
    ensures
        decode_spec(TreeModel::Object(fs), HintModel::Fields(hs)) is Err,
{
    if decode_fields(fs, hs, fs.len()) is Ok {
        lemma_fields_read(fs, hs, fs.len());
        let vs = decode_fields(fs, hs, fs.len())->Ok_0;
        assert forall|i: int, j: int| 0 <= i < j < fs.len() implies keys_of(fs)[i] != keys_of(
            fs,
        )[j] by {
            assert(vs[j].0 == fs[j].0);
            lemma_key_pos(keys_of(fs), fs[j].0, j as nat);
        }
    }
}

/// Where the entries before a place are read and the entry at the place
/// bears the key of an earlier one, the reading of the object fails with a
/// repeated key, reported under that key.
pub proof fn lemma_repeated_key_is_named(
    fs: Seq<(Seq<char>, TreeModel)>,
    hs: Seq<(Seq<char>, HintModel)>,
    i: int,
    j: int,
)
    requires
        0 <= i < j < fs.len(),
        fs[i].0 == fs[j].0,
        decode_fields(fs, hs, j as nat) is Ok,
    ensures
        decode_spec(TreeModel::Object(fs), HintModel::Fields(hs)) == Err::<
            ValueModel,
            MismatchModel,
        >(repeated(fs[j].0)),
{
    lemma_key_pos(keys_of(fs), fs[j].0, j as nat);
    assert(keys_of(fs)[i] == fs[j].0);
    assert(decode_fields(fs, hs, (j + 1) as nat) == Err::<
        Seq<(Seq<char>, ValueModel)>,
        MismatchModel,
    >(repeated(fs[j].0)));
    lemma_fields_err_stays(fs, hs, (j + 1) as nat, fs.len());
}

/// Every value that is read is well formed: no map in it names a field twice.
pub proof fn lemma_decoded_well_formed(t: TreeModel, h: HintModel)
    requires
        decode_spec(t, h) is Ok,
    ensures
        well_formed(decode_spec(t, h)->Ok_0),
    decreases h,
{
    match h {
        HintModel::Array(hs) => {
            let ts = t->List_0;
            let vs = decode_items(ts, hs, ts.len())->Ok_0;
            lemma_items_read(ts, hs, ts.len());
            assert forall|i: int| 0 <= i < vs.len() implies well_formed(#[trigger] vs[i]) by {
                lemma_decoded_well_formed(ts[i], hs[i]);
            }
        },
        HintModel::Fields(hs) => {
            let fs = t->Object_0;
            let vs = decode_fields(fs, hs, fs.len())->Ok_0;
            lemma_fields_read(fs, hs, fs.len());
            assert forall|i: int| 0 <= i < vs.len() implies well_formed((#[trigger] vs[i]).1) by {
                let p = key_pos(keys_of(hs), fs[i].0, hs.len());
                assert(vs[i].0 == fs[i].0);
                assert(p < hs.len());
                lemma_decoded_well_formed(fs[i].1, hs[p as int].1);
            }
            assert forall|i: int, j: int| 0 <= i < j < vs.len() implies keys_of(vs)[i] != keys_of(
                vs,
            )[j] by {
                assert(vs[i].0 == fs[i].0);
                assert(vs[j].0 == fs[j].0);
                lemma_key_pos(keys_of(fs), fs[j].0, j as nat);
                assert(keys_of(fs)[i] == fs[i].0);
            }
        },
        HintModel::Timestamp => {
        },
        HintModel::GeoPoint => {
        },
        _ => {},
    }
}

} // verus!
