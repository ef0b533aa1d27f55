//! The laws of the bridge, proved once and for all over the models:
//! what a round trip through the runtime preserves, and exactly how
//! decoding fails on what has no document counterpart.

use crate::codec::{
    dec, dec_table, enc, enc_items, enc_pairs, key_text, lemma_enc_items, lemma_enc_pairs,
    lemma_obj_insert_absent, obj_insert,
};
use crate::text::{int_text, lemma_nat_text_injective};
use crate::value::{
    doc_pairs_wf, doc_seq_wf, unique_keys, ConvertError, DocView, DynView, HostKind, KeyView,
};
use vstd::prelude::*;
use vstd::utf8::{encode_utf8, encode_utf8_decode_utf8, encode_utf8_valid_utf8, valid_utf8};

verus! {

/// What a round trip makes of an array's elements: an object pair sequence
/// keyed by the decimal texts `base`, `base + 1`, ... in element order.
pub open spec fn restructure_items(items: Seq<DocView>, base: int) -> Seq<(Seq<char>, DocView)>
    decreases items,
{
    if items.len() == 0 {
        Seq::empty()
    } else {
        seq![(int_text(base), restructure(items[0]))] + restructure_items(
            items.drop_first(),
            base + 1,
        )
    }
}

/// What a round trip makes of an object's pairs: the same keys in the same
/// order, each value restructured.
pub open spec fn restructure_pairs(pairs: Seq<(Seq<char>, DocView)>) -> Seq<(Seq<char>, DocView)>
    decreases pairs,
{
    if pairs.len() == 0 {
        Seq::empty()
    } else {
        seq![(pairs[0].0, restructure(pairs[0].1))] + restructure_pairs(pairs.drop_first())
    }
}

/// What a round trip through the runtime makes of a document value: leaves
/// (null, booleans, numbers, text) come back exactly; an object comes back
/// as an object with the same keys in the same order; an array comes back
/// as an object keyed "0", "1", ... — the documented array/object
/// asymmetry of the single table type.
pub open spec fn restructure(d: DocView) -> DocView
    decreases d,
{
    match d {
        DocView::Null => d,
        DocView::Bool(_) => d,
        DocView::Num(_) => d,
        DocView::Text(_) => d,
        DocView::Array(items) => DocView::Object(restructure_items(items, 0)),
        DocView::Object(pairs) => DocView::Object(restructure_pairs(pairs)),
    }
}

/// Decoding the encoded elements of an array extends the already decoded
/// pairs with one pair per element, keyed in decimal from `base`, in order.
proof fn lemma_dec_enc_items(items: Seq<DocView>, base: int, acc: Seq<(Seq<char>, DocView)>)
    requires
        doc_seq_wf(items),
        0 <= base,
        base + items.len() <= i64::MAX + 1,
        forall|k: int, j: int|
            #![trigger acc[k], int_text(base + j)]
            0 <= k < acc.len() && 0 <= j < items.len() ==> acc[k].0 != int_text(base + j),
    ensures
        dec_table(enc_items(items, base), acc) == Ok::<_, ConvertError>(acc + restructure_items(items, base)),
    decreases items,
{
    if items.len() == 0 {
        assert(acc + restructure_items(items, base) =~= acc);
    } else {
        let key = int_text(base);
        let first = restructure(items[0]);
        assert(enc_items(items, base)[0] == (KeyView::Int(base as i64), enc(items[0])));
        assert(key_text(KeyView::Int(base as i64)) == Ok::<Seq<char>, ConvertError>(key));
        assert(items[0].wf() && doc_seq_wf(items.drop_first()));
        lemma_decode_of_encode(items[0]);
        assert forall|k: int| 0 <= k < acc.len() implies (#[trigger] acc[k]).0 != key by {
            assert(acc[k].0 != int_text(base + 0));
        }
        lemma_obj_insert_absent(acc, key, first);
        let acc2 = acc.push((key, first));
        assert(enc_items(items, base).drop_first() =~= enc_items(items.drop_first(), base + 1));
        assert forall|k: int, j: int|
            #![trigger acc2[k], int_text(base + 1 + j)]
            0 <= k < acc2.len() && 0 <= j < items.drop_first().len() implies acc2[k].0 != int_text(
            base + 1 + j,
        ) by {
            if k < acc.len() {
                assert(acc2[k] == acc[k]);
                assert(acc[k].0 != int_text(base + (j + 1)));
            } else {
                assert(acc2[k].0 == int_text(base));
                if int_text(base) == int_text(base + 1 + j) {
                    lemma_nat_text_injective(base as nat, (base + 1 + j) as nat);
                }
            }
        }
        lemma_dec_enc_items(items.drop_first(), base + 1, acc2);
        assert(acc + restructure_items(items, base) =~= acc2 + restructure_items(
            items.drop_first(),
            base + 1,
        ));
    }
}

/// Decoding the encoded pairs of an object with unique keys extends the
/// already decoded pairs with the same pairs, values restructured, in order.
proof fn lemma_dec_enc_pairs(pairs: Seq<(Seq<char>, DocView)>, acc: Seq<(Seq<char>, DocView)>)
    requires
        doc_pairs_wf(pairs),
        unique_keys(pairs),
        forall|k: int, j: int|
            0 <= k < acc.len() && 0 <= j < pairs.len() ==> (#[trigger] acc[k].0) != (
            #[trigger] pairs[j].0),
    ensures
        dec_table(enc_pairs(pairs), acc) == Ok::<_, ConvertError>(acc + restructure_pairs(pairs)),
    decreases pairs,
{
    if pairs.len() == 0 {
        assert(acc + restructure_pairs(pairs) =~= acc);
    } else {
        let key = pairs[0].0;
        let first = restructure(pairs[0].1);
        assert(enc_pairs(pairs)[0] == (KeyView::Text(encode_utf8(key)), enc(pairs[0].1)));
        encode_utf8_valid_utf8(key);
        encode_utf8_decode_utf8(key);
        assert(key_text(KeyView::Text(encode_utf8(key))) == Ok::<Seq<char>, ConvertError>(key));
        assert(pairs[0].1.wf() && doc_pairs_wf(pairs.drop_first()));
        lemma_decode_of_encode(pairs[0].1);
        assert forall|k: int| 0 <= k < acc.len() implies (#[trigger] acc[k]).0 != key by {
            assert(acc[k].0 != pairs[0].0);
        }
        lemma_obj_insert_absent(acc, key, first);
        let acc2 = acc.push((key, first));
        assert(enc_pairs(pairs).drop_first() =~= enc_pairs(pairs.drop_first()));
        assert forall|k: int, j: int|
            0 <= k < acc2.len() && 0 <= j < pairs.drop_first().len() implies (#[trigger] acc2[k].0)
            != (#[trigger] pairs.drop_first()[j].0) by {
            assert(pairs.drop_first()[j] == pairs[j + 1]);
            if k < acc.len() {
                assert(acc2[k] == acc[k]);
                assert(acc[k].0 != pairs[j + 1].0);
            } else {
                assert(acc2[k].0 == pairs[0].0);
                assert(pairs[0].0 != pairs[j + 1].0);
            }
        }
        assert forall|i: int, j: int|
            0 <= i < j < pairs.drop_first().len() implies (#[trigger] pairs.drop_first()[i].0) != (
        #[trigger] pairs.drop_first()[j].0) by {
            assert(pairs.drop_first()[i] == pairs[i + 1]);
            assert(pairs.drop_first()[j] == pairs[j + 1]);
            assert(pairs[i + 1].0 != pairs[j + 1].0);
        }
        lemma_dec_enc_pairs(pairs.drop_first(), acc2);
        assert(acc + restructure_pairs(pairs) =~= acc2 + restructure_pairs(pairs.drop_first()));
    }
}

/// The round-trip law: decoding the encoding of any well-formed document
/// value succeeds and yields exactly its restructuring — leaves and object
/// pairs preserved, arrays read back as objects keyed "0", "1", ...
pub proof fn lemma_decode_of_encode(d: DocView)
    requires
        d.wf(),
    ensures
        dec(enc(d)) == Ok::<DocView, ConvertError>(restructure(d)),
    decreases d,
{
    match d {
        DocView::Null => {},
        DocView::Bool(_) => {},
        DocView::Num(_) => {},
        DocView::Text(t) => {
            encode_utf8_valid_utf8(t);
            encode_utf8_decode_utf8(t);
        },
        DocView::Array(items) => {
            lemma_dec_enc_items(items, 0, Seq::empty());
            assert(Seq::empty() + restructure_items(items, 0) =~= restructure_items(items, 0));
        },
        DocView::Object(pairs) => {
            lemma_dec_enc_pairs(pairs, Seq::empty());
            assert(Seq::empty() + restructure_pairs(pairs) =~= restructure_pairs(pairs));
        },
    }
}


/// True when no array stands anywhere in the document value.
pub open spec fn array_free(d: DocView) -> bool
    decreases d,
{
    match d {
        DocView::Null => true,
        DocView::Bool(_) => true,
        DocView::Num(_) => true,
        DocView::Text(_) => true,
        DocView::Array(_) => false,
        DocView::Object(pairs) => pairs_array_free(pairs),
    }
}

/// True when no array stands anywhere among the pair values.
pub open spec fn pairs_array_free(pairs: Seq<(Seq<char>, DocView)>) -> bool
    decreases pairs,
{
    pairs.len() == 0 || (array_free(pairs[0].1) && pairs_array_free(pairs.drop_first()))
}

/// A round trip restructures nothing in an array-free document value.
proof fn lemma_restructure_identity(d: DocView)
    requires
        array_free(d),
    ensures
        restructure(d) == d,
    decreases d,
{
    match d {
        DocView::Object(pairs) => {
            lemma_restructure_pairs_identity(pairs);
        },
        _ => {},
    }
}

/// A round trip restructures nothing among array-free pair values.
proof fn lemma_restructure_pairs_identity(pairs: Seq<(Seq<char>, DocView)>)
    requires
        pairs_array_free(pairs),
    ensures
        restructure_pairs(pairs) == pairs,
    decreases pairs,
{
    if pairs.len() > 0 {
        lemma_restructure_identity(pairs[0].1);
        lemma_restructure_pairs_identity(pairs.drop_first());
        assert(restructure_pairs(pairs) =~= pairs);
    }
}

/// The exact round-trip law: a well-formed document value without arrays
/// decodes from its encoding unchanged, value for value.
pub proof fn lemma_round_trip(d: DocView)
    requires
        d.wf(),
        array_free(d),
    ensures
        dec(enc(d)) == Ok::<DocView, ConvertError>(d),
{
    lemma_decode_of_encode(d);
    lemma_restructure_identity(d);
}

/// A boolean survives the round trip exactly, whichever it is.
pub proof fn lemma_bool_round_trip(b: bool)
    ensures
        dec(enc(DocView::Bool(b))) == Ok::<DocView, ConvertError>(DocView::Bool(b)),
{
}

/// Null encodes to nil, and nil decodes to null.
pub proof fn lemma_null_nil()
    ensures
        enc(DocView::Null) == DynView::Nil,
        dec(DynView::Nil) == Ok::<DocView, ConvertError>(DocView::Null),
{
}

/// The host-only dynamic value of each kind.
pub open spec fn host_view(k: HostKind) -> DynView {
    match k {
        HostKind::Function => DynView::Function,
        HostKind::Thread => DynView::Thread,
        HostKind::UserData => DynView::UserData,
        HostKind::LightUserData => DynView::LightUserData,
        HostKind::RuntimeError => DynView::RuntimeError,
        HostKind::Other => DynView::Other,
    }
}

/// Every host-only dynamic value fails to decode, with the error naming
/// exactly its kind — no panic, no partial result.
pub proof fn lemma_host_only_unconvertible(k: HostKind)
    ensures
        dec(host_view(k)) == Err::<DocView, ConvertError>(ConvertError::UnconvertibleType(k)),
{
}

/// A byte sequence that is not valid UTF-8 fails decoding with
/// `InvalidEncoding`, as a string value and as a string key alike — it is
/// never patched up with replacement characters.
pub proof fn lemma_invalid_utf8_rejected(bytes: Seq<u8>, v: DynView)
    requires
        !valid_utf8(bytes),
    ensures
        dec(DynView::Text(bytes)) == Err::<DocView, ConvertError>(ConvertError::InvalidEncoding),
        dec(DynView::Table(seq![(KeyView::Text(bytes), v)])) == Err::<DocView, ConvertError>(
            ConvertError::InvalidEncoding,
        ),
{
    let pairs = seq![(KeyView::Text(bytes), v)];
    assert(key_text(pairs[0].0) == Err::<Seq<char>, ConvertError>(ConvertError::InvalidEncoding));
}


/// True when some pair carries the key.
pub open spec fn has_key(pairs: Seq<(Seq<char>, DocView)>, key: Seq<char>) -> bool {
    exists|i: int| 0 <= i < pairs.len() && (#[trigger] pairs[i]).0 == key
}

/// Insertion keeps keys unique and values well-formed, and brings in no key
/// but its own.
proof fn lemma_obj_insert_wf(pairs: Seq<(Seq<char>, DocView)>, key: Seq<char>, val: DocView)
    requires
        unique_keys(pairs),
        doc_pairs_wf(pairs),
        val.wf(),
    ensures
        unique_keys(obj_insert(pairs, key, val)),
        doc_pairs_wf(obj_insert(pairs, key, val)),
        forall|j: int|
            0 <= j < obj_insert(pairs, key, val).len() ==> (#[trigger] obj_insert(
                pairs,
                key,
                val,
            )[j]).0 == key || has_key(pairs, obj_insert(pairs, key, val)[j].0),
    decreases pairs,
{
    let r = obj_insert(pairs, key, val);
    if pairs.len() == 0 {
        assert(doc_pairs_wf(r)) by {
            assert(r =~= seq![(key, val)]);
            assert(r[0].1 == val);
            assert(r.drop_first().len() == 0);
            assert(doc_pairs_wf(r.drop_first()));
        }
    } else if pairs[0].0 == key {
        assert(doc_pairs_wf(r)) by {
            assert(r.drop_first() =~= pairs.drop_first());
            assert(doc_pairs_wf(pairs.drop_first()));
        }
        assert forall|i: int, j: int| 0 <= i < j < r.len() implies (#[trigger] r[i].0) != (
        #[trigger] r[j].0) by {
            assert(r[j].0 == pairs[j].0);
            if i > 0 {
                assert(r[i].0 == pairs[i].0);
            }
        }
        assert forall|j: int| 0 <= j < r.len() implies (#[trigger] r[j]).0 == key || has_key(
            pairs,
            r[j].0,
        ) by {
            if j > 0 {
                assert(pairs[j].0 == r[j].0);
            }
        }
    } else {
        assert(pairs.drop_first()[0] == pairs[1] || pairs.drop_first().len() == 0);
        assert forall|i: int, j: int|
            0 <= i < j < pairs.drop_first().len() implies (#[trigger] pairs.drop_first()[i].0) != (
        #[trigger] pairs.drop_first()[j].0) by {
            assert(pairs.drop_first()[i] == pairs[i + 1]);
            assert(pairs.drop_first()[j] == pairs[j + 1]);
            assert(pairs[i + 1].0 != pairs[j + 1].0);
        }
        lemma_obj_insert_wf(pairs.drop_first(), key, val);
        let inner = obj_insert(pairs.drop_first(), key, val);
        assert forall|j: int| 0 <= j < r.len() implies (#[trigger] r[j]).0 == key || has_key(
            pairs,
            r[j].0,
        ) by {
            if j == 0 {
                assert(pairs[0].0 == r[0].0);
            } else {
                assert(r[j] == inner[j - 1]);
                if inner[j - 1].0 != key {
                    let w = choose|i: int|
                        0 <= i < pairs.drop_first().len() && (#[trigger] pairs.drop_first()[i]).0
                            == inner[j - 1].0;
                    assert(pairs[w + 1].0 == inner[j - 1].0);
                }
            }
        }
        assert forall|i: int, j: int| 0 <= i < j < r.len() implies (#[trigger] r[i].0) != (
        #[trigger] r[j].0) by {
            if i == 0 {
                assert(r[0] == pairs[0]);
                assert(r[j] == inner[j - 1]);
                if inner[j - 1].0 == key {
                } else {
                    let w = choose|i2: int|
                        0 <= i2 < pairs.drop_first().len() && (#[trigger] pairs.drop_first()[i2]).0
                            == inner[j - 1].0;
                    assert(pairs[w + 1].0 == inner[j - 1].0);
                    assert(pairs[0].0 != pairs[w + 1].0);
                }
            } else {
                assert(r[i] == inner[i - 1]);
                assert(r[j] == inner[j - 1]);
            }
        }
        assert(doc_pairs_wf(r)) by {
            assert(r.drop_first() =~= inner);
            assert(pairs[0].1.wf());
        }
    }
}

/// Decoding a table's pairs onto well-formed accumulated pairs keeps keys
/// unique and values well-formed.
proof fn lemma_dec_table_wf(pairs: Seq<(KeyView, DynView)>, acc: Seq<(Seq<char>, DocView)>)
    requires
        unique_keys(acc),
        doc_pairs_wf(acc),
    ensures
        dec_table(pairs, acc) matches Ok(obj) ==> unique_keys(obj) && doc_pairs_wf(obj),
    decreases pairs,
{
    if pairs.len() > 0 {
        match key_text(pairs[0].0) {
            Err(_) => {},
            Ok(k) => match dec(pairs[0].1) {
                Err(_) => {},
                Ok(v) => {
                    lemma_decode_wf(pairs[0].1);
                    lemma_obj_insert_wf(acc, k, v);
                    lemma_dec_table_wf(pairs.drop_first(), obj_insert(acc, k, v));
                },
            },
        }
    }
}

/// Whatever decodes, decodes to a well-formed document value: no object
/// with duplicate keys ever comes out of the bridge.
pub proof fn lemma_decode_wf(d: DynView)
    ensures
        dec(d) matches Ok(doc) ==> doc.wf(),
    decreases d,
{
    match d {
        DynView::Table(pairs) => {
            lemma_dec_table_wf(pairs, Seq::empty());
        },
        _ => {},
    }
}

} // verus!
