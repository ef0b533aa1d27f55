//! The bridge itself: `encode` lowers a document value into the runtime's
//! dynamic value model, `decode` lifts a dynamic value back into a document
//! value or reports exactly why it cannot.
//!
//! Numeric policy: this bridge converts numbers directly — an integer number
//! becomes a runtime integer and a float number becomes a runtime float,
//! bit pattern for bit pattern. Under this policy, and with floats carried
//! as bit patterns, every number converts, so encoding is total.
//!
//! Table policy: an array encodes as a table keyed 0, 1, 2, ... in order; an
//! object encodes as a table keyed by its string keys in order. Decoding
//! always reads a table as a string-keyed object — the array/map duality of
//! the runtime's single container is not reconstructed, so an encoded array
//! decodes as an object with keys "0", "1", ... This asymmetry is deliberate
//! and documented. When two table keys coerce to the same string key, the
//! later pair replaces the value of the earlier one, in place.

use crate::text::{bytes_to_string, format_int, int_text, text_to_bytes};
use crate::value::{
    ConvertError, DocView, Document, DynView, Dynamic, HostKind, Key, KeyView, Num,
};
use crate::value::{
    doc_pairs_model, doc_seq_model, dyn_pairs_model, lemma_doc_pairs_model, lemma_doc_seq_model,
    lemma_dyn_pairs_model,
};
use vstd::prelude::*;
use vstd::utf8::{decode_utf8, encode_utf8, valid_utf8};

verus! {

/// What encoding makes of an array's elements: a table pair sequence keyed
/// `base`, `base + 1`, ... in element order.
pub open spec fn enc_items(items: Seq<DocView>, base: int) -> Seq<(KeyView, DynView)>
    decreases items,
{
    if items.len() == 0 {
        Seq::empty()
    } else {
        seq![(KeyView::Int(base as i64), enc(items[0]))] + enc_items(items.drop_first(), base + 1)
    }
}

/// What encoding makes of an object's pairs: a table pair sequence with each
/// key as its UTF-8 bytes, in pair order.
pub open spec fn enc_pairs(pairs: Seq<(Seq<char>, DocView)>) -> Seq<(KeyView, DynView)>
    decreases pairs,
{
    if pairs.len() == 0 {
        Seq::empty()
    } else {
        seq![(KeyView::Text(encode_utf8(pairs[0].0)), enc(pairs[0].1))] + enc_pairs(
            pairs.drop_first(),
        )
    }
}

/// The encoding of a document value as a dynamic value. Total: every
/// document value has an encoding under the direct numeric policy.
pub open spec fn enc(d: DocView) -> DynView
    decreases d,
{
    match d {
        DocView::Null => DynView::Nil,
        DocView::Bool(b) => DynView::Bool(b),
        DocView::Num(n) => match n {
            Num::Int(i) => DynView::Int(i),
            Num::Float(bits) => DynView::Float(bits),
        },
        DocView::Text(t) => DynView::Text(encode_utf8(t)),
        DocView::Array(items) => DynView::Table(enc_items(items, 0)),
        DocView::Object(pairs) => DynView::Table(enc_pairs(pairs)),
    }
}

/// The string key that a table key coerces to, or the error that coercion
/// reports: a byte-string key must be valid UTF-8, an integer key reads in
/// decimal, and any other key has no string coercion.
pub open spec fn key_text(k: KeyView) -> Result<Seq<char>, ConvertError> {
    match k {
        KeyView::Text(bytes) => if valid_utf8(bytes) {
            Ok(decode_utf8(bytes))
        } else {
            Err(ConvertError::InvalidEncoding)
        },
        KeyView::Int(i) => Ok(int_text(i as int)),
        KeyView::NonText => Err(ConvertError::NonStringKey),
    }
}

/// Insertion into an object's pair sequence: a pair with the same key is
/// replaced in place, otherwise the new pair is appended.
pub open spec fn obj_insert(
    pairs: Seq<(Seq<char>, DocView)>,
    key: Seq<char>,
    val: DocView,
) -> Seq<(Seq<char>, DocView)>
    decreases pairs,
{
    if pairs.len() == 0 {
        seq![(key, val)]
    } else if pairs[0].0 == key {
        seq![(key, val)] + pairs.drop_first()
    } else {
        seq![pairs[0]] + obj_insert(pairs.drop_first(), key, val)
    }
}

/// The decoding of a table's pairs into an object's pairs, left to right,
/// starting from the already decoded pairs `acc`. The first failing pair
/// fails the whole table.
pub open spec fn dec_table(
    pairs: Seq<(KeyView, DynView)>,
    acc: Seq<(Seq<char>, DocView)>,
) -> Result<Seq<(Seq<char>, DocView)>, ConvertError>
    decreases pairs,
{
    if pairs.len() == 0 {
        Ok(acc)
    } else {
        match key_text(pairs[0].0) {
            Err(e) => Err(e),
            Ok(k) => match dec(pairs[0].1) {
                Err(e) => Err(e),
                Ok(v) => dec_table(pairs.drop_first(), obj_insert(acc, k, v)),
            },
        }
    }
}

/// The decoding of a dynamic value as a document value, or the exact error:
/// a byte string that is not valid UTF-8 is `InvalidEncoding`, a table key
/// without a string coercion is `NonStringKey`, and every host-only value is
/// `UnconvertibleType` naming its variant. All other values decode, and a
/// composite fails atomically with its first failing part.
pub open spec fn dec(d: DynView) -> Result<DocView, ConvertError>
    decreases d,
{
    match d {
        DynView::Nil => Ok(DocView::Null),
        DynView::Bool(b) => Ok(DocView::Bool(b)),
        DynView::Int(i) => Ok(DocView::Num(Num::Int(i))),
        DynView::Float(bits) => Ok(DocView::Num(Num::Float(bits))),
        DynView::Text(bytes) => if valid_utf8(bytes) {
            Ok(DocView::Text(decode_utf8(bytes)))
        } else {
            Err(ConvertError::InvalidEncoding)
        },
        DynView::Table(pairs) => match dec_table(pairs, Seq::empty()) {
            Ok(obj) => Ok(DocView::Object(obj)),
            Err(e) => Err(e),
        },
        DynView::Function => Err(ConvertError::UnconvertibleType(HostKind::Function)),
        DynView::Thread => Err(ConvertError::UnconvertibleType(HostKind::Thread)),
        DynView::UserData => Err(ConvertError::UnconvertibleType(HostKind::UserData)),
        DynView::LightUserData => Err(ConvertError::UnconvertibleType(HostKind::LightUserData)),
        DynView::RuntimeError => Err(ConvertError::UnconvertibleType(HostKind::RuntimeError)),
        DynView::Other => Err(ConvertError::UnconvertibleType(HostKind::Other)),
    }
}

/// The model of a decode result: the document's model on success, the same
/// error on failure.
pub open spec fn dec_result_model(r: Result<Document, ConvertError>) -> Result<
    DocView,
    ConvertError,
> {
    match r {
        Ok(doc) => Ok(doc.model()),
        Err(e) => Err(e),
    }
}

/// The table pairs an array encodes to, index by index: key `base + j`,
/// value the element's encoding.
pub proof fn lemma_enc_items(items: Seq<DocView>, base: int)
    ensures
        enc_items(items, base).len() == items.len(),
        forall|j: int|
            0 <= j < items.len() ==> #[trigger] enc_items(items, base)[j] == (
            KeyView::Int((base + j) as i64),
            enc(items[j]),
            ),
    decreases items.len(),
{
    if items.len() > 0 {
        lemma_enc_items(items.drop_first(), base + 1);
    }
}

/// The table pairs an object encodes to, index by index: the key's UTF-8
/// bytes and the value's encoding.
pub proof fn lemma_enc_pairs(pairs: Seq<(Seq<char>, DocView)>)
    ensures
        enc_pairs(pairs).len() == pairs.len(),
        forall|j: int|
            0 <= j < pairs.len() ==> #[trigger] enc_pairs(pairs)[j] == (
            KeyView::Text(encode_utf8(pairs[j].0)),
            enc(pairs[j].1),
            ),
    decreases pairs.len(),
{
    if pairs.len() > 0 {
        lemma_enc_pairs(pairs.drop_first());
    }
}


/// Encodes a document value as a dynamic value: null to nil, booleans and
/// numbers to their runtime counterparts, text to its UTF-8 bytes, an array
/// to a table keyed 0, 1, 2, ... in order, an object to a table keyed by its
/// string keys in order. Total under the direct numeric policy.
pub fn encode(d: &Document) -> (r: Dynamic)
    ensures
        r@ == enc(d@),
    decreases *d,
{
    match d {
        Document::Null => Dynamic::Nil,
        Document::Bool(b) => Dynamic::Bool(*b),
        Document::Num(n) => match n {
            Num::Int(i) => Dynamic::Int(*i),
            Num::Float(bits) => Dynamic::Float(*bits),
        },
        Document::Text(s) => Dynamic::Text(text_to_bytes(s.as_str())),
        Document::Array(items) => {
            let n: usize = items.len();
            let mut out: Vec<(Key, Dynamic)> = Vec::new();
            let mut i: usize = 0;
            while i < n
                invariant
                    *d == Document::Array(*items),
                    n == items@.len(),
                    i <= n,
                    out@.len() == i,
                    forall|j: int|
                        0 <= j < i ==> (#[trigger] out@[j]).0@ == KeyView::Int(j as i64)
                            && out@[j].1@ == enc(items@[j]@),
                decreases n - i,
            {
                proof {
                    assert(decreases_to!(*d => (*d)->Array_0));
                    assert((*d)->Array_0 == *items);
                    assert(decreases_to!(*items => items[i as int]));
                }
                let v = encode(&items[i]);
                let k: i64 = #[verifier::truncate] (i as i64);
                out.push((Key::Int(k), v));
                i = i + 1;
            }
            proof {
                lemma_doc_seq_model(items@);
                lemma_enc_items(doc_seq_model(items@), 0);
                lemma_dyn_pairs_model(out@);
                assert(dyn_pairs_model(out@) =~= enc_items(doc_seq_model(items@), 0));
            }
            Dynamic::Table(out)
        },
        Document::Object(pairs) => {
            let n: usize = pairs.len();
            let mut out: Vec<(Key, Dynamic)> = Vec::new();
            let mut i: usize = 0;
            while i < n
                invariant
                    *d == Document::Object(*pairs),
                    n == pairs@.len(),
                    i <= n,
                    out@.len() == i,
                    forall|j: int|
                        0 <= j < i ==> (#[trigger] out@[j]).0@ == KeyView::Text(
                            encode_utf8(pairs@[j].0@),
                        ) && out@[j].1@ == enc(pairs@[j].1@),
                decreases n - i,
            {
                proof {
                    assert(decreases_to!(*d => (*d)->Object_0));
                    assert((*d)->Object_0 == *pairs);
                    assert(decreases_to!(*pairs => pairs[i as int]));
                    assert(decreases_to!(pairs[i as int] => pairs[i as int].1));
                }
                let kb = text_to_bytes(pairs[i].0.as_str());
                let v = encode(&pairs[i].1);
                out.push((Key::Text(kb), v));
                i = i + 1;
            }
            proof {
                lemma_doc_pairs_model(pairs@);
                lemma_enc_pairs(doc_pairs_model(pairs@));
                lemma_dyn_pairs_model(out@);
                assert(dyn_pairs_model(out@) =~= enc_pairs(doc_pairs_model(pairs@)));
            }
            Dynamic::Table(out)
        },
    }
}


/// When no existing pair has the key, insertion appends the new pair.
pub proof fn lemma_obj_insert_absent(
    pairs: Seq<(Seq<char>, DocView)>,
    key: Seq<char>,
    val: DocView,
)
    requires
        forall|j: int| 0 <= j < pairs.len() ==> (#[trigger] pairs[j]).0 != key,
    ensures
        obj_insert(pairs, key, val) == pairs.push((key, val)),
    decreases pairs.len(),
{
    if pairs.len() == 0 {
        assert(obj_insert(pairs, key, val) =~= pairs.push((key, val)));
    } else {
        lemma_obj_insert_absent(pairs.drop_first(), key, val);
        assert(obj_insert(pairs, key, val) =~= pairs.push((key, val)));
    }
}

/// When the first pair with the key stands at `i`, insertion replaces its
/// value in place.
pub proof fn lemma_obj_insert_found(
    pairs: Seq<(Seq<char>, DocView)>,
    key: Seq<char>,
    val: DocView,
    i: int,
)
    requires
        0 <= i < pairs.len(),
        pairs[i].0 == key,
        forall|j: int| 0 <= j < i ==> (#[trigger] pairs[j]).0 != key,
    ensures
        obj_insert(pairs, key, val) == pairs.update(i, (key, val)),
    decreases pairs.len(),
{
    if i == 0 {
        assert(obj_insert(pairs, key, val) =~= pairs.update(0, (key, val)));
    } else {
        lemma_obj_insert_found(pairs.drop_first(), key, val, i - 1);
        assert(obj_insert(pairs, key, val) =~= pairs.update(i, (key, val)));
    }
}

/// Inserts a decoded pair into an object's pairs: the pair with the same
/// key, if any, has its value replaced in place, otherwise the new pair is
/// appended.
fn insert_pair(obj: &mut Vec<(String, Document)>, key: String, val: Document)
    ensures
        doc_pairs_model(final(obj)@) == obj_insert(doc_pairs_model(old(obj)@), key@, val@),
{
    let n: usize = obj.len();
    let mut i: usize = 0;
    while i < n
        invariant
            obj@ == old(obj)@,
            n == obj@.len(),
            i <= n,
            forall|j: int| 0 <= j < i ==> (#[trigger] obj@[j]).0@ != key@,
        decreases n - i,
    {
        if obj[i].0 == key {
            proof {
                lemma_doc_pairs_model(obj@);
                lemma_obj_insert_found(doc_pairs_model(obj@), key@, val@, i as int);
                lemma_doc_pairs_model(obj@.update(i as int, (key, val)));
                assert(doc_pairs_model(obj@.update(i as int, (key, val))) =~= doc_pairs_model(
                    obj@,
                ).update(i as int, (key@, val@)));
            }
            obj.remove(i);
            obj.insert(i, (key, val));
            proof {
                assert(old(obj)@.remove(i as int).insert(i as int, (key, val)) =~= old(
                    obj,
                )@.update(i as int, (key, val)));
            }
            return ;
        }
        i = i + 1;
    }
    proof {
        lemma_doc_pairs_model(obj@);
        lemma_obj_insert_absent(doc_pairs_model(obj@), key@, val@);
        lemma_doc_pairs_model(obj@.push((key, val)));
        assert(doc_pairs_model(obj@.push((key, val))) =~= doc_pairs_model(obj@).push(
            (key@, val@),
        ));
    }
    obj.push((key, val));
}


/// Decodes a dynamic value as a document value: nil to null, booleans and
/// numbers back exactly, a byte string to text when it is valid UTF-8, and
/// a table to an object read pair by pair, each key coerced to a string
/// key. Fails with `InvalidEncoding` on a byte string (value or key) that
/// is not valid UTF-8, with `NonStringKey` on a key that has no string
/// coercion, and with `UnconvertibleType` naming the variant on every
/// host-only value; a composite fails atomically with its first failing
/// part, and never panics.
pub fn decode(d: &Dynamic) -> (r: Result<Document, ConvertError>)
    ensures
        dec_result_model(r) == dec(d@),
    decreases *d,
{
    match d {
        Dynamic::Nil => Ok(Document::Null),
        Dynamic::Bool(b) => Ok(Document::Bool(*b)),
        Dynamic::Int(i) => Ok(Document::Num(Num::Int(*i))),
        Dynamic::Float(bits) => Ok(Document::Num(Num::Float(*bits))),
        Dynamic::Text(bytes) => match bytes_to_string(bytes) {
            Some(s) => Ok(Document::Text(s)),
            None => Err(ConvertError::InvalidEncoding),
        },
        Dynamic::Table(pairs) => {
            let n: usize = pairs.len();
            let mut obj: Vec<(String, Document)> = Vec::new();
            let mut i: usize = 0;
            proof {
                lemma_dyn_pairs_model(pairs@);
                assert(dyn_pairs_model(pairs@).skip(0) =~= dyn_pairs_model(pairs@));
                assert(doc_pairs_model(obj@) =~= Seq::<(Seq<char>, DocView)>::empty());
            }
            while i < n
                invariant
                    *d == Dynamic::Table(*pairs),
                    n == pairs@.len(),
                    i <= n,
                    dec_table(dyn_pairs_model(pairs@), Seq::empty()) == dec_table(
                        dyn_pairs_model(pairs@).skip(i as int),
                        doc_pairs_model(obj@),
                    ),
                decreases n - i,
            {
                let ghost rest = dyn_pairs_model(pairs@).skip(i as int);
                proof {
                    lemma_dyn_pairs_model(pairs@);
                    assert(rest.len() == n - i);
                    assert(rest[0] == (pairs@[i as int].0@, pairs@[i as int].1@));
                    assert(rest.drop_first() =~= dyn_pairs_model(pairs@).skip(i as int + 1));
                }
                let key_string: String = match &pairs[i].0 {
                    Key::Text(bytes) => match bytes_to_string(bytes) {
                        Some(s) => s,
                        None => {
                            return Err(ConvertError::InvalidEncoding);
                        },
                    },
                    Key::Int(k) => format_int(*k),
                    Key::NonText => {
                        return Err(ConvertError::NonStringKey);
                    },
                };
                proof {
                    assert(key_text(pairs@[i as int].0@) == Ok::<Seq<char>, ConvertError>(
                        key_string@,
                    ));
                    assert(decreases_to!(*d => (*d)->Table_0));
                    assert((*d)->Table_0 == *pairs);
                    assert(decreases_to!(*pairs => pairs[i as int]));
                    assert(decreases_to!(pairs[i as int] => pairs[i as int].1));
                }
                let val: Document = match decode(&pairs[i].1) {
                    Ok(doc) => doc,
                    Err(e) => {
                        return Err(e);
                    },
                };
                insert_pair(&mut obj, key_string, val);
                i = i + 1;
            }
            proof {
                lemma_dyn_pairs_model(pairs@);
                assert(dyn_pairs_model(pairs@).skip(i as int) =~= Seq::<(
                    KeyView,
                    DynView,
                )>::empty());
            }
            Ok(Document::Object(obj))
        },
        Dynamic::Function => Err(ConvertError::UnconvertibleType(HostKind::Function)),
        Dynamic::Thread => Err(ConvertError::UnconvertibleType(HostKind::Thread)),
        Dynamic::UserData => Err(ConvertError::UnconvertibleType(HostKind::UserData)),
        Dynamic::LightUserData => Err(ConvertError::UnconvertibleType(HostKind::LightUserData)),
        Dynamic::RuntimeError => Err(ConvertError::UnconvertibleType(HostKind::RuntimeError)),
        Dynamic::Other => Err(ConvertError::UnconvertibleType(HostKind::Other)),
    }
}

} // verus!
