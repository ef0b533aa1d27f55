//! The two value models of the bridge, with their mathematical views.
//!
//! `Document` is the structured, serialization-friendly union: null, boolean,
//! number, UTF-8 text, ordered array, string-keyed object with unique keys.
//! `Dynamic` is the scripting runtime's union: nil, boolean, 64-bit integer,
//! 64-bit float, byte string, associative table, and host-only values that
//! have no `Document` counterpart.
//!
//! Both are modeled at the specification level by `DocView`, `DynView` and
//! `KeyView`, which replace `Vec` and `String` by `Seq`.
//!
//! Floats never undergo arithmetic in this library: a float travels through
//! the bridge as its 64-bit IEEE-754 bit pattern, so conversion is bit-exact.

use vstd::prelude::*;

verus! {

/// A document number: either an exact signed 64-bit integer or a 64-bit
/// float carried as its IEEE-754 bit pattern.
#[derive(Debug, Clone, Copy, PartialEq, Eq, Structural)]
pub enum Num {
    /// An exactly represented signed integer.
    Int(i64),
    /// The bit pattern of a 64-bit IEEE-754 float.
    Float(u64),
}

/// The structured document value union.
#[derive(Debug, PartialEq, Eq)]
pub enum Document {
    /// The absent value.
    Null,
    /// A boolean.
    Bool(bool),
    /// A number, integer or floating.
    Num(Num),
    /// UTF-8 text.
    Text(String),
    /// An ordered sequence of document values.
    Array(Vec<Document>),
    /// A mapping from UTF-8 string keys to document values; keys are unique
    /// and kept in insertion order, though the order carries no meaning.
    Object(Vec<(String, Document)>),
}

/// A table key on the dynamic side, as far as the bridge reads it: a byte
/// string, an integer, or some other key that has no string coercion.
#[derive(Debug, PartialEq, Eq)]
pub enum Key {
    /// A runtime string key: raw bytes, not necessarily valid UTF-8.
    Text(Vec<u8>),
    /// An integer key, as tables use for their sequence part.
    Int(i64),
    /// Any key without a string coercion (a boolean, a table, a function...).
    NonText,
}

/// The scripting runtime's dynamic value union.
#[derive(Debug, PartialEq, Eq)]
pub enum Dynamic {
    /// The absent value.
    Nil,
    /// A boolean.
    Bool(bool),
    /// A signed 64-bit integer.
    Int(i64),
    /// A 64-bit float, carried as its IEEE-754 bit pattern.
    Float(u64),
    /// A runtime string: raw bytes, not necessarily valid UTF-8.
    Text(Vec<u8>),
    /// The runtime's single associative container, used either as a
    /// 0-based sequence or as a string-keyed map by convention.
    Table(Vec<(Key, Dynamic)>),
    /// A host-only function value.
    Function,
    /// A host-only coroutine value.
    Thread,
    /// A host-only userdata object.
    UserData,
    /// A host-only light pointer value.
    LightUserData,
    /// A host-only runtime error object.
    RuntimeError,
    /// Any further host-specific value.
    Other,
}

/// Which host-only dynamic variant a failed decode encountered.
#[derive(Debug, Clone, Copy, PartialEq, Eq, Structural)]
pub enum HostKind {
    /// A function value.
    Function,
    /// A coroutine value.
    Thread,
    /// A userdata object.
    UserData,
    /// A light pointer value.
    LightUserData,
    /// A runtime error object.
    RuntimeError,
    /// Any further host-specific value.
    Other,
}

/// Why a conversion from the dynamic side failed.
#[derive(Debug, Clone, Copy, PartialEq, Eq, Structural)]
pub enum ConvertError {
    /// A runtime string (value or key) is not valid UTF-8.
    InvalidEncoding,
    /// A table key has no string coercion.
    NonStringKey,
    /// The dynamic value is host-only and has no document counterpart.
    UnconvertibleType(HostKind),
}

/// Specification-level model of a `Document`.
pub enum DocView {
    /// The absent value.
    Null,
    /// A boolean.
    Bool(bool),
    /// A number, integer or floating.
    Num(Num),
    /// UTF-8 text as a character sequence.
    Text(Seq<char>),
    /// An ordered sequence of document values.
    Array(Seq<DocView>),
    /// Key/value pairs of an object, in insertion order.
    Object(Seq<(Seq<char>, DocView)>),
}

/// Specification-level model of a `Key`.
pub enum KeyView {
    /// A runtime string key as a byte sequence.
    Text(Seq<u8>),
    /// An integer key.
    Int(i64),
    /// Any key without a string coercion.
    NonText,
}

/// Specification-level model of a `Dynamic`.
pub enum DynView {
    /// The absent value.
    Nil,
    /// A boolean.
    Bool(bool),
    /// A signed 64-bit integer.
    Int(i64),
    /// A 64-bit float, carried as its IEEE-754 bit pattern.
    Float(u64),
    /// A runtime string as a byte sequence.
    Text(Seq<u8>),
    /// Key/value pairs of a table, in iteration order.
    Table(Seq<(KeyView, DynView)>),
    /// A host-only function value.
    Function,
    /// A host-only coroutine value.
    Thread,
    /// A host-only userdata object.
    UserData,
    /// A host-only light pointer value.
    LightUserData,
    /// A host-only runtime error object.
    RuntimeError,
    /// Any further host-specific value.
    Other,
}

impl Document {
    /// The pairs of an object document value, handed out for direct use.
    /// Only an object may be handed in: handing in any other variant is a
    /// caller error, so the contract rules the other variants out.
    pub fn into_map(self) -> (r: Vec<(String, Document)>)
        requires
            self is Object,
        ensures
            self.model() == DocView::Object(doc_pairs_model(r@)),
    {
        match self {
            Document::Object(pairs) => pairs,
            _ => vstd::pervasive::unreached(),
        }
    }

    /// The mathematical model of this document value.
    pub open spec fn model(self) -> DocView
        decreases self,
    {
        match self {
            Document::Null => DocView::Null,
            Document::Bool(b) => DocView::Bool(b),
            Document::Num(n) => DocView::Num(n),
            Document::Text(s) => DocView::Text(s@),
            Document::Array(items) => DocView::Array(doc_seq_model(items@)),
            Document::Object(pairs) => DocView::Object(doc_pairs_model(pairs@)),
        }
    }
}

/// The models of a sequence of document values, element by element.
pub open spec fn doc_seq_model(items: Seq<Document>) -> Seq<DocView>
    decreases items,
{
    if items.len() == 0 {
        Seq::empty()
    } else {
        seq![items[0].model()] + doc_seq_model(items.drop_first())
    }
}

/// The models of an object's key/value pairs, pair by pair.
pub open spec fn doc_pairs_model(pairs: Seq<(String, Document)>) -> Seq<(Seq<char>, DocView)>
    decreases pairs,
{
    if pairs.len() == 0 {
        Seq::empty()
    } else {
        seq![(pairs[0].0@, pairs[0].1.model())] + doc_pairs_model(pairs.drop_first())
    }
}

impl Key {
    /// The mathematical model of this table key.
    pub open spec fn model(self) -> KeyView {
        match self {
            Key::Text(bytes) => KeyView::Text(bytes@),
            Key::Int(i) => KeyView::Int(i),
            Key::NonText => KeyView::NonText,
        }
    }
}

impl Dynamic {
    /// The mathematical model of this dynamic value.
    pub open spec fn model(self) -> DynView
        decreases self,
    {
        match self {
            Dynamic::Nil => DynView::Nil,
            Dynamic::Bool(b) => DynView::Bool(b),
            Dynamic::Int(i) => DynView::Int(i),
            Dynamic::Float(bits) => DynView::Float(bits),
            Dynamic::Text(bytes) => DynView::Text(bytes@),
            Dynamic::Table(pairs) => DynView::Table(dyn_pairs_model(pairs@)),
            Dynamic::Function => DynView::Function,
            Dynamic::Thread => DynView::Thread,
            Dynamic::UserData => DynView::UserData,
            Dynamic::LightUserData => DynView::LightUserData,
            Dynamic::RuntimeError => DynView::RuntimeError,
            Dynamic::Other => DynView::Other,
        }
    }
}

/// The models of a table's key/value pairs, pair by pair.
pub open spec fn dyn_pairs_model(pairs: Seq<(Key, Dynamic)>) -> Seq<(KeyView, DynView)>
    decreases pairs,
{
    if pairs.len() == 0 {
        Seq::empty()
    } else {
        seq![(pairs[0].0.model(), pairs[0].1.model())] + dyn_pairs_model(pairs.drop_first())
    }
}

impl View for Document {
    type V = DocView;

    open spec fn view(&self) -> DocView {
        self.model()
    }
}

impl View for Key {
    type V = KeyView;

    open spec fn view(&self) -> KeyView {
        self.model()
    }
}

impl View for Dynamic {
    type V = DynView;

    open spec fn view(&self) -> DynView {
        self.model()
    }
}

/// The model of a document sequence is its element models, index by index.
pub proof fn lemma_doc_seq_model(items: Seq<Document>)
    ensures
        doc_seq_model(items).len() == items.len(),
        forall|i: int|
            0 <= i < items.len() ==> #[trigger] doc_seq_model(items)[i] == items[i].model(),
    decreases items.len(),
{
    if items.len() > 0 {
        lemma_doc_seq_model(items.drop_first());
    }
}

/// The model of an object pair sequence is its pair models, index by index.
pub proof fn lemma_doc_pairs_model(pairs: Seq<(String, Document)>)
    ensures
        doc_pairs_model(pairs).len() == pairs.len(),
        forall|i: int|
            0 <= i < pairs.len() ==> #[trigger] doc_pairs_model(pairs)[i] == (
            pairs[i].0@,
            pairs[i].1.model(),
            ),
    decreases pairs.len(),
{
    if pairs.len() > 0 {
        lemma_doc_pairs_model(pairs.drop_first());
    }
}

/// The model of a table pair sequence is its pair models, index by index.
pub proof fn lemma_dyn_pairs_model(pairs: Seq<(Key, Dynamic)>)
    ensures
        dyn_pairs_model(pairs).len() == pairs.len(),
        forall|i: int|
            0 <= i < pairs.len() ==> #[trigger] dyn_pairs_model(pairs)[i] == (
            pairs[i].0.model(),
            pairs[i].1.model(),
            ),
    decreases pairs.len(),
{
    if pairs.len() > 0 {
        lemma_dyn_pairs_model(pairs.drop_first());
    }
}

impl DocView {
    /// Well-formedness of a document model: every object's keys are unique,
    /// and every array is short enough for each index to be an `i64` table
    /// key (a machine limit no allocated value can exceed).
    pub open spec fn wf(self) -> bool
        decreases self,
    {
        match self {
            DocView::Null => true,
            DocView::Bool(_) => true,
            DocView::Num(_) => true,
            DocView::Text(_) => true,
            DocView::Array(items) => items.len() <= i64::MAX && doc_seq_wf(items),
            DocView::Object(pairs) => unique_keys(pairs) && doc_pairs_wf(pairs),
        }
    }
}

/// No two pairs carry the same key.
pub open spec fn unique_keys(pairs: Seq<(Seq<char>, DocView)>) -> bool {
    forall|i: int, j: int|
        0 <= i < j < pairs.len() ==> (#[trigger] pairs[i].0) != (#[trigger] pairs[j].0)
}

/// Every document model in the sequence is well-formed.
pub open spec fn doc_seq_wf(items: Seq<DocView>) -> bool
    decreases items,
{
    items.len() == 0 || (items[0].wf() && doc_seq_wf(items.drop_first()))
}

/// Every value in the pair sequence is well-formed.
pub open spec fn doc_pairs_wf(pairs: Seq<(Seq<char>, DocView)>) -> bool
    decreases pairs,
{
    pairs.len() == 0 || (pairs[0].1.wf() && doc_pairs_wf(pairs.drop_first()))
}


} // verus!
