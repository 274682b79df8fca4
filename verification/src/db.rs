//! The keyed store, seen from the side of the library: namespaces over one
//! ordered store of byte keys, and the binary encoding of keys and heights.
//!
//! The library never touches the store. It names the physical key to read,
//! builds the operations to apply, and interprets what was read.

use vstd::bytes::{
    lemma_auto_spec_u128_to_from_le_bytes, lemma_auto_spec_u32_to_from_le_bytes,
    spec_u128_to_le_bytes, spec_u32_to_le_bytes, spec_u64_to_le_bytes,
};
use vstd::prelude::*;
use vstd::slice::{slice_subrange, slice_to_vec};
use vstd::utf8::encode_utf8;

use crate::error::{DecodeError, MoriError};
use crate::Mori;

verus! {

/// `bincode::ErrorKind`, the error of `bincode::serialize` and of
/// `bincode::deserialize`. The library carries it and claims nothing of it.
#[verifier::external_type_specification]
#[verifier::external_body]
pub struct ExErrorKind(bincode::ErrorKind);

/// The encoding of a `u128`: its 16 bytes, least significant first.
pub open spec fn u128_bytes(v: u128) -> Seq<u8> {
    spec_u128_to_le_bytes(v)
}

/// The encoding of a `u32`: its 4 bytes, least significant first.
pub open spec fn u32_bytes(v: u32) -> Seq<u8> {
    spec_u32_to_le_bytes(v)
}

/// The encoding of a text: the number of its UTF-8 bytes as a `u64`, least
/// significant byte first, and then those bytes.
pub open spec fn text_bytes(text: Seq<char>) -> Seq<u8> {
    spec_u64_to_le_bytes(encode_utf8(text).len() as u64) + encode_utf8(text)
}

/// `bincode::serialize` on a `u128`. With the configuration that this
/// function of bincode uses (fixed-width integers, little endian, no size
/// limit) and a `Vec` to write to, the call cannot fail and yields the 16
/// bytes of the value, least significant first.
#[verifier::external_body]
fn serialize_u128(value: u128) -> (r: Result<Vec<u8>, Box<bincode::ErrorKind>>)
    ensures
        r is Ok,
        r matches Ok(bytes) ==> bytes@ == u128_bytes(value),
{
    bincode::serialize(&value)
}

/// `bincode::serialize` on a `u32`: as for a `u128`, with 4 bytes.
#[verifier::external_body]
fn serialize_u32(value: u32) -> (r: Result<Vec<u8>, Box<bincode::ErrorKind>>)
    ensures
        r is Ok,
        r matches Ok(bytes) ==> bytes@ == u32_bytes(value),
{
    bincode::serialize(&value)
}

/// `bincode::serialize` on a string slice. The call cannot fail and yields
/// the length of the string in bytes as a `u64`, least significant byte
/// first, followed by the bytes of the string.
#[verifier::external_body]
fn serialize_str(value: &str) -> (r: Result<Vec<u8>, Box<bincode::ErrorKind>>)
    ensures
        r is Ok,
        r matches Ok(bytes) ==> bytes@ == text_bytes(value@),
{
    bincode::serialize(value)
}

/// `bincode::deserialize` to a `u32`. The call reads the first 4 bytes,
/// least significant first, and ignores what follows; it fails exactly
/// when there are fewer than 4 bytes.
#[verifier::external_body]
fn deserialize_u32(bytes: &[u8]) -> (r: Result<u32, Box<bincode::ErrorKind>>)
    ensures
        r is Ok <==> bytes@.len() >= 4,
        r matches Ok(value) ==> u32_bytes(value) == bytes@.subrange(0, 4),
{
    bincode::deserialize(bytes)
}

/// `bincode::deserialize` to a `u128`: as for a `u32`, with 16 bytes.
#[verifier::external_body]
fn deserialize_u128(bytes: &[u8]) -> (r: Result<u128, Box<bincode::ErrorKind>>)
    ensures
        r is Ok <==> bytes@.len() >= 16,
        r matches Ok(value) ==> u128_bytes(value) == bytes@.subrange(0, 16),
{
    bincode::deserialize(bytes)
}

/// The bytes that stand for a node id as a key.
pub fn encode_node_id(node_id: u128) -> (r: Result<Vec<u8>, MoriError>)
    ensures
        r is Ok,
        r matches Ok(bytes) ==> bytes@ == u128_bytes(node_id),
{
    match serialize_u128(node_id) {
        Ok(bytes) => Ok(bytes),
        Err(_) => Err(MoriError::Decode(DecodeError::Encoding)),
    }
}

/// The node id that a key stands for. Bytes after the sixteenth are ignored.
pub fn decode_node_id(bytes: &[u8]) -> (r: Result<u128, MoriError>)
    ensures
        r is Ok <==> bytes@.len() >= 16,
        r matches Ok(value) ==> u128_bytes(value) == bytes@.subrange(0, 16),
        r matches Err(e) ==> e == MoriError::Decode(DecodeError::Encoding),
{
    match deserialize_u128(bytes) {
        Ok(value) => Ok(value),
        Err(_) => Err(MoriError::Decode(DecodeError::Encoding)),
    }
}

/// The bytes that stand for a text as a key: an identity, a serial number.
pub fn encode_text(text: &str) -> (r: Result<Vec<u8>, MoriError>)
    ensures
        r is Ok,
        r matches Ok(bytes) ==> bytes@ == text_bytes(text@),
{
    match serialize_str(text) {
        Ok(bytes) => Ok(bytes),
        Err(_) => Err(MoriError::Decode(DecodeError::Encoding)),
    }
}

/// The bytes that stand for a height as a value.
pub fn encode_height(height: u32) -> (r: Result<Vec<u8>, MoriError>)
    ensures
        r is Ok,
        r matches Ok(bytes) ==> bytes@ == u32_bytes(height),
{
    match serialize_u32(height) {
        Ok(bytes) => Ok(bytes),
        Err(_) => Err(MoriError::Decode(DecodeError::Encoding)),
    }
}

/// The height that a stored value stands for. Bytes after the fourth are
/// ignored.
pub fn decode_height(bytes: &[u8]) -> (r: Result<u32, MoriError>)
    ensures
        r is Ok <==> bytes@.len() >= 4,
        r matches Ok(value) ==> u32_bytes(value) == bytes@.subrange(0, 4),
        r matches Err(e) ==> e == MoriError::Decode(DecodeError::Encoding),
{
    match deserialize_u32(bytes) {
        Ok(value) => Ok(value),
        Err(_) => Err(MoriError::Decode(DecodeError::Encoding)),
    }
}

/// Different heights have different encodings, and so have different node
/// ids; a height takes 4 bytes and a node id 16.
pub proof fn lemma_codec_injective()
    ensures
        forall|a: u32, b: u32| #[trigger] u32_bytes(a) == #[trigger] u32_bytes(b) ==> a == b,
        forall|a: u128, b: u128| #[trigger] u128_bytes(a) == #[trigger] u128_bytes(b) ==> a == b,
        forall|h: u32| #[trigger] u32_bytes(h).len() == 4,
        forall|id: u128| #[trigger] u128_bytes(id).len() == 16,
{
    lemma_auto_spec_u32_to_from_le_bytes();
    lemma_auto_spec_u128_to_from_le_bytes();
    assert forall|a: u32, b: u32| #[trigger] u32_bytes(a) == #[trigger] u32_bytes(b) implies a
        == b by {
        assert(spec_u32_to_le_bytes(a).len() == 4 && spec_u32_to_le_bytes(b).len() == 4);
        assert(vstd::bytes::spec_u32_from_le_bytes(u32_bytes(a)) == a);
        assert(vstd::bytes::spec_u32_from_le_bytes(u32_bytes(b)) == b);
    }
    assert forall|a: u128, b: u128| #[trigger] u128_bytes(a) == #[trigger] u128_bytes(b) implies a
        == b by {
        assert(spec_u128_to_le_bytes(a).len() == 16 && spec_u128_to_le_bytes(b).len() == 16);
        assert(vstd::bytes::spec_u128_from_le_bytes(u128_bytes(a)) == a);
        assert(vstd::bytes::spec_u128_from_le_bytes(u128_bytes(b)) == b);
    }
}

/// One change to the store.
#[derive(Clone, Debug, PartialEq, Eq)]
pub enum StoreOp {
    Put { key: Vec<u8>, value: Vec<u8> },
    Delete { key: Vec<u8> },
}

/// What a change to the store is, as mathematics.
pub enum OpView {
    Put { key: Seq<u8>, value: Seq<u8> },
    Delete { key: Seq<u8> },
}

impl View for StoreOp {
    type V = OpView;

    open spec fn view(&self) -> OpView {
        match self {
            StoreOp::Put { key, value } => OpView::Put { key: key@, value: value@ },
            StoreOp::Delete { key } => OpView::Delete { key: key@ },
        }
    }
}

/// The views of a sequence of changes.
pub open spec fn op_views(ops: Seq<StoreOp>) -> Seq<OpView> {
    Seq::new(ops.len(), |i: int| ops[i]@)
}

/// The store after one change.
pub open spec fn apply(store: Map<Seq<u8>, Seq<u8>>, op: OpView) -> Map<Seq<u8>, Seq<u8>> {
    match op {
        OpView::Put { key, value } => store.insert(key, value),
        OpView::Delete { key } => store.remove(key),
    }
}

/// The store after a sequence of changes, applied in order.
pub open spec fn apply_all(store: Map<Seq<u8>, Seq<u8>>, ops: Seq<OpView>) -> Map<
    Seq<u8>,
    Seq<u8>,
>
    decreases ops.len(),
{
    if ops.len() == 0 {
        store
    } else {
        apply(apply_all(store, ops.drop_last()), ops.last())
    }
}

/// Whether `key` begins with `prefix`.
pub open spec fn starts_with(key: Seq<u8>, prefix: Seq<u8>) -> bool {
    prefix.len() <= key.len() && key.subrange(0, prefix.len() as int) == prefix
}

/// An entry of the store as a pair of views.
pub open spec fn entry_view(entry: (Vec<u8>, Vec<u8>)) -> (Seq<u8>, Seq<u8>) {
    (entry.0@, entry.1@)
}

/// The views of a sequence of entries.
pub open spec fn entry_views(entries: Seq<(Vec<u8>, Vec<u8>)>) -> Seq<(Seq<u8>, Seq<u8>)> {
    Seq::new(entries.len(), |i: int| entry_view(entries[i]))
}

/// The entries whose key begins with `prefix`, each without the prefix, in
/// the given order.
pub open spec fn in_namespace(entries: Seq<(Seq<u8>, Seq<u8>)>, prefix: Seq<u8>) -> Seq<
    (Seq<u8>, Seq<u8>),
>
    decreases entries.len(),
{
    if entries.len() == 0 {
        Seq::empty()
    } else {
        let before = in_namespace(entries.drop_last(), prefix);
        let (key, value) = entries.last();
        if starts_with(key, prefix) {
            before.push((key.skip(prefix.len() as int), value))
        } else {
            before
        }
    }
}

/// One namespace of the store: the keys that begin with its prefix.
#[derive(Clone, Debug)]
pub struct DBMap {
    prefix: Vec<u8>,
}

/// `a` followed by `b`.
fn concat(a: &[u8], b: &[u8]) -> (r: Vec<u8>)
    ensures
        r@ == a@ + b@,
{
    let mut r = slice_to_vec(a);
    let mut i: usize = 0;
    while i < b.len()
        invariant
            i <= b.len(),
            r@ == a@ + b@.take(i as int),
        decreases b.len() - i,
    {
        r.push(b[i]);
        assert(b@.take(i as int + 1) =~= b@.take(i as int).push(b@[i as int]));
        i = i + 1;
    }
    assert(b@.take(b@.len() as int) =~= b@);
    r
}

/// Whether `key` begins with `prefix`.
fn has_prefix(key: &[u8], prefix: &[u8]) -> (r: bool)
    ensures
        r == starts_with(key@, prefix@),
{
    if prefix.len() > key.len() {
        return false;
    }
    let mut i: usize = 0;
    while i < prefix.len()
        invariant
            i <= prefix.len(),
            prefix.len() <= key.len(),
            forall|j: int| 0 <= j < i ==> key@[j] == prefix@[j],
        decreases prefix.len() - i,
    {
        if key[i] != prefix[i] {
            assert(key@.subrange(0, prefix@.len() as int)[i as int] != prefix@[i as int]);
            return false;
        }
        i = i + 1;
    }
    assert(key@.subrange(0, prefix@.len() as int) =~= prefix@);
    true
}

impl DBMap {
    /// The bytes that every key of the namespace begins with.
    pub closed spec fn prefix(&self) -> Seq<u8> {
        self.prefix@
    }

    /// The physical key for a key of the namespace.
    pub open spec fn real_key(&self, key: Seq<u8>) -> Seq<u8> {
        self.prefix() + key
    }

    /// What the namespace holds in a store: under each of its keys, what
    /// the store holds under the physical key.
    pub open spec fn contents(&self, store: Map<Seq<u8>, Seq<u8>>) -> Map<Seq<u8>, Seq<u8>> {
        Map::new(
            |key: Seq<u8>| store.contains_key(self.real_key(key)),
            |key: Seq<u8>| store[self.real_key(key)],
        )
    }

    /// The namespace whose prefix is the bytes of `prefix`.
    pub fn new(prefix: &str) -> (r: DBMap)
        ensures
            r.prefix() == encode_utf8(prefix@),
    {
        DBMap { prefix: slice_to_vec(prefix.as_bytes()) }
    }

    /// The physical key under which `key` is read, written and looked for.
    pub fn get(&self, key: &[u8]) -> (r: Vec<u8>)
        ensures
            r@ == self.real_key(key@),
    {
        concat(self.prefix.as_slice(), key)
    }

    /// The physical key of the node with the id `node_id`.
    pub fn node_key(&self, node_id: u128) -> (r: Result<Vec<u8>, MoriError>)
        ensures
            r is Ok,
            r matches Ok(key) ==> key@ == self.real_key(u128_bytes(node_id)),
    {
        match encode_node_id(node_id) {
            Ok(bytes) => Ok(self.get(bytes.as_slice())),
            Err(e) => Err(e),
        }
    }

    /// The physical key of the row named `text`.
    pub fn text_key(&self, text: &str) -> (r: Result<Vec<u8>, MoriError>)
        ensures
            r is Ok,
            r matches Ok(key) ==> key@ == self.real_key(text_bytes(text@)),
    {
        match encode_text(text) {
            Ok(bytes) => Ok(self.get(bytes.as_slice())),
            Err(e) => Err(e),
        }
    }

    /// The change that stores `value` under `key`.
    pub fn insert(&self, key: &[u8], value: Vec<u8>) -> (r: StoreOp)
        ensures
            r@ == (OpView::Put { key: self.real_key(key@), value: value@ }),
    {
        StoreOp::Put { key: self.get(key), value }
    }

    /// The changes that store each value under its key, in order.
    pub fn batch_insert(&self, kvs: Vec<(Vec<u8>, Vec<u8>)>) -> (r: Vec<StoreOp>)
        ensures
            r@.len() == kvs@.len(),
            forall|i: int|
                0 <= i < kvs@.len() ==> #[trigger] r@[i]@ == (OpView::Put {
                    key: self.real_key(kvs@[i].0@),
                    value: kvs@[i].1@,
                }),
    {
        let mut ops: Vec<StoreOp> = Vec::new();
        let mut i: usize = 0;
        while i < kvs.len()
            invariant
                i <= kvs.len(),
                ops@.len() == i,
                forall|j: int|
                    0 <= j < i ==> #[trigger] ops@[j]@ == (OpView::Put {
                        key: self.real_key(kvs@[j].0@),
                        value: kvs@[j].1@,
                    }),
            decreases kvs.len() - i,
        {
            let value = slice_to_vec(kvs[i].1.as_slice());
            ops.push(self.insert(kvs[i].0.as_slice(), value));
            i = i + 1;
        }
        ops
    }

    /// The change that removes `key`.
    pub fn remove(&self, key: &[u8]) -> (r: StoreOp)
        ensures
            r@ == (OpView::Delete { key: self.real_key(key@) }),
    {
        StoreOp::Delete { key: self.get(key) }
    }

    /// The changes that remove each key, in order.
    pub fn batch_remove(&self, keys: &Vec<Vec<u8>>) -> (r: Vec<StoreOp>)
        ensures
            r@.len() == keys@.len(),
            forall|i: int|
                0 <= i < keys@.len() ==> #[trigger] r@[i]@ == (OpView::Delete {
                    key: self.real_key(keys@[i]@),
                }),
    {
        let mut ops: Vec<StoreOp> = Vec::new();
        let mut i: usize = 0;
        while i < keys.len()
            invariant
                i <= keys.len(),
                ops@.len() == i,
                forall|j: int|
                    0 <= j < i ==> #[trigger] ops@[j]@ == (OpView::Delete {
                        key: self.real_key(keys@[j]@),
                    }),
            decreases keys.len() - i,
        {
            ops.push(self.remove(keys[i].as_slice()));
            i = i + 1;
        }
        ops
    }

    /// The changes that remove the rows named by `names`, in order.
    pub fn remove_texts(&self, names: &Vec<String>) -> (r: Result<Vec<StoreOp>, MoriError>)
        ensures
            r is Ok,
            r matches Ok(ops) ==> ops@.len() == names@.len() && forall|i: int|
                0 <= i < names@.len() ==> #[trigger] ops@[i]@ == (OpView::Delete {
                    key: self.real_key(text_bytes(names@[i]@)),
                }),
    {
        let mut ops: Vec<StoreOp> = Vec::new();
        let mut i: usize = 0;
        while i < names.len()
            invariant
                i <= names.len(),
                ops@.len() == i,
                forall|j: int|
                    0 <= j < i ==> #[trigger] ops@[j]@ == (OpView::Delete {
                        key: self.real_key(text_bytes(names@[j]@)),
                    }),
            decreases names.len() - i,
        {
            match encode_text(names[i].as_str()) {
                Ok(key) => {
                    ops.push(self.remove(key.as_slice()));
                },
                Err(e) => {
                    return Err(e);
                },
            }
            i = i + 1;
        }
        Ok(ops)
    }

    /// The entries of the namespace among `entries`, which the store
    /// yielded: those whose key begins with the prefix, each without the
    /// prefix, in the order of the store.
    pub fn get_all(&self, entries: &Vec<(Vec<u8>, Vec<u8>)>) -> (r: Vec<(Vec<u8>, Vec<u8>)>)
        ensures
            entry_views(r@) == in_namespace(entry_views(entries@), self.prefix()),
    {
        let mut out: Vec<(Vec<u8>, Vec<u8>)> = Vec::new();
        let mut i: usize = 0;
        let ghost all = entry_views(entries@);
        assert(all.take(0) =~= Seq::empty());
        assert(entry_views(out@) =~= in_namespace(all.take(0), self.prefix()));
        while i < entries.len()
            invariant
                i <= entries.len(),
                all == entry_views(entries@),
                entry_views(out@) == in_namespace(all.take(i as int), self.prefix()),
            decreases entries.len() - i,
        {
            let key = entries[i].0.as_slice();
            proof {
                assert(all.take(i as int + 1).drop_last() =~= all.take(i as int));
                assert(all.take(i as int + 1).last() == all[i as int]);
            }
            if has_prefix(key, self.prefix.as_slice()) {
                let ghost before = out@;
                let stripped = slice_to_vec(slice_subrange(key, self.prefix.len(), key.len()));
                let value = slice_to_vec(entries[i].1.as_slice());
                out.push((stripped, value));
                assert(entry_views(out@) =~= entry_views(before).push(
                    (key@.skip(self.prefix@.len() as int), entries@[i as int].1@),
                ));
            }
            i = i + 1;
        }
        assert(all.take(entries@.len() as int) =~= all);
        out
    }

    /// The first entry of the namespace, given the first entry that the
    /// store yields at or after the prefix, together with the change that
    /// removes it. `None` if the store yields nothing there or yields an
    /// entry of another namespace.
    pub fn pop_front(&self, first: Option<(Vec<u8>, Vec<u8>)>) -> (r: Option<
        ((Vec<u8>, Vec<u8>), StoreOp),
    >)
        ensures
            match first {
                Some((key, value)) if starts_with(key@, self.prefix()) => r matches Some(
                    (entry, op),
                ) && entry.0@ == key@.skip(self.prefix().len() as int) && entry.1@ == value@ && op@
                    == (OpView::Delete { key: key@ }),
                _ => r is None,
            },
    {
        match first {
            Some((key, value)) => {
                if has_prefix(key.as_slice(), self.prefix.as_slice()) {
                    let stripped = slice_to_vec(
                        slice_subrange(key.as_slice(), self.prefix.len(), key.len()),
                    );
                    Some(((stripped, value), StoreOp::Delete { key }))
                } else {
                    None
                }
            },
            None => None,
        }
    }
}

/// Storing a value under a key of a namespace changes what the namespace
/// holds under that key and nothing else in it.
pub proof fn lemma_insert_contents(
    db: DBMap,
    store: Map<Seq<u8>, Seq<u8>>,
    key: Seq<u8>,
    value: Seq<u8>,
)
    ensures
        db.contents(apply(store, OpView::Put { key: db.real_key(key), value }))
            == db.contents(store).insert(key, value),
{
    let after = apply(store, OpView::Put { key: db.real_key(key), value });
    assert forall|k: Seq<u8>| db.real_key(k) == db.real_key(key) implies k == key by {
        lemma_real_key_injective(db, k, key);
    }
    assert(db.contents(after) =~= db.contents(store).insert(key, value));
}

/// Removing a key of a namespace removes it from what the namespace holds
/// and changes nothing else in it.
pub proof fn lemma_remove_contents(db: DBMap, store: Map<Seq<u8>, Seq<u8>>, key: Seq<u8>)
    ensures
        db.contents(apply(store, OpView::Delete { key: db.real_key(key) })) == db.contents(
            store,
        ).remove(key),
{
    let after = apply(store, OpView::Delete { key: db.real_key(key) });
    assert forall|k: Seq<u8>| db.real_key(k) == db.real_key(key) implies k == key by {
        lemma_real_key_injective(db, k, key);
    }
    assert(db.contents(after) =~= db.contents(store).remove(key));
}

/// Different keys of a namespace have different physical keys.
pub proof fn lemma_real_key_injective(db: DBMap, a: Seq<u8>, b: Seq<u8>)
    requires
        db.real_key(a) == db.real_key(b),
    ensures
        a == b,
{
    let p = db.prefix();
    assert((p + a).skip(p.len() as int) =~= a);
    assert((p + b).skip(p.len() as int) =~= b);
}

/// The nodes with different ids have different physical keys.
pub proof fn lemma_node_keys_distinct(db: DBMap, a: u128, b: u128)
    requires
        a != b,
    ensures
        db.real_key(u128_bytes(a)) != db.real_key(u128_bytes(b)),
{
    lemma_codec_injective();
    if db.real_key(u128_bytes(a)) == db.real_key(u128_bytes(b)) {
        lemma_real_key_injective(db, u128_bytes(a), u128_bytes(b));
    }
}

/// A change to a key of one namespace leaves every namespace alone whose
/// prefix neither begins with the prefix of the first nor is the beginning
/// of it.
pub proof fn lemma_namespaces_isolated(
    db: DBMap,
    other: DBMap,
    store: Map<Seq<u8>, Seq<u8>>,
    op: OpView,
)
    requires
        !starts_with(db.prefix(), other.prefix()),
        !starts_with(other.prefix(), db.prefix()),
        match op {
            OpView::Put { key, value } => starts_with(key, db.prefix()),
            OpView::Delete { key } => starts_with(key, db.prefix()),
        },
    ensures
        other.contents(apply(store, op)) == other.contents(store),
{
    let touched = match op {
        OpView::Put { key, value } => key,
        OpView::Delete { key } => key,
    };
    let p = db.prefix();
    let q = other.prefix();
    assert forall|k: Seq<u8>| other.real_key(k) != touched by {
        if other.real_key(k) == touched {
            let full = q + k;
            assert(full.subrange(0, p.len() as int) == p);
            assert(full.subrange(0, q.len() as int) =~= q);
            if p.len() <= q.len() {
                assert(q.subrange(0, p.len() as int) =~= full.subrange(0, p.len() as int));
            } else {
                assert(p.subrange(0, q.len() as int) =~= full.subrange(0, q.len() as int));
            }
        }
    }
    assert(other.contents(apply(store, op)) =~= other.contents(store));
}

/// The changes that store a checkpoint under `key`: one if there is a
/// checkpoint to store, none otherwise.
pub open spec fn checkpoint_ops(key: Seq<u8>, checkpoint: Option<u32>) -> Seq<OpView> {
    match checkpoint {
        Some(height) => seq![OpView::Put { key, value: u32_bytes(height) }],
        None => Seq::empty(),
    }
}

impl Mori {
    /// The change that stores `height` as the checkpoint of this identity
    /// in the namespace `heights`.
    pub fn store_height(&self, heights: &DBMap, height: u32) -> (r: Result<StoreOp, MoriError>)
        ensures
            r is Ok,
            r matches Ok(op) ==> op@ == (OpView::Put {
                key: heights.real_key(text_bytes(self.network_key@)),
                value: u32_bytes(height),
            }),
    {
        let key = match encode_text(self.network_key.as_str()) {
            Ok(bytes) => bytes,
            Err(e) => {
                return Err(e);
            },
        };
        let value = match encode_height(height) {
            Ok(bytes) => bytes,
            Err(e) => {
                return Err(e);
            },
        };
        Ok(heights.insert(key.as_slice(), value))
    }

    /// The changes that a pass makes to the store when its batches are
    /// done: the new checkpoint, if the plan names one.
    pub fn finish_sync(&self, heights: &DBMap, checkpoint: Option<u32>) -> (r: Result<
        Vec<StoreOp>,
        MoriError,
    >)
        ensures
            r is Ok,
            r matches Ok(ops) ==> op_views(ops@) == checkpoint_ops(
                heights.real_key(text_bytes(self.network_key@)),
                checkpoint,
            ),
    {
        let mut ops: Vec<StoreOp> = Vec::new();
        match checkpoint {
            None => {
                assert(op_views(ops@) =~= Seq::<OpView>::empty());
            },
            Some(height) => {
                match self.store_height(heights, height) {
                    Ok(op) => {
                        ops.push(op);
                        assert(op_views(ops@) =~= seq![op@]);
                    },
                    Err(e) => {
                        return Err(e);
                    },
                }
            },
        }
        Ok(ops)
    }

    /// The checkpoint of this identity, given what the store holds under
    /// its key: 0 where it holds nothing, and an error where it holds
    /// fewer than four bytes.
    pub fn stored_height(&self, stored: Option<&[u8]>) -> (r: Result<u32, MoriError>)
        ensures
            match stored {
                None => r == Ok::<u32, MoriError>(0),
                Some(bytes) => if bytes@.len() >= 4 {
                    r matches Ok(h) && u32_bytes(h) == bytes@.subrange(0, 4)
                } else {
                    r == Err::<u32, MoriError>(MoriError::Decode(DecodeError::Encoding))
                },
            },
    {
        match stored {
            None => Ok(0),
            Some(bytes) => decode_height(bytes),
        }
    }
}

/// A checkpoint that is stored and read again is the same checkpoint.
pub proof fn lemma_height_round_trip(height: u32, read: u32)
    requires
        u32_bytes(read) == u32_bytes(height).subrange(0, 4),
    ensures
        read == height,
{
    lemma_codec_injective();
    assert(u32_bytes(height).subrange(0, 4) =~= u32_bytes(height));
}

} // verus!
