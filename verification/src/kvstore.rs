//! A key-value store that is spoken to in datagrams.
//!
//! A datagram with an equals sign sets the key before the first equals sign
//! to what follows it. A datagram without one asks for the value of the key
//! that it names, and the answer is the key, an equals sign and the value.
//! The key `version` is special: asking for it gives the version of the
//! store, whatever was set.

use vstd::prelude::*;

verus! {

/// The equals sign.
pub const KEY_VALUE_DELIMITER: u8 = 0x3d;

/// The key `version`.
pub open spec fn version_key() -> Seq<u8> {
    seq![0x76u8, 0x65u8, 0x72u8, 0x73u8, 0x69u8, 0x6fu8, 0x6eu8]
}

/// The value `1.0`.
pub open spec fn version_value() -> Seq<u8> {
    seq![0x31u8, 0x2eu8, 0x30u8]
}

/// What a datagram asks for.
#[derive(Debug, Clone, PartialEq, Eq)]
pub enum Request {
    Insert { key: Vec<u8>, value: Vec<u8> },
    Retrieve { key: Vec<u8> },
    Version,
}

/// The mathematical value of a [`Request`].
pub enum RequestView {
    Insert { key: Seq<u8>, value: Seq<u8> },
    Retrieve { key: Seq<u8> },
    Version,
}

impl View for Request {
    type V = RequestView;

    open spec fn view(&self) -> RequestView {
        match *self {
            Request::Insert { key, value } => RequestView::Insert { key: key@, value: value@ },
            Request::Retrieve { key } => RequestView::Retrieve { key: key@ },
            Request::Version => RequestView::Version,
        }
    }
}

/// The place of the first equals sign among the bytes, or their number if
/// there is none.
pub open spec fn delimiter_at(bytes: Seq<u8>) -> int
    decreases bytes.len(),
{
    if bytes.len() == 0 || bytes[0] == KEY_VALUE_DELIMITER {
        0
    } else {
        1 + delimiter_at(bytes.drop_first())
    }
}

/// What a datagram asks for: the version, where it is the key `version`; to
/// set a key, where it holds an equals sign; the value of a key otherwise.
pub open spec fn request_of(bytes: Seq<u8>) -> RequestView {
    if bytes == version_key() {
        RequestView::Version
    } else if delimiter_at(bytes) < bytes.len() {
        RequestView::Insert {
            key: bytes.take(delimiter_at(bytes)),
            value: bytes.skip(delimiter_at(bytes) + 1),
        }
    } else {
        RequestView::Retrieve { key: bytes }
    }
}

/// The answer that gives the value of a key.
pub open spec fn key_value(key: Seq<u8>, value: Seq<u8>) -> Seq<u8> {
    key + seq![KEY_VALUE_DELIMITER] + value
}

/// The first equals sign stands where `delimiter_at` says: no byte before
/// that place is one, and the byte at that place is one unless the bytes end
/// there.
pub proof fn lemma_delimiter_is_first(bytes: Seq<u8>)
    ensures
        0 <= delimiter_at(bytes) <= bytes.len(),
        forall|k: int| 0 <= k < delimiter_at(bytes) ==> bytes[k] != KEY_VALUE_DELIMITER,
        delimiter_at(bytes) < bytes.len() ==> bytes[delimiter_at(bytes)] == KEY_VALUE_DELIMITER,
    decreases bytes.len(),
{
    if bytes.len() > 0 && bytes[0] != KEY_VALUE_DELIMITER {
        lemma_delimiter_is_first(bytes.drop_first());
        assert forall|k: int| 0 <= k < delimiter_at(bytes) implies bytes[k]
            != KEY_VALUE_DELIMITER by {
            if k > 0 {
                assert(bytes[k] == bytes.drop_first()[k - 1]);
            }
        }
    }
}

/// A place that holds the first equals sign is the place that `delimiter_at`
/// gives.
pub proof fn lemma_delimiter_found(bytes: Seq<u8>, at: int)
    requires
        0 <= at <= bytes.len(),
        forall|k: int| 0 <= k < at ==> bytes[k] != KEY_VALUE_DELIMITER,
        at < bytes.len() ==> bytes[at] == KEY_VALUE_DELIMITER,
    ensures
        delimiter_at(bytes) == at,
{
    lemma_delimiter_is_first(bytes);
}

/// An answer is read back as the setting of its key, if the key holds no
/// equals sign.
pub proof fn lemma_answer_sets_its_key(key: Seq<u8>, value: Seq<u8>)
    requires
        forall|k: int| 0 <= k < key.len() ==> key[k] != KEY_VALUE_DELIMITER,
    ensures
        request_of(key_value(key, value)) == (RequestView::Insert { key, value }),
{
    let bytes = key_value(key, value);
    lemma_delimiter_found(bytes, key.len() as int);
    assert(bytes.take(key.len() as int) =~= key);
    assert(bytes.skip(key.len() as int + 1) =~= value);
}

/// Tells whether two byte strings are the same.
pub fn same_bytes(a: &[u8], b: &[u8]) -> (same: bool)
    ensures
        same == (a@ == b@),
{
    if a.len() != b.len() {
        return false;
    }
    let mut i: usize = 0;
    while i < a.len()
        invariant
            i <= a.len(),
            a.len() == b.len(),
            forall|k: int| 0 <= k < i ==> a@[k] == b@[k],
        decreases a.len() - i,
    {
        if a[i] != b[i] {
            return false;
        }
        i += 1;
    }
    assert(a@ =~= b@);
    true
}

/// A copy of the bytes from `from` up to `to`.
pub fn copy_range(bytes: &[u8], from: usize, to: usize) -> (copy: Vec<u8>)
    requires
        from <= to <= bytes.len(),
    ensures
        copy@ == bytes@.subrange(from as int, to as int),
{
    let mut copy: Vec<u8> = Vec::new();
    let mut i: usize = from;
    while i < to
        invariant
            from <= i <= to <= bytes.len(),
            copy@ == bytes@.subrange(from as int, i as int),
        decreases to - i,
    {
        copy.push(bytes[i]);
        i += 1;
    }
    copy
}

/// The key `version`.
pub fn version_key_bytes() -> (key: Vec<u8>)
    ensures
        key@ == version_key(),
{
    let mut key: Vec<u8> = Vec::new();
    key.push(0x76);
    key.push(0x65);
    key.push(0x72);
    key.push(0x73);
    key.push(0x69);
    key.push(0x6f);
    key.push(0x6e);
    key
}

/// The value `1.0`.
pub fn version_value_bytes() -> (value: Vec<u8>)
    ensures
        value@ == version_value(),
{
    let mut value: Vec<u8> = Vec::new();
    value.push(0x31);
    value.push(0x2e);
    value.push(0x30);
    value
}

/// Reads a datagram.
pub fn deserialize_request(bytes: &[u8]) -> (request: Request)
    ensures
        request@ == request_of(bytes@),
{
    let version = version_key_bytes();
    if same_bytes(bytes, version.as_slice()) {
        return Request::Version;
    }
    let mut index: usize = 0;
    while index < bytes.len() && bytes[index] != KEY_VALUE_DELIMITER
        invariant
            index <= bytes.len(),
            forall|k: int| 0 <= k < index ==> bytes@[k] != KEY_VALUE_DELIMITER,
        decreases bytes.len() - index,
    {
        index += 1;
    }
    proof {
        lemma_delimiter_found(bytes@, index as int);
    }
    if index < bytes.len() {
        let key = copy_range(bytes, 0, index);
        let value = copy_range(bytes, index + 1, bytes.len());
        Request::Insert { key, value }
    } else {
        let key = copy_range(bytes, 0, bytes.len());
        assert(key@ =~= bytes@);
        Request::Retrieve { key }
    }
}

/// Writes the answer that gives the value of a key.
pub fn serialize_key_value(key: &[u8], value: &[u8]) -> (bytes: Vec<u8>)
    ensures
        bytes@ == key_value(key@, value@),
{
    let mut bytes = copy_range(key, 0, key.len());
    bytes.push(KEY_VALUE_DELIMITER);
    let mut rest = copy_range(value, 0, value.len());
    bytes.append(&mut rest);
    bytes
}

/// A key with its value.
pub struct Entry {
    key: Vec<u8>,
    value: Vec<u8>,
}

/// The keys of the entries are all different.
pub open spec fn distinct_keys(entries: Seq<(Seq<u8>, Seq<u8>)>) -> bool {
    forall|i: int, j: int|
        0 <= i < j < entries.len() ==> (#[trigger] entries[i]).0 != (#[trigger] entries[j]).0
}

/// The map that a list of entries stands for: a later entry for a key
/// replaces an earlier one.
pub open spec fn contents(entries: Seq<(Seq<u8>, Seq<u8>)>) -> Map<Seq<u8>, Seq<u8>>
    decreases entries.len(),
{
    if entries.len() == 0 {
        Map::empty()
    } else {
        contents(entries.drop_last()).insert(entries.last().0, entries.last().1)
    }
}

/// With all keys different, the map holds each entry, and nothing else.
pub proof fn lemma_contents(entries: Seq<(Seq<u8>, Seq<u8>)>)
    requires
        distinct_keys(entries),
    ensures
        forall|i: int|
            0 <= i < entries.len() ==> contents(entries).contains_key((#[trigger] entries[i]).0)
                && contents(entries)[entries[i].0] == entries[i].1,
        forall|key: Seq<u8>| #[trigger]
            contents(entries).contains_key(key) ==> exists|i: int|
                0 <= i < entries.len() && (#[trigger] entries[i]).0 == key,
    decreases entries.len(),
{
    if entries.len() > 0 {
        let head = entries.drop_last();
        assert(distinct_keys(head));
        lemma_contents(head);
        assert forall|i: int| 0 <= i < entries.len() implies contents(entries).contains_key(
            (#[trigger] entries[i]).0,
        ) && contents(entries)[entries[i].0] == entries[i].1 by {
            if i < head.len() {
                assert(head[i] == entries[i]);
            }
        }
        assert forall|key: Seq<u8>| #[trigger]
            contents(entries).contains_key(key) implies exists|i: int|
            0 <= i < entries.len() && (#[trigger] entries[i]).0 == key by {
            if key != entries.last().0 {
                assert(contents(head).contains_key(key));
            }
        }
    }
}

/// A store of keys and values.
pub struct Store {
    entries: Vec<Entry>,
}

impl Store {
    /// The entries as pairs of byte strings.
    pub closed spec fn pairs(&self) -> Seq<(Seq<u8>, Seq<u8>)> {
        self.entries@.map_values(|entry: Entry| (entry.key@, entry.value@))
    }

    /// No key is held twice.
    pub closed spec fn wf(&self) -> bool {
        distinct_keys(self.pairs())
    }

    /// An empty store.
    pub fn new() -> (store: Store)
        ensures
            store.wf(),
            store@ == Map::<Seq<u8>, Seq<u8>>::empty(),
    {
        Store { entries: Vec::new() }
    }

    /// The place of the entry for `key`, if there is one.
    fn find(&self, key: &[u8]) -> (place: Option<usize>)
        requires
            self.wf(),
        ensures
            match place {
                Some(i) => i < self.entries.len() && self.pairs()[i as int].0 == key@
                    && self@.contains_key(key@) && self@[key@] == self.pairs()[i as int].1,
                None => !self@.contains_key(key@),
            },
    {
        let mut i: usize = 0;
        while i < self.entries.len()
            invariant
                i <= self.entries.len(),
                self.wf(),
                forall|k: int| 0 <= k < i ==> (#[trigger] self.pairs()[k]).0 != key@,
            decreases self.entries.len() - i,
        {
            if same_bytes(self.entries[i].key.as_slice(), key) {
                proof {
                    lemma_contents(self.pairs());
                }
                return Some(i);
            }
            assert(self.pairs()[i as int].0 != key@);
            i += 1;
        }
        proof {
            lemma_contents(self.pairs());
        }
        None
    }

    /// Sets `key` to `value`, in place of what it was set to before.
    pub fn insert(&mut self, key: Vec<u8>, value: Vec<u8>)
        requires
            old(self).wf(),
        ensures
            final(self).wf(),
            final(self)@ == old(self)@.insert(key@, value@),
    {
        let ghost before = self.pairs();
        let ghost pair = (key@, value@);
        let place = self.find(key.as_slice());
        match place {
            Some(i) => {
                self.entries.set(i, Entry { key, value });
            },
            None => {
                self.entries.push(Entry { key, value });
                assert(self.pairs() =~= before.push(pair));
                proof {
                    lemma_contents(before);
                }
            },
        }
        proof {
            let after = self.pairs();
            assert forall|a: int, b: int| 0 <= a < b < after.len() implies (#[trigger] after[a]).0
                != (#[trigger] after[b]).0 by {
                if a < before.len() && b < before.len() {
                    assert(before[a].0 != before[b].0);
                }
            }
            lemma_contents(before);
            lemma_contents(after);
            assert forall|k: Seq<u8>| #[trigger]
                contents(after).contains_key(k) <==> contents(before).insert(
                    pair.0,
                    pair.1,
                ).contains_key(k) by {
                if contents(after).contains_key(k) {
                    let i = choose|i: int| 0 <= i < after.len() && (#[trigger] after[i]).0 == k;
                    if k != pair.0 {
                        assert(before[i].0 == k);
                    }
                }
                if contents(before).contains_key(k) {
                    let i = choose|i: int| 0 <= i < before.len() && (#[trigger] before[i]).0 == k;
                    assert(after[i].0 == k);
                }
            }
            assert forall|k: Seq<u8>| #[trigger]
                contents(after).contains_key(k) implies contents(after)[k] == contents(
                before,
            ).insert(pair.0, pair.1)[k] by {
                let i = choose|i: int| 0 <= i < after.len() && (#[trigger] after[i]).0 == k;
                if k != pair.0 {
                    assert(before[i] == after[i]);
                } else if place is Some {
                    assert(after[place->0 as int] == pair);
                }
            }
        }
    }

    /// The value that `key` is set to, if it is set.
    pub fn get(&self, key: &[u8]) -> (value: Option<&Vec<u8>>)
        requires
            self.wf(),
        ensures
            match value {
                Some(value) => self@.contains_key(key@) && value@ == self@[key@],
                None => !self@.contains_key(key@),
            },
    {
        match self.find(key) {
            Some(i) => Some(&self.entries[i].value),
            None => None,
        }
    }

    /// Serves a request: a key is set without an answer; the value of a key
    /// is answered where the key is set, and not at all where it is not; the
    /// version is always answered.
    pub fn handle(&mut self, request: Request) -> (answer: Option<Vec<u8>>)
        requires
            old(self).wf(),
        ensures
            final(self).wf(),
            match request@ {
                RequestView::Insert { key, value } => answer is None && final(self)@ == old(
                    self,
                )@.insert(key, value),
                RequestView::Retrieve { key } => final(self)@ == old(self)@ && (
                crate::message::option_view(answer) == if old(self)@.contains_key(key) {
                    Some(key_value(key, old(self)@[key]))
                } else {
                    None
                }),
                RequestView::Version => final(self)@ == old(self)@ && answer is Some
                    && answer->0@ == key_value(version_key(), version_value()),
            },
    {
        match request {
            Request::Insert { key, value } => {
                self.insert(key, value);
                None
            },
            Request::Retrieve { key } => {
                match self.get(key.as_slice()) {
                    Some(value) => Some(serialize_key_value(key.as_slice(), value.as_slice())),
                    None => None,
                }
            },
            Request::Version => {
                let key = version_key_bytes();
                let value = version_value_bytes();
                Some(serialize_key_value(key.as_slice(), value.as_slice()))
            },
        }
    }
}

impl View for Store {
    type V = Map<Seq<u8>, Seq<u8>>;

    closed spec fn view(&self) -> Map<Seq<u8>, Seq<u8>> {
        contents(self.pairs())
    }
}

} // verus!
