//! The scope token and the term handle, as far as this layer reads them,
//! and the runtime's operations on the associations of a map term.

use std::marker::PhantomData;
use vstd::prelude::*;

verus! {

/// The capability that proves one call of the foreign runtime is in progress.
/// Every activation has its own number, and what is bound to the token
/// cannot outlive `'a`.
#[derive(Clone, Copy, Debug, PartialEq, Eq)]
pub struct Env<'a> {
    pub scope: u64,
    pub marker: PhantomData<&'a ()>,
}

impl<'a> Env<'a> {
    /// The token of the activation numbered `scope`.
    pub fn new(scope: u64) -> (env: Env<'a>)
        ensures
            env.scope == scope,
    {
        Env { scope, marker: PhantomData }
    }
}

/// The value of one key of a map term.
#[derive(Clone, Debug, PartialEq, Eq)]
pub enum Item {
    Integer(i64),
    Text(String),
}

/// One association of a map term: an atom, by its name, and what it maps to.
#[derive(Clone, Debug, PartialEq, Eq)]
pub struct Pair {
    pub key: String,
    pub value: Item,
}

/// What an inspection of a term yields.
#[derive(Clone, Debug, PartialEq, Eq)]
pub enum TermData {
    /// A binary value, with its bytes.
    Binary(Vec<u8>),
    /// A list of bytes and binaries that is not itself a binary, with the
    /// bytes that the runtime gives when it flattens the list.
    IoList(Vec<u8>),
    /// An integer.
    Integer(i64),
    /// An atom, by its name.
    Atom(String),
    /// A key-value map with atom keys, in the order of insertion.
    Assoc(Vec<Pair>),
    /// Any other value.
    Other,
}

/// A reference to a value of the foreign runtime, bound to a scope.
#[derive(Clone, Debug, PartialEq, Eq)]
pub struct Term<'a> {
    pub env: Env<'a>,
    pub data: TermData,
}

impl<'a> Term<'a> {
    /// A term of scope `env` that holds `data`.
    pub fn new(env: Env<'a>, data: TermData) -> (term: Term<'a>)
        ensures
            term.env == env,
            term.data == data,
    {
        Term { env, data }
    }

    /// The scope that the term is bound to.
    pub fn get_env(&self) -> (env: Env<'a>)
        ensures
            env == self.env,
    {
        self.env
    }

    /// The same value, bound to the scope `env`.
    pub fn in_env<'b>(self, env: Env<'b>) -> (term: Term<'b>)
        ensures
            term.env == env,
            term.data == self.data,
    {
        Term { env, data: self.data }
    }
}

/// A fresh vector with the bytes of `src`.
pub fn copy_bytes(src: &[u8]) -> (out: Vec<u8>)
    ensures
        out@ == src@,
{
    let mut out: Vec<u8> = Vec::new();
    let mut i: usize = 0;
    while i < src.len()
        invariant
            i <= src@.len(),
            out@ == src@.subrange(0, i as int),
        decreases src@.len() - i,
    {
        out.push(src[i]);
        i += 1;
        assert(out@ =~= src@.subrange(0, i as int));
    }
    assert(out@ =~= src@);
    out
}

/// The value of the first association of `entries` whose key is `key`.
pub open spec fn lookup(entries: Seq<Pair>, key: Seq<char>) -> Option<Item>
    decreases entries.len(),
{
    if entries.len() == 0 {
        None
    } else if entries[0].key@ == key {
        Some(entries[0].value)
    } else {
        lookup(entries.drop_first(), key)
    }
}

/// The associations of a map term after `key` is bound to `value`: the
/// first association of that key is replaced where there is one, and a new
/// association is added at the end where there is none.
pub open spec fn put(entries: Seq<Pair>, key: String, value: Item) -> Seq<Pair>
    decreases entries.len(),
{
    if entries.len() == 0 {
        seq![Pair { key, value }]
    } else if entries[0].key@ == key@ {
        seq![Pair { key, value }] + entries.drop_first()
    } else {
        seq![entries[0]] + put(entries.drop_first(), key, value)
    }
}

/// Whether no two associations have the same key, as in every map.
pub open spec fn distinct_keys(entries: Seq<Pair>) -> bool {
    forall|i: int, j: int|
        0 <= i < j < entries.len() ==> (#[trigger] entries[i]).key@ != (#[trigger] entries[j]).key@
}

/// Looks `key` up in the associations of a map term: the value of the
/// first association with that key, if there is one.
pub fn map_get<'a>(entries: &'a Vec<Pair>, key: &String) -> (found: Option<&'a Item>)
    ensures
        match lookup(entries@, key@) {
            Some(item) => found == Some(&item),
            None => found is None,
        },
{
    let mut i: usize = 0;
    assert(entries@.subrange(0, entries@.len() as int) =~= entries@);
    while i < entries.len()
        invariant
            i <= entries@.len(),
            lookup(entries@, key@) == lookup(
                entries@.subrange(i as int, entries@.len() as int),
                key@,
            ),
        decreases entries@.len() - i,
    {
        let ghost rest = entries@.subrange(i as int, entries@.len() as int);
        assert(rest[0] == entries@[i as int]);
        if entries[i].key == *key {
            return Some(&entries[i].value);
        }
        assert(rest.drop_first() =~= entries@.subrange(i + 1, entries@.len() as int));
        i += 1;
    }
    None
}

/// Binds `key` to `value` in the associations of a map term: the first
/// association of that key is replaced where there is one, and a new
/// association is added at the end where there is none.
pub fn map_put(entries: &mut Vec<Pair>, key: String, value: Item)
    ensures
        final(entries)@ == put(old(entries)@, key, value),
{
    let ghost before = entries@;
    let mut i: usize = 0;
    assert(before.subrange(0, 0) + put(before.subrange(0, before.len() as int), key, value)
        =~= put(before, key, value)) by {
        assert(before.subrange(0, before.len() as int) =~= before);
    }
    while i < entries.len()
        invariant
            i <= entries@.len(),
            entries@ == before,
            before == old(entries)@,
            put(before, key, value) == before.subrange(0, i as int) + put(
                before.subrange(i as int, before.len() as int),
                key,
                value,
            ),
        decreases entries@.len() - i,
    {
        let ghost rest = before.subrange(i as int, before.len() as int);
        assert(rest[0] == before[i as int]);
        assert(rest.drop_first() =~= before.subrange(i + 1, before.len() as int));
        if entries[i].key == key {
            assert(put(rest, key, value) == seq![Pair { key, value }] + rest.drop_first());
            entries.set(i, Pair { key, value });
            assert(entries@ =~= before.subrange(0, i as int) + (seq![Pair { key, value }]
                + rest.drop_first()));
            return ;
        }
        assert(put(rest, key, value) == seq![rest[0]] + put(rest.drop_first(), key, value));
        assert(before.subrange(0, i as int) + (seq![rest[0]] + put(rest.drop_first(), key, value))
            =~= before.subrange(0, i + 1) + put(rest.drop_first(), key, value));
        i += 1;
    }
    assert(before.subrange(i as int, before.len() as int) =~= Seq::<Pair>::empty());
    entries.push(Pair { key, value });
    assert(entries@ =~= before.subrange(0, i as int) + seq![Pair { key, value }]);
}

/// A key that no association has is bound to nothing.
pub proof fn lemma_lookup_absent(entries: Seq<Pair>, key: Seq<char>)
    requires
        forall|j: int| 0 <= j < entries.len() ==> (#[trigger] entries[j]).key@ != key,
    ensures
        lookup(entries, key) is None,
    decreases entries.len(),
{
    if entries.len() > 0 {
        let rest = entries.drop_first();
        assert(entries[0].key@ != key);
        assert forall|j: int| 0 <= j < rest.len() implies (#[trigger] rest[j]).key@ != key by {
            assert(rest[j] == entries[j + 1]);
        }
        lemma_lookup_absent(rest, key);
    }
}

/// A key that was just bound is bound to the value it was given.
pub proof fn lemma_lookup_put_same(entries: Seq<Pair>, key: String, value: Item)
    ensures
        lookup(put(entries, key, value), key@) == Some(value),
    decreases entries.len(),
{
    if entries.len() > 0 && entries[0].key@ != key@ {
        let after = seq![entries[0]] + put(entries.drop_first(), key, value);
        assert(after[0] == entries[0]);
        assert(after.drop_first() =~= put(entries.drop_first(), key, value));
        lemma_lookup_put_same(entries.drop_first(), key, value);
    }
}

/// Binding a key leaves every other key bound as it was.
pub proof fn lemma_lookup_put_other(entries: Seq<Pair>, key: String, value: Item, other: Seq<char>)
    requires
        other != key@,
    ensures
        lookup(put(entries, key, value), other) == lookup(entries, other),
    decreases entries.len(),
{
    let after = put(entries, key, value);
    if entries.len() == 0 {
        assert(after == seq![Pair { key, value }]);
        assert(after[0] == Pair { key, value });
        assert(after.drop_first() =~= Seq::<Pair>::empty());
        assert(lookup(after.drop_first(), other) is None);
    } else if entries[0].key@ == key@ {
        assert(after == seq![Pair { key, value }] + entries.drop_first());
        assert(after[0] == Pair { key, value });
        assert(after.drop_first() =~= entries.drop_first());
    } else {
        assert(after == seq![entries[0]] + put(entries.drop_first(), key, value));
        assert(after[0] == entries[0]);
        assert(after.drop_first() =~= put(entries.drop_first(), key, value));
        lemma_lookup_put_other(entries.drop_first(), key, value, other);
    }
}

/// Binding a key keeps the keys that were there, each in its place, and
/// adds the key at the end only where no association had it.
pub proof fn lemma_put_keys(entries: Seq<Pair>, key: String, value: Item)
    ensures
        forall|i: int|
            0 <= i < entries.len() ==> (#[trigger] put(entries, key, value)[i]).key@
                == entries[i].key@,
        put(entries, key, value).len() == entries.len() || {
            &&& put(entries, key, value).len() == entries.len() + 1
            &&& put(entries, key, value)[entries.len() as int].key@ == key@
            &&& forall|i: int| 0 <= i < entries.len() ==> (#[trigger] entries[i]).key@ != key@
        },
    decreases entries.len(),
{
    let after = put(entries, key, value);
    if entries.len() == 0 {
        assert(after == seq![Pair { key, value }]);
    } else if entries[0].key@ == key@ {
        assert(after == seq![Pair { key, value }] + entries.drop_first());
        assert(after.len() == entries.len());
        assert forall|i: int| 0 <= i < entries.len() implies (#[trigger] after[i]).key@
            == entries[i].key@ by {
            if i > 0 {
                assert(after[i] == entries.drop_first()[i - 1]);
            }
        }
    } else {
        let rest = entries.drop_first();
        let tail = put(rest, key, value);
        assert(after == seq![entries[0]] + tail);
        lemma_put_keys(rest, key, value);
        assert forall|i: int| 0 <= i < entries.len() implies (#[trigger] after[i]).key@
            == entries[i].key@ by {
            if i > 0 {
                assert(after[i] == tail[i - 1]);
                assert(rest[i - 1] == entries[i]);
            }
        }
        if tail.len() != rest.len() {
            assert(after[entries.len() as int] == tail[rest.len() as int]);
            assert forall|i: int| 0 <= i < entries.len() implies (#[trigger] entries[i]).key@
                != key@ by {
                if i > 0 {
                    assert(rest[i - 1] == entries[i]);
                }
            }
        }
    }
}

/// A map stays a map: binding a key in associations with distinct keys
/// gives associations with distinct keys.
pub proof fn lemma_put_keeps_distinct(entries: Seq<Pair>, key: String, value: Item)
    requires
        distinct_keys(entries),
    ensures
        distinct_keys(put(entries, key, value)),
{
    lemma_put_keys(entries, key, value);
    let after = put(entries, key, value);
    assert forall|i: int, j: int| 0 <= i < j < after.len() implies (#[trigger] after[i]).key@ != (
    #[trigger] after[j]).key@ by {
        if j < entries.len() {
            assert(entries[i].key@ != entries[j].key@);
        } else {
            assert(entries[i].key@ != key@);
        }
    }
}

} // verus!
