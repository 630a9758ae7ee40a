//! The structural codec of record types.
//!
//! A record type is described by a [`Context`]: its name, its fields in
//! declaration order, and which directions are wanted. From it
//! [`transcoder_decorator`] builds, once, the table of field atoms, a
//! [`Decoder`] and an [`Encoder`]. A record is exchanged as a map term with
//! one atom key per field.

use vstd::prelude::*;
use vstd::string::StringExecFns;
use crate::error::Error;
use crate::term::{
    distinct_keys, lemma_lookup_absent, lemma_lookup_put_other, lemma_lookup_put_same,
    lemma_put_keeps_distinct, lookup, map_get, map_put, put, Env, Item, Pair, Term, TermData,
};

verus! {

/// The declared type of a field.
#[derive(Clone, Copy, Debug, PartialEq, Eq, Structural)]
pub enum FieldType {
    Integer,
    Text,
}

/// A named field of a record type.
#[derive(Clone, Debug, PartialEq, Eq)]
pub struct Field {
    pub name: String,
    pub ty: FieldType,
}

/// The value of a field.
#[derive(Clone, Debug, PartialEq, Eq)]
pub enum Value {
    Integer(i64),
    Text(String),
}

/// A value of a record type: the type's name and one value per field, in
/// declaration order.
#[derive(Clone, Debug, PartialEq, Eq)]
pub struct Record {
    pub record_type: String,
    pub values: Vec<Value>,
}

/// The description of a record type that the codec is built from.
#[derive(Clone, Debug, PartialEq, Eq)]
pub struct Context {
    /// The name of the type.
    pub ident: String,
    /// The named fields in declaration order; `None` where the type is not
    /// a struct with named fields.
    pub struct_fields: Option<Vec<Field>>,
    /// Whether an encoder is wanted.
    pub encode: bool,
    /// Whether a decoder is wanted.
    pub decode: bool,
}

/// The decoder of one record type.
#[derive(Clone, Debug, PartialEq, Eq)]
pub struct Decoder {
    pub record: String,
    pub atoms_module: String,
    pub fields: Vec<Field>,
}

/// The encoder of one record type.
#[derive(Clone, Debug, PartialEq, Eq)]
pub struct Encoder {
    pub record: String,
    pub atoms_module: String,
    pub fields: Vec<Field>,
}

/// What is built for one record type: the namespace of its atoms, the atoms
/// in declaration order, and the codec in each direction that was asked for.
#[derive(Clone, Debug, PartialEq, Eq)]
pub struct Transcoder {
    pub atoms_module: String,
    pub atoms: Vec<String>,
    pub decoder: Option<Decoder>,
    pub encoder: Option<Encoder>,
}

/// The type that a value has.
pub open spec fn type_of(value: Value) -> FieldType {
    match value {
        Value::Integer(_) => FieldType::Integer,
        Value::Text(_) => FieldType::Text,
    }
}

/// What `item` decodes to as a value of type `ty`, if it is of that type.
pub open spec fn decoded(ty: FieldType, item: Item) -> Option<Value> {
    match (ty, item) {
        (FieldType::Integer, Item::Integer(n)) => Some(Value::Integer(n)),
        (FieldType::Text, Item::Text(s)) => Some(Value::Text(s)),
        _ => None,
    }
}

/// What a value encodes to.
pub open spec fn encoded(value: Value) -> Item {
    match value {
        Value::Integer(n) => Item::Integer(n),
        Value::Text(s) => Item::Text(s),
    }
}

/// The value of `field` in a map term with the associations `entries`:
/// none where its key is absent or bound to something of another type.
pub open spec fn field_value(field: Field, entries: Seq<Pair>) -> Option<Value> {
    match lookup(entries, field.name@) {
        Some(item) => decoded(field.ty, item),
        None => None,
    }
}

/// Whether `i` is the first field that has no value in `entries`.
pub open spec fn first_failure(fields: Seq<Field>, entries: Seq<Pair>, i: int) -> bool {
    &&& 0 <= i < fields.len()
    &&& field_value(fields[i], entries) is None
    &&& forall|j: int| 0 <= j < i ==> (#[trigger] field_value(fields[j], entries)) is Some
}

/// Whether every field has a value in `entries`.
pub open spec fn all_present(fields: Seq<Field>, entries: Seq<Pair>) -> bool {
    forall|j: int| 0 <= j < fields.len() ==> (#[trigger] field_value(fields[j], entries)) is Some
}

/// Whether `values` holds one value per field, each of its field's type.
pub open spec fn conforms(fields: Seq<Field>, values: Seq<Value>) -> bool {
    &&& values.len() == fields.len()
    &&& forall|i: int| 0 <= i < fields.len() ==> type_of(#[trigger] values[i]) == fields[i].ty
}

/// Whether no two fields have the same name.
pub open spec fn distinct_names(fields: Seq<Field>) -> bool {
    forall|i: int, j: int|
        0 <= i < j < fields.len() ==> (#[trigger] fields[i]).name@ != (#[trigger] fields[j]).name@
}

/// The associations of the map term of a record after its first `n` fields
/// were inserted into the empty map, in declaration order: each field's atom
/// is bound to the field's encoded value.
pub open spec fn encoded_prefix(fields: Seq<Field>, values: Seq<Value>, n: nat) -> Seq<Pair>
    decreases n,
{
    if n == 0 {
        Seq::empty()
    } else {
        put(
            encoded_prefix(fields, values, (n - 1) as nat),
            fields[n - 1].name,
            encoded(values[n - 1]),
        )
    }
}

/// The associations of the map term of a record.
pub open spec fn encoded_entries(fields: Seq<Field>, values: Seq<Value>) -> Seq<Pair> {
    encoded_prefix(fields, values, fields.len())
}

/// The name of the namespace that holds the atoms of the type `ident`.
pub open spec fn atoms_module_of(ident: Seq<char>) -> Seq<char> {
    "ATOMS_"@ + ident
}

/// The text that reports that `field` could not be decoded.
pub open spec fn error_message_of(field: Seq<char>) -> Seq<char> {
    "Could not decode field :"@ + field + " on %{}"@
}

/// A copy of `field`.
pub fn copy_field(field: &Field) -> (out: Field)
    ensures
        out == *field,
{
    Field { name: field.name.clone(), ty: field.ty }
}

/// A copy of `fields`, in the same order.
pub fn copy_fields(fields: &Vec<Field>) -> (out: Vec<Field>)
    ensures
        out@ == fields@,
{
    let mut out: Vec<Field> = Vec::new();
    let mut i: usize = 0;
    while i < fields.len()
        invariant
            i <= fields@.len(),
            out@ == fields@.subrange(0, i as int),
        decreases fields@.len() - i,
    {
        out.push(copy_field(&fields[i]));
        i += 1;
        assert(out@ =~= fields@.subrange(0, i as int));
    }
    assert(out@ =~= fields@);
    out
}

/// Decodes `item` as a value of type `ty`.
pub fn decode_item(ty: FieldType, item: &Item) -> (value: Option<Value>)
    ensures
        value == decoded(ty, *item),
{
    match item {
        Item::Integer(n) => match ty {
            FieldType::Integer => Some(Value::Integer(*n)),
            FieldType::Text => None,
        },
        Item::Text(s) => match ty {
            FieldType::Integer => None,
            FieldType::Text => Some(Value::Text(s.clone())),
        },
    }
}

/// Encodes `value`.
pub fn encode_value(value: &Value) -> (item: Item)
    ensures
        item == encoded(*value),
{
    match value {
        Value::Integer(n) => Item::Integer(*n),
        Value::Text(s) => Item::Text(s.clone()),
    }
}

/// The type of `value`.
pub fn value_type(value: &Value) -> (ty: FieldType)
    ensures
        ty == type_of(*value),
{
    match value {
        Value::Integer(_) => FieldType::Integer,
        Value::Text(_) => FieldType::Text,
    }
}

impl Context {
    /// Whether an encoder is wanted.
    pub fn encode(&self) -> (wanted: bool)
        ensures
            wanted == self.encode,
    {
        self.encode
    }

    /// Whether a decoder is wanted.
    pub fn decode(&self) -> (wanted: bool)
        ensures
            wanted == self.decode,
    {
        self.decode
    }

    /// The name of the namespace that holds the atoms of this type.
    pub fn atoms_module_name(&self) -> (name: String)
        ensures
            name@ == atoms_module_of(self.ident@),
    {
        String::from_str("ATOMS_").concat(self.ident.as_str())
    }

    /// The atoms of the fields, by name, in declaration order; `None` where
    /// the type has no named fields.
    pub fn field_atoms(&self) -> (atoms: Option<Vec<String>>)
        ensures
            match self.struct_fields {
                Some(fields) => atoms matches Some(names) && names@.len() == fields@.len()
                    && forall|i: int|
                    0 <= i < fields@.len() ==> #[trigger] names@[i] == fields@[i].name,
                None => atoms is None,
            },
    {
        match &self.struct_fields {
            Some(fields) => {
                let mut names: Vec<String> = Vec::new();
                let mut i: usize = 0;
                while i < fields.len()
                    invariant
                        i <= fields@.len(),
                        names@.len() == i,
                        forall|j: int| 0 <= j < i ==> #[trigger] names@[j] == fields@[j].name,
                    decreases fields@.len() - i,
                {
                    names.push(fields[i].name.clone());
                    i += 1;
                }
                Some(names)
            },
            None => None,
        }
    }
}

/// Whether `decoder` is the decoder of the type `ident` with the fields
/// `fields`.
pub open spec fn is_decoder_of(decoder: Decoder, ident: String, fields: Seq<Field>) -> bool {
    &&& decoder.record == ident
    &&& decoder.atoms_module@ == atoms_module_of(ident@)
    &&& decoder.fields@ == fields
}

/// Whether `encoder` is the encoder of the type `ident` with the fields
/// `fields`.
pub open spec fn is_encoder_of(encoder: Encoder, ident: String, fields: Seq<Field>) -> bool {
    &&& encoder.record == ident
    &&& encoder.atoms_module@ == atoms_module_of(ident@)
    &&& encoder.fields@ == fields
}

/// Builds the codec of the record type that `ctx` describes: the namespace
/// and the atoms of its fields, a decoder where one is wanted and an encoder
/// where one is wanted.
pub fn transcoder_decorator(ctx: &Context) -> (gen: Transcoder)
    requires
        ctx.struct_fields is Some,
    ensures
        gen.atoms_module@ == atoms_module_of(ctx.ident@),
        gen.atoms@.len() == ctx.struct_fields.unwrap()@.len(),
        forall|i: int|
            0 <= i < gen.atoms@.len() ==> #[trigger] gen.atoms@[i]
                == ctx.struct_fields.unwrap()@[i].name,
        ctx.decode ==> (gen.decoder matches Some(d) && is_decoder_of(
            d,
            ctx.ident,
            ctx.struct_fields.unwrap()@,
        )),
        !ctx.decode ==> gen.decoder is None,
        ctx.encode ==> (gen.encoder matches Some(e) && is_encoder_of(
            e,
            ctx.ident,
            ctx.struct_fields.unwrap()@,
        )),
        !ctx.encode ==> gen.encoder is None,
{
    let struct_fields = ctx.struct_fields.as_ref().unwrap();
    let field_atoms = ctx.field_atoms().unwrap();
    let atoms_module_name = ctx.atoms_module_name();
    let decoder = if ctx.decode() {
        Some(gen_decoder(ctx, struct_fields, &atoms_module_name))
    } else {
        None
    };
    let encoder = if ctx.encode() {
        Some(gen_encoder(ctx, struct_fields, &atoms_module_name))
    } else {
        None
    };
    Transcoder { atoms_module: atoms_module_name, atoms: field_atoms, decoder, encoder }
}

/// The decoder of the type of `ctx` over `fields`, with its atoms in the
/// namespace `atoms_module_name`.
pub fn gen_decoder(ctx: &Context, fields: &Vec<Field>, atoms_module_name: &String) -> (decoder:
    Decoder)
    ensures
        decoder.record == ctx.ident,
        decoder.atoms_module == *atoms_module_name,
        decoder.fields@ == fields@,
{
    Decoder {
        record: ctx.ident.clone(),
        atoms_module: atoms_module_name.clone(),
        fields: copy_fields(fields),
    }
}

/// The encoder of the type of `ctx` over `fields`, with its atoms in the
/// namespace `atoms_module_name`.
pub fn gen_encoder(ctx: &Context, fields: &Vec<Field>, atoms_module_name: &String) -> (encoder:
    Encoder)
    ensures
        encoder.record == ctx.ident,
        encoder.atoms_module == *atoms_module_name,
        encoder.fields@ == fields@,
{
    Encoder {
        record: ctx.ident.clone(),
        atoms_module: atoms_module_name.clone(),
        fields: copy_fields(fields),
    }
}

impl Decoder {
    /// The text that reports that the field named `field` could not be
    /// decoded.
    pub fn error_message(field: &String) -> (text: String)
        ensures
            text@ == error_message_of(field@),
    {
        String::from_str("Could not decode field :").concat(field.as_str()).concat(" on %{}")
    }

    /// Decodes the value of the field at `index` from the associations of a
    /// map term: the field's atom is looked up and what it is bound to is
    /// decoded as the field's type.
    pub fn decode_field(&self, index: usize, entries: &Vec<Pair>) -> (value: Option<Value>)
        requires
            index < self.fields@.len(),
        ensures
            value == field_value(self.fields@[index as int], entries@),
    {
        match map_get(entries, &self.fields[index].name) {
            Some(item) => decode_item(self.fields[index].ty, item),
            None => None,
        }
    }

    /// Decodes a record from `term`. Fails with `TypeMismatch` where the
    /// term is no map. Otherwise the fields are decoded in declaration
    /// order, and the first whose key is absent or whose value is not of
    /// its type fails the whole record, with a `FieldDecodeFailure` that
    /// names it.
    pub fn decode(&self, term: &Term<'_>) -> (out: Result<Record, Error>)
        ensures
            match term.data {
                TermData::Assoc(entries) => {
                    &&& all_present(self.fields@, entries@) ==> (out matches Ok(record)
                        && record.record_type == self.record && record.values@.len()
                        == self.fields@.len() && forall|i: int|
                        0 <= i < self.fields@.len() ==> field_value(
                            #[trigger] self.fields@[i],
                            entries@,
                        ) == Some(record.values@[i]))
                    &&& forall|i: int|
                        first_failure(self.fields@, entries@, i) ==> out == Err::<Record, Error>(
                            Error::FieldDecodeFailure {
                                field: self.fields@[i].name,
                                record: self.record,
                            },
                        )
                    &&& !all_present(self.fields@, entries@) ==> out is Err
                },
                _ => out == Err::<Record, Error>(Error::TypeMismatch),
            },
    {
        match &term.data {
            TermData::Assoc(entries) => {
                let mut values: Vec<Value> = Vec::new();
                let mut i: usize = 0;
                while i < self.fields.len()
                    invariant
                        term.data == TermData::Assoc(*entries),
                        i <= self.fields@.len(),
                        values@.len() == i,
                        forall|j: int|
                            0 <= j < i ==> field_value(#[trigger] self.fields@[j], entries@)
                                == Some(values@[j]),
                    decreases self.fields@.len() - i,
                {
                    match self.decode_field(i, entries) {
                        Some(value) => {
                            values.push(value);
                        },
                        None => {
                            let field = self.fields[i].name.clone();
                            let record = self.record.clone();
                            assert(field_value(self.fields@[i as int], entries@) is None);
                            assert forall|k: int|
                                first_failure(self.fields@, entries@, k) implies k == i by {
                                if k < i {
                                    assert(field_value(self.fields@[k], entries@) is Some);
                                }
                                if k > i {
                                    assert(field_value(self.fields@[i as int], entries@) is Some);
                                }
                            }
                            return Err(Error::FieldDecodeFailure { field, record });
                        },
                    }
                    i += 1;
                }
                Ok(Record { record_type: self.record.clone(), values })
            },
            _ => Err(Error::TypeMismatch),
        }
    }
}

impl Encoder {
    /// Encodes `record` as a map term of the scope `env`: starting from the
    /// empty map, each field's atom is bound to the field's encoded value,
    /// in declaration order. Fails with `TypeMismatch` where the record does
    /// not hold one value of the right type per field.
    pub fn encode<'a>(&self, record: &Record, env: Env<'a>) -> (out: Result<Term<'a>, Error>)
        ensures
            conforms(self.fields@, record.values@) ==> (out matches Ok(term) && term.env == env && (
            term.data matches TermData::Assoc(entries) && entries@ == encoded_entries(
                self.fields@,
                record.values@,
            ))),
            !conforms(self.fields@, record.values@) ==> out == Err::<Term<'a>, Error>(
                Error::TypeMismatch,
            ),
    {
        if record.values.len() != self.fields.len() {
            return Err(Error::TypeMismatch);
        }
        let mut entries: Vec<Pair> = Vec::new();
        let mut i: usize = 0;
        while i < self.fields.len()
            invariant
                i <= self.fields@.len(),
                record.values@.len() == self.fields@.len(),
                forall|j: int|
                    0 <= j < i ==> type_of(#[trigger] record.values@[j]) == self.fields@[j].ty,
                entries@ == encoded_prefix(self.fields@, record.values@, i as nat),
            decreases self.fields@.len() - i,
        {
            if value_type(&record.values[i]) != self.fields[i].ty {
                return Err(Error::TypeMismatch);
            }
            map_put(&mut entries, self.fields[i].name.clone(), encode_value(&record.values[i]));
            i += 1;
        }
        Ok(Term { env, data: TermData::Assoc(entries) })
    }
}

/// The map term of a record has distinct keys, whatever the fields are
/// named.
pub proof fn lemma_encoded_is_map(fields: Seq<Field>, values: Seq<Value>, n: nat)
    ensures
        distinct_keys(encoded_prefix(fields, values, n)),
    decreases n,
{
    if n > 0 {
        lemma_encoded_is_map(fields, values, (n - 1) as nat);
        lemma_put_keeps_distinct(
            encoded_prefix(fields, values, (n - 1) as nat),
            fields[n - 1].name,
            encoded(values[n - 1]),
        );
    }
}

/// After the first `n` fields of a record were inserted, each of them is
/// bound to its encoded value, where the fields have distinct names.
pub proof fn lemma_encoded_prefix_lookup(fields: Seq<Field>, values: Seq<Value>, n: nat, i: int)
    requires
        distinct_names(fields),
        values.len() == fields.len(),
        0 <= i < n <= fields.len(),
    ensures
        lookup(encoded_prefix(fields, values, n), fields[i].name@) == Some(encoded(values[i])),
    decreases n,
{
    let earlier = encoded_prefix(fields, values, (n - 1) as nat);
    if i == n - 1 {
        lemma_lookup_put_same(earlier, fields[n - 1].name, encoded(values[n - 1]));
    } else {
        assert(fields[i].name@ != fields[n - 1].name@);
        lemma_lookup_put_other(
            earlier,
            fields[n - 1].name,
            encoded(values[n - 1]),
            fields[i].name@,
        );
        lemma_encoded_prefix_lookup(fields, values, (n - 1) as nat, i);
    }
}

/// Field-completeness: in the map term that a record encodes to, every
/// field has the value that the record holds for it, so decoding the term
/// gives the record back. This holds of every record type whose fields have
/// distinct names, and of every record with one value of the right type per
/// field.
pub proof fn lemma_encode_then_decode(fields: Seq<Field>, values: Seq<Value>)
    requires
        distinct_names(fields),
        conforms(fields, values),
    ensures
        all_present(fields, encoded_entries(fields, values)),
        forall|i: int|
            0 <= i < fields.len() ==> field_value(
                #[trigger] fields[i],
                encoded_entries(fields, values),
            ) == Some(values[i]),
{
    let entries = encoded_entries(fields, values);
    assert forall|i: int| 0 <= i < fields.len() implies field_value(#[trigger] fields[i], entries)
        == Some(values[i]) by {
        lemma_encoded_prefix_lookup(fields, values, fields.len(), i);
        assert(type_of(values[i]) == fields[i].ty);
    }
}

/// A field whose atom is not among the keys of a map term has no value in
/// it.
pub proof fn lemma_missing_key_fails(field: Field, entries: Seq<Pair>)
    requires
        forall|j: int| 0 <= j < entries.len() ==> (#[trigger] entries[j]).key@ != field.name@,
    ensures
        field_value(field, entries) is None,
{
    lemma_lookup_absent(entries, field.name@);
}

/// No cross-decoding: where two record types name a field alike but
/// declare it with different types, no record of the one decodes as the
/// other. Both types have fields of distinct names, and the record holds one
/// value of the right type per field of its own type.
pub proof fn lemma_no_cross_decode(
    ours: Seq<Field>,
    theirs: Seq<Field>,
    values: Seq<Value>,
    i: int,
    j: int,
)
    requires
        distinct_names(theirs),
        conforms(theirs, values),
        0 <= i < ours.len(),
        0 <= j < theirs.len(),
        ours[i].name@ == theirs[j].name@,
        ours[i].ty != theirs[j].ty,
    ensures
        field_value(ours[i], encoded_entries(theirs, values)) is None,
        !all_present(ours, encoded_entries(theirs, values)),
{
    lemma_encode_then_decode(theirs, values);
    assert(field_value(theirs[j], encoded_entries(theirs, values)) == Some(values[j]));
    assert(type_of(values[j]) == theirs[j].ty);
}

/// Isolation of the atom tables: record types with different names keep
/// their atoms in different namespaces.
pub proof fn lemma_atom_namespaces_apart(a: Seq<char>, b: Seq<char>)
    requires
        a != b,
    ensures
        atoms_module_of(a) != atoms_module_of(b),
{
    let prefix = "ATOMS_"@;
    if atoms_module_of(a) == atoms_module_of(b) {
        assert((prefix + a).subrange(prefix.len() as int, (prefix + a).len() as int) =~= a);
        assert((prefix + b).subrange(prefix.len() as int, (prefix + b).len() as int) =~= b);
        assert(false);
    }
}

} // verus!
