//! The model of a record type that the derive reads off a struct: its prefix,
//! its key field and its other fields, each with the conversion that turns a
//! stored string back into the field's value. A model writes a record as the
//! arguments of `HSET` and reads it back from the fields of its hash.
use crate::field_map::{pair_views, pairs_map, FieldMap};
use crate::keys::{hash_key, hash_key_spec};
use crate::text::{concat, join, join_spec, views};
use vstd::prelude::*;

verus! {

/// How a field's stored string is turned back into the field's value.
#[derive(Debug, Clone, PartialEq, Eq)]
pub enum Conversion {
    /// The string is the value (`String` fields).
    Text,
    /// The string is parsed as a number (integer and float fields).
    Number,
    /// The string is parsed as the named date or time type.
    Timestamp(String),
    /// The string is parsed as a date and time of the named type with the
    /// named time zone.
    ZonedTimestamp(String, String),
    /// The string is converted with `try_into`.
    Convert,
}

/// A conversion as text.
pub enum ConversionView {
    Text,
    Number,
    Timestamp(Seq<char>),
    ZonedTimestamp(Seq<char>, Seq<char>),
    Convert,
}

impl View for Conversion {
    type V = ConversionView;

    open spec fn view(&self) -> ConversionView {
        match self {
            Conversion::Text => ConversionView::Text,
            Conversion::Number => ConversionView::Number,
            Conversion::Timestamp(t) => ConversionView::Timestamp(t@),
            Conversion::ZonedTimestamp(t, z) => ConversionView::ZonedTimestamp(t@, z@),
            Conversion::Convert => ConversionView::Convert,
        }
    }
}

/// A stored field of a model: its name and how its value is read back.
#[derive(Debug, Clone)]
pub struct FieldSchema {
    pub name: String,
    pub conversion: Conversion,
}

/// The model of a record type.
#[derive(Debug, Clone)]
pub struct ModelSchema {
    /// What the names of the record hashes start with, before a colon.
    pub prefix: String,
    /// The name of the key field.
    pub key_name: String,
    /// How the key field is read back.
    pub key_conversion: Conversion,
    /// The other fields, in the order of the struct.
    pub fields: Vec<FieldSchema>,
}

/// A model as text.
pub struct ModelView {
    pub prefix: Seq<char>,
    pub key_name: Seq<char>,
    pub key_conversion: ConversionView,
    pub fields: Seq<(Seq<char>, ConversionView)>,
}

impl View for ModelSchema {
    type V = ModelView;

    open spec fn view(&self) -> ModelView {
        ModelView {
            prefix: self.prefix@,
            key_name: self.key_name@,
            key_conversion: self.key_conversion@,
            fields: self.fields@.map_values(|f: FieldSchema| (f.name@, f.conversion@)),
        }
    }
}

/// The names of a model's stored fields, in order.
pub open spec fn field_names(m: ModelView) -> Seq<Seq<char>> {
    m.fields.map_values(|f: (Seq<char>, ConversionView)| f.0)
}

/// Each name followed by its value: `n0 v0 n1 v1 ...`.
pub open spec fn interleave(names: Seq<Seq<char>>, values: Seq<Seq<char>>) -> Seq<Seq<char>>
    decreases names.len(),
{
    if names.len() == 0 {
        Seq::empty()
    } else {
        interleave(names.drop_last(), values.take(names.len() - 1)) + seq![
            names.last(),
            values[names.len() - 1],
        ]
    }
}

/// The arguments of `HSET` that write a record: the name of its hash, then
/// each stored field's name and value.
pub open spec fn hset_args_spec(m: ModelView, key: Seq<char>, values: Seq<Seq<char>>) -> Seq<
    Seq<char>,
> {
    seq![hash_key_spec(m.prefix, key)] + interleave(field_names(m), values)
}

/// The text of the command that writes a record: `HSET` and its arguments,
/// separated by single spaces.
pub open spec fn set_command_spec(args: Seq<Seq<char>>) -> Seq<char> {
    "HSET "@ + join_spec(args, " "@)
}

/// The text of the command that reads the record with key `key`; the key
/// stands as it is, without the prefix.
pub open spec fn getall_command_spec(key: Seq<char>) -> Seq<char> {
    "HGETALL "@ + key
}

/// The (field, value) pairs that `HSET` arguments write into the hash: the
/// arguments after the hash name, two by two.
pub open spec fn written_pairs(args: Seq<Seq<char>>) -> Seq<(Seq<char>, Seq<char>)> {
    Seq::new(((args.len() - 1) / 2) as nat, |i: int| (args[1 + 2 * i], args[2 + 2 * i]))
}

/// The first stored field, by position, that `map` does not hold.
pub open spec fn first_missing(names: Seq<Seq<char>>, map: Map<Seq<char>, Seq<char>>) -> Option<
    int,
>
    decreases names.len(),
{
    if names.len() == 0 {
        None
    } else {
        match first_missing(names.drop_last(), map) {
            Some(i) => Some(i),
            None => if map.dom().contains(names.last()) {
                None
            } else {
                Some(names.len() - 1)
            },
        }
    }
}

/// A record as read from a hash: the key and the stored fields' values.
#[derive(Debug, Clone)]
pub struct RawRecord {
    pub key: String,
    pub values: Vec<String>,
}

/// Why a record could not be read from the fields of a hash.
#[derive(Debug, Clone)]
pub enum DecodeError {
    /// The fields do not hold the key field.
    MissingKey,
    /// The fields do not hold the named stored field.
    MissingField(String),
}

/// A failed read, as text.
pub enum DecodeFailure {
    MissingKey,
    MissingField(Seq<char>),
}

/// What reading a record from `map` gives: the key field's value and each
/// stored field's value, or the first field, the key field first, that the
/// map lacks.
pub open spec fn decode_spec(m: ModelView, map: Map<Seq<char>, Seq<char>>) -> Result<
    (Seq<char>, Seq<Seq<char>>),
    DecodeFailure,
> {
    if !map.dom().contains(m.key_name) {
        Err(DecodeFailure::MissingKey)
    } else {
        match first_missing(field_names(m), map) {
            Some(i) => Err(DecodeFailure::MissingField(field_names(m)[i])),
            None => Ok(
                (map[m.key_name], field_names(m).map_values(|n: Seq<char>| map[n])),
            ),
        }
    }
}

/// A read result as text.
pub open spec fn decode_result_view(r: Result<RawRecord, DecodeError>) -> Result<
    (Seq<char>, Seq<Seq<char>>),
    DecodeFailure,
> {
    match r {
        Ok(rec) => Ok((rec.key@, views(rec.values@))),
        Err(DecodeError::MissingKey) => Err(DecodeFailure::MissingKey),
        Err(DecodeError::MissingField(f)) => Err(DecodeFailure::MissingField(f@)),
    }
}

/// The fields that a record is read from after `HGETALL prefix:key`: the
/// reply's fields, with the key field set to the name of the hash.
pub open spec fn read_fields_spec(
    prefix: Seq<char>,
    key_name: Seq<char>,
    key: Seq<char>,
    reply: Map<Seq<char>, Seq<char>>,
) -> Map<Seq<char>, Seq<char>> {
    reply.insert(key_name, hash_key_spec(prefix, key))
}

/// The fields that a record is read from after `HGETALL prefix:key`: the
/// reply's fields, with the key field set to `prefix:key`.
pub fn read_fields(prefix: &str, key_name: &str, key: &str, reply: FieldMap) -> (r: FieldMap)
    ensures
        r@ == read_fields_spec(prefix@, key_name@, key@, reply@),
{
    let mut fields = reply;
    fields.insert(key_name.to_owned(), hash_key(prefix, key));
    fields
}

impl DecodeError {
    /// What went wrong, in words.
    pub fn message(&self) -> (r: String)
        ensures
            match self {
                DecodeError::MissingKey => r@ == "Couldn't find key arg in object hash map"@,
                DecodeError::MissingField(f) => r@
                    == "Deserialization from redis failed, key "@ + f@ + " not found"@,
            },
    {
        match self {
            DecodeError::MissingKey => "Couldn't find key arg in object hash map".to_owned(),
            DecodeError::MissingField(f) => {
                let head = concat("Deserialization from redis failed, key ", f.as_str());
                concat(head.as_str(), " not found")
            },
        }
    }
}

impl ModelSchema {
    /// The prefix of the model's hash names.
    pub fn get_prefix(&self) -> (r: String)
        ensures
            r@ == self@.prefix,
    {
        self.prefix.clone()
    }

    /// The name of the key field.
    pub fn key_name(&self) -> (r: String)
        ensures
            r@ == self@.key_name,
    {
        self.key_name.clone()
    }

    /// The name of the hash that holds the record with key `key`.
    pub fn hash_key(&self, key: &str) -> (r: String)
        ensures
            r@ == hash_key_spec(self@.prefix, key@),
    {
        hash_key(self.prefix.as_str(), key)
    }

    /// The arguments of `HSET` that write the record with key `key` and the
    /// stored values `values`: the hash name `prefix:key`, then each stored
    /// field's name followed by its value.
    pub fn gen_hset_args(&self, key: &str, values: &Vec<String>) -> (r: Vec<String>)
        requires
            values@.len() == self.fields@.len(),
        ensures
            views(r@) == hset_args_spec(self@, key@, views(values@)),
    {
        let ghost names = field_names(self@);
        let ghost vals = views(values@);
        let mut r: Vec<String> = Vec::new();
        r.push(self.hash_key(key));
        let mut i: usize = 0;
        assert(views(r@) =~= seq![hash_key_spec(self@.prefix, key@)] + interleave(
            names.take(0),
            vals.take(0),
        ));
        while i < self.fields.len()
            invariant
                i <= self.fields@.len(),
                values@.len() == self.fields@.len(),
                names == field_names(self@),
                vals == views(values@),
                views(r@) == seq![hash_key_spec(self@.prefix, key@)] + interleave(
                    names.take(i as int),
                    vals.take(i as int),
                ),
            decreases self.fields.len() - i,
        {
            let ghost before = views(r@);
            r.push(self.fields[i].name.clone());
            r.push(values[i].clone());
            proof {
                let t = names.take(i + 1);
                assert(t.drop_last() =~= names.take(i as int));
                assert(vals.take(i + 1).take(t.len() - 1) =~= vals.take(i as int));
                assert(t.last() == self.fields@[i as int].name@);
                assert(vals.take(i + 1)[t.len() - 1] == values@[i as int]@);
                assert(views(r@) =~= before + seq![
                    self.fields@[i as int].name@,
                    values@[i as int]@,
                ]);
            }
            i = i + 1;
        }
        assert(names.take(self.fields.len() as int) =~= names);
        assert(vals.take(self.fields.len() as int) =~= vals);
        r
    }

    /// The text of the command that writes a record: `HSET` followed by its
    /// arguments, separated by single spaces.
    pub fn set_command(&self, key: &str, values: &Vec<String>) -> (r: String)
        requires
            values@.len() == self.fields@.len(),
        ensures
            r@ == set_command_spec(hset_args_spec(self@, key@, views(values@))),
    {
        let args = self.gen_hset_args(key, values);
        let joined = join(&args, " ");
        concat("HSET ", joined.as_str())
    }

    /// The text of the command that reads the record with key `key`:
    /// `HGETALL` and the key as it is.
    pub fn getall_command(&self, key: &str) -> (r: String)
        ensures
            r@ == getall_command_spec(key@),
    {
        concat("HGETALL ", key)
    }

    /// Reads a record from the fields of its hash: the key field's value and
    /// each stored field's value, in order; fails on the first field, the key
    /// field first, that `args` lacks.
    pub fn get_hset_from_args(&self, args: &FieldMap) -> (r: Result<RawRecord, DecodeError>)
        ensures
            decode_result_view(r) == decode_spec(self@, args@),
    {
        let key = match args.get(self.key_name.as_str()) {
            Some(k) => k.clone(),
            None => {
                return Err(DecodeError::MissingKey);
            },
        };
        let ghost names = field_names(self@);
        let mut values: Vec<String> = Vec::new();
        let mut i: usize = 0;
        while i < self.fields.len()
            invariant
                i <= self.fields@.len(),
                names == field_names(self@),
                args@.dom().contains(self@.key_name),
                first_missing(names.take(i as int), args@) is None,
                views(values@) == names.take(i as int).map_values(|n: Seq<char>| args@[n]),
            decreases self.fields.len() - i,
        {
            let ghost t = names.take(i + 1);
            assert(t.drop_last() =~= names.take(i as int));
            assert(t.last() == self.fields@[i as int].name@);
            match args.get(self.fields[i].name.as_str()) {
                Some(v) => {
                    let ghost before = views(values@);
                    assert(args@[t.last()] == v@);
                    values.push(v.clone());
                    assert(views(values@) =~= before.push(v@));
                    assert(t.map_values(|n: Seq<char>| args@[n]) =~= names.take(
                        i as int,
                    ).map_values(|n: Seq<char>| args@[n]).push(args@[t.last()]));
                },
                None => {
                    proof {
                        assert(first_missing(t, args@) == Some(i as int));
                        assert forall|k: int| i + 1 <= k <= names.len() implies first_missing(
                            #[trigger] names.take(k),
                            args@,
                        ) == Some(i as int) by {
                            lemma_first_missing_extends(names, i as int + 1, k, args@);
                        }
                        assert(names.take(names.len() as int) =~= names);
                    }
                    return Err(DecodeError::MissingField(self.fields[i].name.clone()));
                },
            }
            i = i + 1;
        }
        assert(names.take(self.fields.len() as int) =~= names);
        Ok(RawRecord { key, values })
    }

    /// Reads the record with key `key` from the reply to `HGETALL prefix:key`:
    /// the key field is set to `prefix:key` before the fields are read.
    pub fn record_from_reply(&self, key: &str, reply: FieldMap) -> (r: Result<
        RawRecord,
        DecodeError,
    >)
        ensures
            decode_result_view(r) == decode_spec(
                self@,
                read_fields_spec(self@.prefix, self@.key_name, key@, reply@),
            ),
    {
        let fields = read_fields(self.prefix.as_str(), self.key_name.as_str(), key, reply);
        self.get_hset_from_args(&fields)
    }
}

/// Once a prefix of the names has a missing field, every longer prefix finds
/// that same field first.
pub proof fn lemma_first_missing_extends(
    names: Seq<Seq<char>>,
    j: int,
    k: int,
    map: Map<Seq<char>, Seq<char>>,
)
    requires
        0 <= j <= k <= names.len(),
        first_missing(names.take(j), map) is Some,
    ensures
        first_missing(names.take(k), map) == first_missing(names.take(j), map),
    decreases k - j,
{
    if k > j {
        lemma_first_missing_extends(names, j, k - 1, map);
        assert(names.take(k).drop_last() =~= names.take(k - 1));
    }
}

} // verus!
