//! What holds across the operations of a model: a record written with `HSET`
//! is read back from its hash, the hash a read addresses is the one a write
//! wrote, and a scanned hash name gives back the key it was made from.
use crate::command::{command_spec, text_arg};
use crate::derive::{
    conversion_spec, derive_spec, first_conversion_error, is_key_attr, is_key_field,
    last_key_field, stored_fields, FieldAttr, FieldDef, Fields, GenericArg, Lit, Meta,
    PathArguments, StructDef, TypeDesc,
};
use crate::errors::DeriveError;
use crate::field_map::{lemma_pairs_map_value, pairs_map, unique_fields};
use crate::keys::{
    hash_key_spec, key_from_hash_key_spec, key_prefix_spec, lemma_key_roundtrip,
    scan_pattern_spec,
};
use crate::schema::{
    decode_spec, field_names, first_missing, getall_command_spec, hset_args_spec, interleave,
    read_fields_spec, set_command_spec, written_pairs, ConversionView, ModelView,
};
use crate::text::{contains_spec, join_spec};
use vstd::utf8::encode_utf8;
use vstd::prelude::*;

verus! {

/// The name at position `i` of an interleaving stands at `2 i`, its value
/// right after it.
pub proof fn lemma_interleave_at(names: Seq<Seq<char>>, values: Seq<Seq<char>>, i: int)
    requires
        values.len() == names.len(),
        0 <= i < names.len(),
    ensures
        interleave(names, values).len() == 2 * names.len(),
        interleave(names, values)[2 * i] == names[i],
        interleave(names, values)[2 * i + 1] == values[i],
    decreases names.len(),
{
    let n = names.len() - 1;
    let vt = values.take(n as int);
    let front = interleave(names.drop_last(), vt);
    lemma_interleave_len(names.drop_last(), vt);
    assert(interleave(names, values) == front + seq![names.last(), values[n as int]]);
    if i < n {
        lemma_interleave_at(names.drop_last(), vt, i);
        assert(names.drop_last()[i] == names[i]);
        assert(vt[i] == values[i]);
    }
}

/// An interleaving is twice as long as its names.
pub proof fn lemma_interleave_len(names: Seq<Seq<char>>, values: Seq<Seq<char>>)
    requires
        values.len() == names.len(),
    ensures
        interleave(names, values).len() == 2 * names.len(),
    decreases names.len(),
{
    if names.len() > 0 {
        lemma_interleave_len(names.drop_last(), values.take(names.len() - 1));
    }
}

/// Where every stored field is in the map, no field is missing.
pub proof fn lemma_none_missing(names: Seq<Seq<char>>, map: Map<Seq<char>, Seq<char>>)
    requires
        forall|i: int| 0 <= i < names.len() ==> map.dom().contains(#[trigger] names[i]),
    ensures
        first_missing(names, map) is None,
    decreases names.len(),
{
    if names.len() > 0 {
        let d = names.drop_last();
        assert forall|i: int| 0 <= i < d.len() implies map.dom().contains(#[trigger] d[i]) by {
            assert(d[i] == names[i]);
        }
        lemma_none_missing(d, map);
        assert(map.dom().contains(names[names.len() - 1]));
    }
}

/// A record that `HSET` writes is read back from its hash: reading the fields
/// that the `HSET` arguments store, with the key field set as a read by key
/// sets it, gives the stored values unchanged and, as the key field, the name
/// of the hash. The hash that the arguments write is the one named by the
/// key. The stored field names are distinct and none is the key field's name.
pub proof fn law_write_then_read(m: ModelView, key: Seq<char>, values: Seq<Seq<char>>)
    requires
        values.len() == m.fields.len(),
        forall|i: int, j: int|
            0 <= i < m.fields.len() && 0 <= j < m.fields.len() && i != j ==> m.fields[i].0
                != m.fields[j].0,
        forall|i: int| 0 <= i < m.fields.len() ==> m.fields[i].0 != m.key_name,
    ensures
        hset_args_spec(m, key, values)[0] == hash_key_spec(m.prefix, key),
        decode_spec(
            m,
            read_fields_spec(
                m.prefix,
                m.key_name,
                key,
                pairs_map(written_pairs(hset_args_spec(m, key, values))),
            ),
        ) == Ok::<(Seq<char>, Seq<Seq<char>>), crate::schema::DecodeFailure>(
            (hash_key_spec(m.prefix, key), values),
        ),
{
    let names = field_names(m);
    let args = hset_args_spec(m, key, values);
    lemma_interleave_len(names, values);
    let pairs = written_pairs(args);
    assert(pairs.len() == names.len());
    assert forall|i: int| 0 <= i < pairs.len() implies #[trigger] pairs[i] == (
        names[i],
        values[i],
    ) by {
        lemma_interleave_at(names, values, i);
        assert(args[1 + 2 * i] == interleave(names, values)[2 * i]);
        assert(args[2 + 2 * i] == interleave(names, values)[2 * i + 1]);
    }
    assert(unique_fields(pairs)) by {
        assert forall|i: int, j: int|
            0 <= i < pairs.len() && 0 <= j < pairs.len() && i != j implies pairs[i].0
            != pairs[j].0 by {
            assert(pairs[i].0 == names[i] && names[i] == m.fields[i].0);
            assert(pairs[j].0 == names[j] && names[j] == m.fields[j].0);
        }
    }
    let stored = pairs_map(pairs);
    let read = read_fields_spec(m.prefix, m.key_name, key, stored);
    assert forall|i: int| 0 <= i < names.len() implies read.dom().contains(#[trigger] names[i])
        && read[names[i]] == values[i] by {
        lemma_pairs_map_value(pairs, i);
        assert(names[i] == m.fields[i].0);
    }
    lemma_none_missing(names, read);
    assert(names.map_values(|n: Seq<char>| read[n]) =~= values);
}

/// The stored field at position `i` is the field at some position `j`, with
/// `i` stored fields before it; it is not named `key_name`.
pub proof fn lemma_stored_member(fs: Seq<FieldDef>, key_name: Seq<char>, i: int) -> (j: int)
    requires
        0 <= i < stored_fields(fs, key_name).len(),
    ensures
        0 <= j < fs.len(),
        fs[j] == stored_fields(fs, key_name)[i],
        stored_fields(fs.take(j), key_name).len() == i,
        fs[j].ident@ != key_name,
    decreases fs.len(),
{
    let d = fs.drop_last();
    let sd = stored_fields(d, key_name);
    if i < sd.len() {
        assert(stored_fields(fs, key_name)[i] == sd[i]);
        let j = lemma_stored_member(d, key_name, i);
        assert(fs.take(j) =~= d.take(j));
        j
    } else {
        assert(fs.last().ident@ != key_name);
        assert(fs.take(fs.len() - 1) =~= d);
        fs.len() - 1
    }
}

/// Where the fields' names are distinct, so are the stored fields' names.
pub proof fn lemma_stored_distinct(fs: Seq<FieldDef>, key_name: Seq<char>, a: int, b: int)
    requires
        forall|i: int, j: int|
            0 <= i < fs.len() && 0 <= j < fs.len() && i != j ==> fs[i].ident@ != fs[j].ident@,
        0 <= a < stored_fields(fs, key_name).len(),
        0 <= b < stored_fields(fs, key_name).len(),
        a != b,
    ensures
        stored_fields(fs, key_name)[a].ident@ != stored_fields(fs, key_name)[b].ident@,
{
    let ja = lemma_stored_member(fs, key_name, a);
    let jb = lemma_stored_member(fs, key_name, b);
    assert(ja != jb);
}

/// A model derived from a struct whose field names are distinct reads back
/// what it writes: the record written with `HSET` and read from its hash
/// gives the stored values unchanged and, as the key field, the name of the
/// hash.
pub proof fn law_derived_model_reads_back(def: StructDef, key: Seq<char>, values: Seq<Seq<char>>)
    requires
        derive_spec(def) is Ok,
        def.fields matches Fields::Named(fs) && forall|i: int, j: int|
            0 <= i < fs@.len() && 0 <= j < fs@.len() && i != j ==> fs@[i].ident@
                != fs@[j].ident@,
        values.len() == derive_spec(def)->Ok_0.fields.len(),
    ensures
        ({
            let m = derive_spec(def)->Ok_0;
            decode_spec(
                m,
                read_fields_spec(
                    m.prefix,
                    m.key_name,
                    key,
                    pairs_map(written_pairs(hset_args_spec(m, key, values))),
                ),
            ) == Ok::<(Seq<char>, Seq<Seq<char>>), crate::schema::DecodeFailure>(
                (hash_key_spec(m.prefix, key), values),
            )
        }),
{
    let m = derive_spec(def)->Ok_0;
    let fs = def.fields->Named_0@;
    let k = last_key_field(fs)->Some_0;
    let key_name = fs[k].ident@;
    let stored = stored_fields(fs, key_name);
    assert(m.key_name == key_name);
    assert forall|i: int| 0 <= i < m.fields.len() implies #[trigger] m.fields[i].0
        != m.key_name by {
        assert(m.fields[i].0 == stored[i].ident@);
        lemma_stored_member(fs, key_name, i);
    }
    assert forall|i: int, j: int|
        0 <= i < m.fields.len() && 0 <= j < m.fields.len() && i != j implies m.fields[i].0
        != m.fields[j].0 by {
        assert(m.fields[i].0 == stored[i].ident@);
        assert(m.fields[j].0 == stored[j].ident@);
        lemma_stored_distinct(fs, key_name, i, j);
    }
    law_write_then_read(m, key, values);
}

/// A scanned hash name gives back the key it was made from, provided the key
/// does not itself contain `prefix:`.
pub proof fn law_scanned_key_roundtrip(prefix: Seq<char>, key: Seq<char>)
    requires
        !contains_spec(key, key_prefix_spec(prefix)),
    ensures
        key_from_hash_key_spec(prefix, hash_key_spec(prefix, key)) == key,
{
    lemma_key_roundtrip(prefix, key);
}

/// Every hash name of a model begins with what the model's scan pattern puts
/// before its closing `*`: the prefix and a colon.
pub proof fn law_hash_names_fit_scan_pattern(prefix: Seq<char>, key: Seq<char>)
    ensures
        scan_pattern_spec(prefix) == key_prefix_spec(prefix) + "*"@,
        hash_key_spec(prefix, key).subrange(0, key_prefix_spec(prefix).len() as int)
            == key_prefix_spec(prefix),
{
    reveal_strlit(":*");
    reveal_strlit(":");
    reveal_strlit("*");
    assert(scan_pattern_spec(prefix) =~= key_prefix_spec(prefix) + "*"@);
    assert(hash_key_spec(prefix, key).subrange(0, key_prefix_spec(prefix).len() as int)
        =~= key_prefix_spec(prefix));
}

/// An attribute `#[redorm(..., key, ...)]`: named `redorm`, with `key` as a
/// bare item at some position of its argument list.
pub open spec fn marks_key(a: FieldAttr) -> bool {
    &&& a.path_ident matches Some(id) && id@ == "redorm"@
    &&& a.args matches Some(list) && exists|k: int|
        0 <= k < list@.len() && (#[trigger] list@[k] matches Meta::Path(Some(kw)) && kw@
            == "key"@)
}

/// The last field that has a key attribute, at any position of its
/// attribute list, is the last key field.
proof fn lemma_last_key_field_is(fs: Seq<FieldDef>, i: int)
    requires
        0 <= i < fs.len(),
        is_key_field(fs[i]),
        forall|i2: int| i < i2 < fs.len() ==> !is_key_field(#[trigger] fs[i2]),
    ensures
        last_key_field(fs) == Some(i),
    decreases fs.len(),
{
    if i < fs.len() - 1 {
        let d = fs.drop_last();
        assert(!is_key_field(fs[fs.len() - 1]));
        assert(d[i] == fs[i]);
        assert forall|i2: int| i < i2 < d.len() implies !is_key_field(#[trigger] d[i2]) by {
            assert(d[i2] == fs[i2]);
        }
        lemma_last_key_field_is(d, i);
    }
}

/// The errors that a field's type can give.
pub open spec fn is_type_error(e: DeriveError) -> bool {
    e == DeriveError::UnsupportedType || e == DeriveError::NoGenericArgument || e
        == DeriveError::TimezoneNotFound
}

proof fn lemma_first_conversion_error_kind(fs: Seq<FieldDef>)
    ensures
        first_conversion_error(fs) matches Some(e) ==> is_type_error(e),
    decreases fs.len(),
{
    if fs.len() > 0 {
        lemma_first_conversion_error_kind(fs.drop_last());
    }
}

/// The key field of a derived model is the last field that carries
/// `#[redorm(key)]` among its attributes, wherever that attribute stands in
/// the field's attribute list: with such a field `i` (its attribute `j`
/// marking the key) and no key attribute on any later field, the derive does
/// not fail for want of a key, its model's key is field `i`'s name, and it
/// fails, if at all, only on a field's type.
pub proof fn law_key_field_anywhere_in_attributes(
    def: StructDef,
    fs: Seq<FieldDef>,
    i: int,
    j: int,
)
    requires
        def.fields matches Fields::Named(v) && v@ == fs,
        !(def.redorm.prefix_name matches Some(Lit::Other)),
        0 <= i < fs.len(),
        0 <= j < fs[i].attrs@.len(),
        marks_key(fs[i].attrs@[j]),
        forall|i2: int, j2: int|
            i < i2 < fs.len() && 0 <= j2 < fs[i2].attrs@.len() ==> !marks_key(
                #[trigger] fs[i2].attrs@[j2],
            ),
    ensures
        derive_spec(def) != Err::<ModelView, DeriveError>(DeriveError::NoKey),
        derive_spec(def) matches Ok(m) ==> m.key_name == fs[i].ident@,
        derive_spec(def) matches Err(e) ==> is_type_error(e),
{
    assert(is_key_attr(fs[i].attrs@[j]));
    assert(is_key_field(fs[i]));
    assert forall|i2: int| i < i2 < fs.len() implies !is_key_field(#[trigger] fs[i2]) by {
        assert forall|j2: int| 0 <= j2 < fs[i2].attrs@.len() implies !is_key_attr(
            #[trigger] fs[i2].attrs@[j2],
        ) by {
            assert(!marks_key(fs[i2].attrs@[j2]));
        }
    }
    lemma_last_key_field_is(fs, i);
    lemma_first_conversion_error_kind(stored_fields(fs, fs[i].ident@));
}

/// A `DateTime` field is read back in the time zone that its type names:
/// for every zone type `tz`, `DateTime<tz, ...>` is parsed as
/// `DateTime<tz>`.
pub proof fn law_date_time_keeps_its_zone(
    ident: String,
    args: Vec<GenericArg>,
    tz: String,
)
    requires
        ident@ == "DateTime"@,
        args@.len() > 0,
        args@[0] == GenericArg::TypePath(tz),
    ensures
        conversion_spec(TypeDesc::Path { ident, arguments: PathArguments::AngleBracketed(args) })
            == Ok::<ConversionView, DeriveError>(ConversionView::ZonedTimestamp("DateTime"@, tz@)),
{
    reveal_strlit("DateTime");
    reveal_strlit("String");
    reveal_strlit("usize");
    reveal_strlit("u8");
    reveal_strlit("u16");
    reveal_strlit("u32");
    reveal_strlit("u64");
    reveal_strlit("u128");
    reveal_strlit("isize");
    reveal_strlit("i8");
    reveal_strlit("i16");
    reveal_strlit("i32");
    reveal_strlit("i64");
    reveal_strlit("i128");
    reveal_strlit("f32");
    reveal_strlit("f64");
    reveal_strlit("NaiveDate");
    reveal_strlit("NaiveTime");
    reveal_strlit("Time");
    assert(ident@.len() == 8);
    assert(ident@ != "String"@);
    assert(ident@ != "NaiveDate"@);
    assert(ident@ != "NaiveTime"@);
    assert(ident@ != "Time"@);
}

/// The text that reads a record is `HGETALL`, a space, and the whole key:
/// it is eight characters longer than the key, and the key, every character
/// of it, follows those eight.
pub proof fn law_getall_command_holds_the_whole_key(key: Seq<char>)
    ensures
        getall_command_spec(key).len() == 8 + key.len(),
        getall_command_spec(key).subrange(0, 8) == seq!['H', 'G', 'E', 'T', 'A', 'L', 'L', ' '],
        getall_command_spec(key).subrange(8, 8 + key.len() as int) == key,
{
    reveal_strlit("HGETALL ");
    let t = getall_command_spec(key);
    assert(t.subrange(0, 8) =~= seq!['H', 'G', 'E', 'T', 'A', 'L', 'L', ' ']);
    assert(t.subrange(8, 8 + key.len() as int) =~= key);
}

/// Where the `i`-th of `parts` starts once they are laid out with `sep_len`
/// characters between neighbours.
pub open spec fn piece_start(parts: Seq<Seq<char>>, sep_len: int, i: int) -> int
    decreases i,
{
    if i <= 0 {
        0
    } else {
        piece_start(parts, sep_len, i - 1) + parts[i - 1].len() + sep_len
    }
}

proof fn lemma_piece_start_prefix(parts: Seq<Seq<char>>, d: Seq<Seq<char>>, sep_len: int, i: int)
    requires
        0 <= i <= d.len() <= parts.len(),
        forall|k: int| 0 <= k < d.len() ==> d[k] == parts[k],
    ensures
        piece_start(parts, sep_len, i) == piece_start(d, sep_len, i),
    decreases i,
{
    if i > 0 {
        lemma_piece_start_prefix(parts, d, sep_len, i - 1);
    }
}

/// A joined text is as long as its parts with one separator between
/// neighbours.
proof fn lemma_join_len(parts: Seq<Seq<char>>, sep: Seq<char>)
    requires
        parts.len() > 0,
    ensures
        join_spec(parts, sep).len() == piece_start(parts, sep.len() as int, parts.len() as int)
            - sep.len(),
    decreases parts.len(),
{
    if parts.len() > 1 {
        let d = parts.drop_last();
        lemma_join_len(d, sep);
        lemma_piece_start_prefix(parts, d, sep.len() as int, d.len() as int);
        assert(join_spec(parts, sep) == join_spec(d, sep) + sep + parts.last());
        assert(piece_start(parts, sep.len() as int, parts.len() as int) == piece_start(
            parts,
            sep.len() as int,
            parts.len() - 1,
        ) + parts[parts.len() - 1].len() + sep.len());
    } else {
        assert(piece_start(parts, sep.len() as int, 0) == 0);
        assert(piece_start(parts, sep.len() as int, 1) == parts[0].len() + sep.len());
    }
}

/// The `i`-th part stands, whole, at its start in the joined text.
proof fn lemma_join_part(parts: Seq<Seq<char>>, sep: Seq<char>, i: int)
    requires
        0 <= i < parts.len(),
    ensures
        piece_start(parts, sep.len() as int, i) + parts[i].len() <= join_spec(parts, sep).len(),
        join_spec(parts, sep).subrange(
            piece_start(parts, sep.len() as int, i),
            piece_start(parts, sep.len() as int, i) + parts[i].len(),
        ) == parts[i],
    decreases parts.len(),
{
    let sl = sep.len() as int;
    let n = parts.len() as int;
    let t = join_spec(parts, sep);
    if n == 1 {
        assert(t.subrange(0, parts[0].len() as int) =~= parts[0]);
    } else {
        let d = parts.drop_last();
        let td = join_spec(d, sep);
        assert(t == td + sep + parts.last());
        lemma_join_len(d, sep);
        lemma_piece_start_prefix(parts, d, sl, i);
        lemma_piece_start_prefix(parts, d, sl, n - 1);
        lemma_piece_start_mono(parts, sl, 0, i);
        if i < n - 1 {
            lemma_join_part(d, sep, i);
            assert(d[i] == parts[i]);
            let a = piece_start(parts, sl, i);
            assert(t.subrange(a, a + parts[i].len()) =~= td.subrange(a, a + d[i].len()));
        } else {
            let a = piece_start(parts, sl, i);
            assert(a == td.len() + sl);
            assert(t.subrange(a, a + parts[i].len()) =~= parts.last());
        }
    }
}

/// The separator, and nothing else, stands between neighbouring parts.
proof fn lemma_join_sep(parts: Seq<Seq<char>>, sep: Seq<char>, i: int)
    requires
        0 <= i < parts.len() - 1,
    ensures
        piece_start(parts, sep.len() as int, i + 1) <= join_spec(parts, sep).len(),
        join_spec(parts, sep).subrange(
            piece_start(parts, sep.len() as int, i) + parts[i].len(),
            piece_start(parts, sep.len() as int, i + 1),
        ) == sep,
    decreases parts.len(),
{
    let sl = sep.len() as int;
    let n = parts.len() as int;
    let t = join_spec(parts, sep);
    let d = parts.drop_last();
    let td = join_spec(d, sep);
    assert(t == td + sep + parts.last());
    lemma_join_len(d, sep);
    lemma_piece_start_prefix(parts, d, sl, i);
    lemma_piece_start_prefix(parts, d, sl, i + 1);
    lemma_piece_start_prefix(parts, d, sl, n - 1);
    lemma_piece_start_mono(parts, sl, 0, i);
    assert(d[i] == parts[i]);
    let a = piece_start(parts, sl, i) + parts[i].len();
    let b = piece_start(parts, sl, i + 1);
    if i < n - 2 {
        lemma_join_sep(d, sep, i);
        assert(t.subrange(a, b) =~= td.subrange(a, b));
    } else {
        assert(a == td.len());
        assert(t.subrange(a, b) =~= sep);
    }
}

/// Joining keeps every part, whole and in order, with the separator between
/// neighbours and nothing else: the `i`-th part stands at `piece_start(i)`,
/// the separator right after it, and the text ends with the last part.
pub proof fn law_join_keeps_every_part(parts: Seq<Seq<char>>, sep: Seq<char>)
    requires
        parts.len() > 0,
    ensures
        join_spec(parts, sep).len() == piece_start(parts, sep.len() as int, parts.len() as int)
            - sep.len(),
        forall|i: int|
            #![trigger parts[i]]
            0 <= i < parts.len() ==> join_spec(parts, sep).subrange(
                piece_start(parts, sep.len() as int, i),
                piece_start(parts, sep.len() as int, i) + parts[i].len(),
            ) == parts[i],
        forall|i: int|
            #![trigger parts[i]]
            0 <= i < parts.len() - 1 ==> join_spec(parts, sep).subrange(
                piece_start(parts, sep.len() as int, i) + parts[i].len(),
                piece_start(parts, sep.len() as int, i + 1),
            ) == sep,
{
    lemma_join_len(parts, sep);
    assert forall|i: int|
        #![trigger parts[i]]
        0 <= i < parts.len() implies join_spec(parts, sep).subrange(
            piece_start(parts, sep.len() as int, i),
            piece_start(parts, sep.len() as int, i) + parts[i].len(),
        ) == parts[i] by {
        lemma_join_part(parts, sep, i);
    }
    assert forall|i: int|
        #![trigger parts[i]]
        0 <= i < parts.len() - 1 implies join_spec(parts, sep).subrange(
            piece_start(parts, sep.len() as int, i) + parts[i].len(),
            piece_start(parts, sep.len() as int, i + 1),
        ) == sep by {
        lemma_join_sep(parts, sep, i);
    }
}

proof fn lemma_piece_start_le(parts: Seq<Seq<char>>, sl: int, a: int, b: int)
    requires
        0 <= a <= b <= parts.len(),
        sl >= 0,
    ensures
        piece_start(parts, sl, a) + (if a < b {
            parts[a].len() + sl
        } else {
            0
        }) <= piece_start(parts, sl, b),
    decreases b - a,
{
    if a < b {
        lemma_piece_start_le(parts, sl, a + 1, b);
        lemma_piece_start_mono(parts, sl, a + 1, b);
    }
}

proof fn lemma_piece_start_mono(parts: Seq<Seq<char>>, sl: int, a: int, b: int)
    requires
        0 <= a <= b <= parts.len(),
        sl >= 0,
    ensures
        piece_start(parts, sl, a) <= piece_start(parts, sl, b),
    decreases b - a,
{
    if a < b {
        lemma_piece_start_mono(parts, sl, a, b - 1);
    }
}

/// The text that writes a record holds every `HSET` argument, whole, in
/// order, each after `HSET ` and the arguments before it with a single space
/// between neighbours; there are `1 + 2 n` arguments for `n` stored fields,
/// so no stored field is left out, whatever their number.
pub proof fn law_set_command_writes_every_argument(
    m: ModelView,
    key: Seq<char>,
    values: Seq<Seq<char>>,
)
    requires
        values.len() == m.fields.len(),
    ensures
        ({
            let args = hset_args_spec(m, key, values);
            let t = set_command_spec(args);
            &&& args.len() == 1 + 2 * m.fields.len()
            &&& t.len() == 5 + piece_start(args, 1, args.len() as int) - 1
            &&& t.subrange(0, 5) == seq!['H', 'S', 'E', 'T', ' ']
            &&& forall|i: int|
                #![trigger args[i]]
                0 <= i < args.len() ==> t.subrange(
                    5 + piece_start(args, 1, i),
                    5 + piece_start(args, 1, i) + args[i].len(),
                ) == args[i]
            &&& forall|i: int|
                #![trigger args[i]]
                0 <= i < args.len() - 1 ==> t.subrange(
                    5 + piece_start(args, 1, i) + args[i].len(),
                    5 + piece_start(args, 1, i + 1),
                ) == seq![' ']
        }),
{
    reveal_strlit("HSET ");
    reveal_strlit(" ");
    let names = field_names(m);
    lemma_interleave_len(names, values);
    let args = hset_args_spec(m, key, values);
    let sep = " "@;
    assert(sep =~= seq![' ']);
    let j = join_spec(args, sep);
    let t = set_command_spec(args);
    assert(t == "HSET "@ + j);
    lemma_join_len(args, sep);
    assert(t.subrange(0, 5) =~= seq!['H', 'S', 'E', 'T', ' ']);
    assert forall|i: int|
        #![trigger args[i]]
        0 <= i < args.len() implies t.subrange(
            5 + piece_start(args, 1, i),
            5 + piece_start(args, 1, i) + args[i].len(),
        ) == args[i] by {
        lemma_join_part(args, sep, i);
        lemma_piece_start_mono(args, 1, 0, i);
        assert(sep.len() == 1);
        assert(t.subrange(5 + piece_start(args, 1, i), 5 + piece_start(args, 1, i)
            + args[i].len()) =~= j.subrange(
            piece_start(args, 1, i),
            piece_start(args, 1, i) + args[i].len(),
        ));
    }
    assert forall|i: int|
        #![trigger args[i]]
        0 <= i < args.len() - 1 implies t.subrange(
            5 + piece_start(args, 1, i) + args[i].len(),
            5 + piece_start(args, 1, i + 1),
        ) == seq![' '] by {
        lemma_join_sep(args, sep, i);
        lemma_piece_start_mono(args, 1, 0, i);
        assert(sep.len() == 1);
        assert(t.subrange(5 + piece_start(args, 1, i) + args[i].len(), 5 + piece_start(
            args,
            1,
            i + 1,
        )) =~= j.subrange(piece_start(args, 1, i) + args[i].len(), piece_start(args, 1, i + 1)));
    }
}

/// A command built from a name and `n` plain arguments has exactly `n + 1`
/// arguments: the name's UTF-8 bytes first, then the UTF-8 bytes of each
/// argument, in order, every one of them.
pub proof fn law_command_holds_every_argument(name: Seq<char>, args: Seq<Seq<char>>)
    ensures
        command_spec(name, args).len() == args.len() + 1,
        command_spec(name, args)[0] == Some(encode_utf8(name)),
        forall|i: int|
            0 <= i < args.len() ==> #[trigger] command_spec(name, args)[i + 1] == Some(
                encode_utf8(args[i]),
            ),
{
}

} // verus!
