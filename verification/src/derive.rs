//! The rules by which a struct definition becomes a record model: the prefix
//! comes from the `prefix_name` argument of `#[redorm(...)]` or else from the
//! struct's name; the key is the last field marked `#[redorm(key)]`; every
//! other field is stored, in order; and each field's type decides how its
//! stored string is read back.
use crate::errors::DeriveError;
use crate::schema::{Conversion, ConversionView, FieldSchema, ModelSchema, ModelView};
use crate::text::str_eq;
use vstd::prelude::*;

verus! {

/// A literal given to an attribute argument: a string, or any other kind.
#[derive(Debug)]
pub enum Lit {
    Str(String),
    Other,
}

/// The arguments of the struct's `#[redorm(...)]` attribute.
#[derive(Debug)]
pub struct Redorm {
    /// `prefix_name = <literal>`, if given.
    pub prefix_name: Option<Lit>,
    /// `key = <ident>`, if given.
    pub key: Option<String>,
}

/// An item of a field attribute's argument list: a path, with its identifier
/// where the path is a single identifier; or anything else.
#[derive(Debug)]
pub enum Meta {
    Path(Option<String>),
    Other,
}

/// An attribute on a field.
#[derive(Debug)]
pub struct FieldAttr {
    /// The attribute's name, where its path is a single identifier.
    pub path_ident: Option<String>,
    /// The attribute's arguments as a comma-separated list of items, or
    /// `None` where they are not such a list.
    pub args: Option<Vec<Meta>>,
}

/// A generic argument of a path segment: a type that is a path (by its first
/// segment's identifier), another type, or something other than a type.
#[derive(Debug)]
pub enum GenericArg {
    TypePath(String),
    OtherType,
    Other,
}

/// The arguments of a path segment.
#[derive(Debug)]
pub enum PathArguments {
    Plain,
    AngleBracketed(Vec<GenericArg>),
    Parenthesized,
}

/// A field's type: a path, by its first segment; or any other type.
#[derive(Debug)]
pub enum TypeDesc {
    Path { ident: String, arguments: PathArguments },
    Other,
}

/// A named field of a struct.
#[derive(Debug)]
pub struct FieldDef {
    pub ident: String,
    pub attrs: Vec<FieldAttr>,
    pub ty: TypeDesc,
}

/// The fields of a struct.
#[derive(Debug)]
pub enum Fields {
    Named(Vec<FieldDef>),
    Unnamed,
    Unit,
}

/// A struct definition, as the derive reads it.
#[derive(Debug)]
pub struct StructDef {
    pub ident: String,
    pub redorm: Redorm,
    pub fields: Fields,
}

/// The type names whose values are parsed as numbers.
pub open spec fn is_number_type(n: Seq<char>) -> bool {
    ||| n == "usize"@
    ||| n == "u8"@
    ||| n == "u16"@
    ||| n == "u32"@
    ||| n == "u64"@
    ||| n == "u128"@
    ||| n == "isize"@
    ||| n == "i8"@
    ||| n == "i16"@
    ||| n == "i32"@
    ||| n == "i64"@
    ||| n == "i128"@
    ||| n == "f32"@
    ||| n == "f64"@
}

/// The type names whose values are parsed as dates or times.
pub open spec fn is_timestamp_type(n: Seq<char>) -> bool {
    n == "NaiveDate"@ || n == "NaiveTime"@ || n == "Time"@
}

/// How a field of type `ty` is read back: `String` as it is; the number
/// types by parsing; `NaiveDate`, `NaiveTime` and `Time` by parsing as that
/// type; `DateTime<Tz>` by parsing with the time zone named by the first
/// segment of its first generic argument; any other path with `try_into`.
pub open spec fn conversion_spec(ty: TypeDesc) -> Result<ConversionView, DeriveError> {
    match ty {
        TypeDesc::Other => Err(DeriveError::UnsupportedType),
        TypeDesc::Path { ident, arguments } => {
            if ident@ == "String"@ {
                Ok(ConversionView::Text)
            } else if is_number_type(ident@) {
                Ok(ConversionView::Number)
            } else if is_timestamp_type(ident@) {
                Ok(ConversionView::Timestamp(ident@))
            } else if ident@ == "DateTime"@ {
                match arguments {
                    PathArguments::AngleBracketed(args) => if args@.len() == 0 {
                        Err(DeriveError::NoGenericArgument)
                    } else {
                        match args@[0] {
                            GenericArg::TypePath(tz) => Ok(
                                ConversionView::ZonedTimestamp(ident@, tz@),
                            ),
                            _ => Err(DeriveError::TimezoneNotFound),
                        }
                    },
                    _ => Err(DeriveError::TimezoneNotFound),
                }
            } else {
                Ok(ConversionView::Convert)
            }
        },
    }
}

/// The conversion of a field whose type has one.
pub open spec fn conversion_of(ty: TypeDesc) -> ConversionView {
    match conversion_spec(ty) {
        Ok(c) => c,
        Err(_) => ConversionView::Convert,
    }
}

/// The item `key` as a bare path.
pub open spec fn is_key_meta(m: Meta) -> bool {
    m matches Meta::Path(Some(id)) && id@ == "key"@
}

/// A `#[redorm(...)]` attribute whose arguments list the item `key`.
pub open spec fn is_key_attr(a: FieldAttr) -> bool {
    &&& a.path_ident matches Some(id) && id@ == "redorm"@
    &&& a.args matches Some(list) && exists|j: int|
        0 <= j < list@.len() && is_key_meta(#[trigger] list@[j])
}

/// A field marked as the key.
pub open spec fn is_key_field(f: FieldDef) -> bool {
    exists|j: int| 0 <= j < f.attrs@.len() && is_key_attr(#[trigger] f.attrs@[j])
}

/// The position of the last field marked as the key.
pub open spec fn last_key_field(fs: Seq<FieldDef>) -> Option<int>
    decreases fs.len(),
{
    if fs.len() == 0 {
        None
    } else if is_key_field(fs.last()) {
        Some(fs.len() - 1)
    } else {
        last_key_field(fs.drop_last())
    }
}

/// The fields that are stored besides the key: those not named `key_name`,
/// in order.
pub open spec fn stored_fields(fs: Seq<FieldDef>, key_name: Seq<char>) -> Seq<FieldDef>
    decreases fs.len(),
{
    if fs.len() == 0 {
        Seq::empty()
    } else if fs.last().ident@ != key_name {
        stored_fields(fs.drop_last(), key_name).push(fs.last())
    } else {
        stored_fields(fs.drop_last(), key_name)
    }
}

/// The error of the first field, in order, whose type has no conversion.
pub open spec fn first_conversion_error(fs: Seq<FieldDef>) -> Option<DeriveError>
    decreases fs.len(),
{
    if fs.len() == 0 {
        None
    } else {
        match first_conversion_error(fs.drop_last()) {
            Some(e) => Some(e),
            None => match conversion_spec(fs.last().ty) {
                Err(e) => Some(e),
                Ok(_) => None,
            },
        }
    }
}

/// The prefix of a struct's hash names: the string given as `prefix_name`,
/// or else the struct's name.
pub open spec fn prefix_spec(def: StructDef) -> Result<Seq<char>, DeriveError> {
    match def.redorm.prefix_name {
        Some(Lit::Str(s)) => Ok(s@),
        Some(Lit::Other) => Err(DeriveError::PrefixNotString),
        None => Ok(def.ident@),
    }
}

/// The model that a struct definition describes, or the first rule it breaks:
/// the prefix first, then the kind of fields, the key, the key's type and the
/// stored fields' types in order.
pub open spec fn derive_spec(def: StructDef) -> Result<ModelView, DeriveError> {
    match prefix_spec(def) {
        Err(e) => Err(e),
        Ok(prefix) => match def.fields {
            Fields::Named(fs) => match last_key_field(fs@) {
                None => Err(DeriveError::NoKey),
                Some(k) => {
                    let key = fs@[k];
                    match conversion_spec(key.ty) {
                        Err(e) => Err(e),
                        Ok(kc) => {
                            let stored = stored_fields(fs@, key.ident@);
                            match first_conversion_error(stored) {
                                Some(e) => Err(e),
                                None => Ok(
                                    ModelView {
                                        prefix,
                                        key_name: key.ident@,
                                        key_conversion: kc,
                                        fields: stored.map_values(
                                            |f: FieldDef| (f.ident@, conversion_of(f.ty)),
                                        ),
                                    },
                                ),
                            }
                        },
                    }
                },
            },
            _ => Err(DeriveError::UnnamedFields),
        },
    }
}

/// A conversion result as text.
pub open spec fn conversion_result_view(r: Result<Conversion, DeriveError>) -> Result<
    ConversionView,
    DeriveError,
> {
    match r {
        Ok(c) => Ok(c@),
        Err(e) => Err(e),
    }
}

/// A derive result as text.
pub open spec fn model_result_view(r: Result<ModelSchema, DeriveError>) -> Result<
    ModelView,
    DeriveError,
> {
    match r {
        Ok(m) => Ok(m@),
        Err(e) => Err(e),
    }
}

/// Whether `s` is one of the number type names.
fn is_number_type_exec(s: &str) -> (r: bool)
    ensures
        r == is_number_type(s@),
{
    str_eq(s, "usize") || str_eq(s, "u8") || str_eq(s, "u16") || str_eq(s, "u32") || str_eq(
        s,
        "u64",
    ) || str_eq(s, "u128") || str_eq(s, "isize") || str_eq(s, "i8") || str_eq(s, "i16")
        || str_eq(s, "i32") || str_eq(s, "i64") || str_eq(s, "i128") || str_eq(s, "f32")
        || str_eq(s, "f64")
}

/// How a field of type `ty` is read back, or why it cannot be.
pub fn conversion_method(ty: &TypeDesc) -> (r: Result<Conversion, DeriveError>)
    ensures
        conversion_result_view(r) == conversion_spec(*ty),
{
    match ty {
        TypeDesc::Other => Err(DeriveError::UnsupportedType),
        TypeDesc::Path { ident, arguments } => {
            let name = ident.as_str();
            if str_eq(name, "String") {
                Ok(Conversion::Text)
            } else if is_number_type_exec(name) {
                Ok(Conversion::Number)
            } else if str_eq(name, "NaiveDate") || str_eq(name, "NaiveTime") || str_eq(
                name,
                "Time",
            ) {
                Ok(Conversion::Timestamp(ident.clone()))
            } else if str_eq(name, "DateTime") {
                match arguments {
                    PathArguments::AngleBracketed(args) => {
                        if args.len() == 0 {
                            Err(DeriveError::NoGenericArgument)
                        } else {
                            match &args[0] {
                                GenericArg::TypePath(tz) => Ok(
                                    Conversion::ZonedTimestamp(ident.clone(), tz.clone()),
                                ),
                                _ => Err(DeriveError::TimezoneNotFound),
                            }
                        }
                    },
                    _ => Err(DeriveError::TimezoneNotFound),
                }
            } else {
                Ok(Conversion::Convert)
            }
        },
    }
}

/// Whether an attribute is `#[redorm(...)]` with the item `key` among its
/// arguments.
fn is_key_attr_exec(a: &FieldAttr) -> (r: bool)
    ensures
        r == is_key_attr(*a),
{
    let is_redorm = match &a.path_ident {
        Some(id) => str_eq(id.as_str(), "redorm"),
        None => false,
    };
    if !is_redorm {
        return false;
    }
    match &a.args {
        Some(list) => {
            let mut j: usize = 0;
            while j < list.len()
                invariant
                    j <= list@.len(),
                    a.args == Some(*list),
                    a.path_ident matches Some(id) && id@ == "redorm"@,
                    forall|k: int| 0 <= k < j ==> !is_key_meta(#[trigger] list@[k]),
                decreases list.len() - j,
            {
                let found = match &list[j] {
                    Meta::Path(Some(id)) => str_eq(id.as_str(), "key"),
                    _ => false,
                };
                if found {
                    assert(is_key_meta(a.args.unwrap()@[j as int]));
                    return true;
                }
                j = j + 1;
            }
            false
        },
        None => false,
    }
}

/// Whether a field is marked as the key.
fn is_key_field_exec(f: &FieldDef) -> (r: bool)
    ensures
        r == is_key_field(*f),
{
    let mut j: usize = 0;
    while j < f.attrs.len()
        invariant
            j <= f.attrs@.len(),
            forall|k: int| 0 <= k < j ==> !is_key_attr(#[trigger] f.attrs@[k]),
        decreases f.attrs.len() - j,
    {
        if is_key_attr_exec(&f.attrs[j]) {
            return true;
        }
        j = j + 1;
    }
    false
}

/// Once some field has no conversion, the first such field stays the first
/// in every longer run of fields.
proof fn lemma_first_error_extends(fs: Seq<FieldDef>, j: int, k: int)
    requires
        0 <= j <= k <= fs.len(),
        first_conversion_error(fs.take(j)) is Some,
    ensures
        first_conversion_error(fs.take(k)) == first_conversion_error(fs.take(j)),
    decreases k - j,
{
    if k > j {
        lemma_first_error_extends(fs, j, k - 1);
        assert(fs.take(k).drop_last() =~= fs.take(k - 1));
    }
}

/// Filtering a longer run of fields filters its shorter run and then the
/// next field.
proof fn lemma_stored_take(fs: Seq<FieldDef>, i: int, key_name: Seq<char>)
    requires
        0 <= i < fs.len(),
    ensures
        stored_fields(fs.take(i + 1), key_name) == if fs[i].ident@ != key_name {
            stored_fields(fs.take(i), key_name).push(fs[i])
        } else {
            stored_fields(fs.take(i), key_name)
        },
{
    assert(fs.take(i + 1).drop_last() =~= fs.take(i));
}

/// The model that a struct definition describes, or the first rule that it
/// breaks: a prefix that is not a string, fields that are not named, no key
/// field, and then the first field, the key first, whose type has no
/// conversion.
pub fn derive_model(def: &StructDef) -> (r: Result<ModelSchema, DeriveError>)
    ensures
        model_result_view(r) == derive_spec(*def),
{
    let prefix = match &def.redorm.prefix_name {
        Some(Lit::Str(s)) => s.clone(),
        Some(Lit::Other) => {
            return Err(DeriveError::PrefixNotString);
        },
        None => def.ident.clone(),
    };
    let fields = match &def.fields {
        Fields::Named(fs) => fs,
        _ => {
            return Err(DeriveError::UnnamedFields);
        },
    };
    let ghost fs = fields@;
    let mut key_index: Option<usize> = None;
    let mut i: usize = 0;
    while i < fields.len()
        invariant
            fs == fields@,
            i <= fs.len(),
            match key_index {
                Some(k) => last_key_field(fs.take(i as int)) == Some(k as int),
                None => last_key_field(fs.take(i as int)) is None,
            },
        decreases fields.len() - i,
    {
        assert(fs.take(i + 1).drop_last() =~= fs.take(i as int));
        if is_key_field_exec(&fields[i]) {
            key_index = Some(i);
        }
        i = i + 1;
    }
    assert(fs.take(fields.len() as int) =~= fs);
    let k = match key_index {
        Some(k) => {
            proof {
                lemma_last_key_field_bound(fs);
            }
            k
        },
        None => {
            return Err(DeriveError::NoKey);
        },
    };
    let key_field = &fields[k];
    let key_conversion = match conversion_method(&key_field.ty) {
        Ok(c) => c,
        Err(e) => {
            return Err(e);
        },
    };
    let ghost key_name = key_field.ident@;
    let mut stored: Vec<FieldSchema> = Vec::new();
    let mut i: usize = 0;
    assert(fs.take(0) =~= Seq::<FieldDef>::empty());
    while i < fields.len()
        invariant
            fs == fields@,
            i <= fs.len(),
            k < fs.len(),
            *key_field == fs[k as int],
            last_key_field(fs) == Some(k as int),
            key_name == key_field.ident@,
            conversion_spec(key_field.ty) == Ok::<ConversionView, DeriveError>(key_conversion@),
            prefix_spec(*def) == Ok::<Seq<char>, DeriveError>(prefix@),
            def.fields == Fields::Named(*fields),
            first_conversion_error(stored_fields(fs.take(i as int), key_name)) is None,
            stored@.map_values(|f: FieldSchema| (f.name@, f.conversion@)) == stored_fields(
                fs.take(i as int),
                key_name,
            ).map_values(|f: FieldDef| (f.ident@, conversion_of(f.ty))),
        decreases fields.len() - i,
    {
        let f = &fields[i];
        proof {
            lemma_stored_take(fs, i as int, key_name);
        }
        if !str_eq(f.ident.as_str(), key_field.ident.as_str()) {
            let ghost before = stored_fields(fs.take(i as int), key_name);
            let ghost after = before.push(fs[i as int]);
            assert(after.drop_last() =~= before);
            match conversion_method(&f.ty) {
                Ok(c) => {
                    let ghost old_stored = stored@;
                    stored.push(FieldSchema { name: f.ident.clone(), conversion: c });
                    assert(stored@.map_values(|g: FieldSchema| (g.name@, g.conversion@))
                        =~= old_stored.map_values(|g: FieldSchema| (g.name@, g.conversion@)).push(
                        (f.ident@, c@),
                    ));
                    assert(after.map_values(|g: FieldDef| (g.ident@, conversion_of(g.ty)))
                        =~= before.map_values(|g: FieldDef| (g.ident@, conversion_of(g.ty))).push(
                        (f.ident@, conversion_of(f.ty)),
                    ));
                },
                Err(e) => {
                    proof {
                        assert(after.last() == fs[i as int]);
                        assert(first_conversion_error(after) == Some(e));
                        let whole = stored_fields(fs, key_name);
                        lemma_stored_prefix(fs, i as int + 1, key_name);
                        let m = after.len() as int;
                        assert(whole.take(m) =~= after);
                        lemma_first_error_extends(whole, m, whole.len() as int);
                        assert(whole.take(whole.len() as int) =~= whole);
                        assert(first_conversion_error(whole) == Some(e));
                    }
                    return Err(e);
                },
            }
        }
        i = i + 1;
    }
    assert(fs.take(fields.len() as int) =~= fs);
    Ok(ModelSchema { prefix, key_name: key_field.ident.clone(), key_conversion, fields: stored })
}

/// The last key field is one of the fields, and is marked as the key.
proof fn lemma_last_key_field_bound(fs: Seq<FieldDef>)
    ensures
        last_key_field(fs) matches Some(k) ==> 0 <= k < fs.len() && is_key_field(fs[k]),
    decreases fs.len(),
{
    if fs.len() > 0 {
        lemma_last_key_field_bound(fs.drop_last());
    }
}

/// The stored fields of a run of fields start the stored fields of every
/// longer run.
proof fn lemma_stored_prefix(fs: Seq<FieldDef>, i: int, key_name: Seq<char>)
    requires
        0 <= i <= fs.len(),
    ensures
        stored_fields(fs.take(i), key_name).len() <= stored_fields(fs, key_name).len(),
        stored_fields(fs, key_name).take(stored_fields(fs.take(i), key_name).len() as int)
            =~= stored_fields(fs.take(i), key_name),
    decreases fs.len() - i,
{
    if i < fs.len() {
        lemma_stored_prefix(fs, i + 1, key_name);
        lemma_stored_take(fs, i, key_name);
        let a = stored_fields(fs.take(i), key_name);
        let b = stored_fields(fs.take(i + 1), key_name);
        let w = stored_fields(fs, key_name);
        assert(w.take(a.len() as int) =~= w.take(b.len() as int).take(a.len() as int));
        assert(b.take(a.len() as int) =~= a);
    } else {
        assert(fs.take(i) =~= fs);
    }
}

} // verus!
