use redorm::derive::{
    conversion_method, derive_model, FieldAttr, FieldDef, Fields, GenericArg, Lit, Meta,
    PathArguments, Redorm, StructDef, TypeDesc,
};
use redorm::errors::DeriveError;
use redorm::schema::{Conversion, ModelSchema};

fn ty(name: &str) -> TypeDesc {
    TypeDesc::Path { ident: name.to_string(), arguments: PathArguments::Plain }
}

fn key_attr() -> FieldAttr {
    FieldAttr {
        path_ident: Some("redorm".to_string()),
        args: Some(vec![Meta::Path(Some("key".to_string()))]),
    }
}

fn field(name: &str, t: TypeDesc, attrs: Vec<FieldAttr>) -> FieldDef {
    FieldDef { ident: name.to_string(), attrs, ty: t }
}

fn def(prefix: Option<Lit>, fields: Fields) -> StructDef {
    StructDef { ident: "Poet".to_string(), redorm: Redorm { prefix_name: prefix, key: None }, fields }
}

fn poet_fields() -> Vec<FieldDef> {
    vec![
        field("name", ty("String"), vec![key_attr()]),
        field("born", ty("String"), vec![]),
        field("died", ty("String"), vec![]),
        field("genre", ty("String"), vec![]),
        field("nationality", ty("String"), vec![]),
    ]
}

fn names(m: &ModelSchema) -> Vec<String> {
    m.fields.iter().map(|f| f.name.clone()).collect()
}

#[test]
fn basic_poet_model() {
    let m = derive_model(&def(
        Some(Lit::Str("custom_prefix".to_string())),
        Fields::Named(poet_fields()),
    ))
    .unwrap();
    assert_eq!(m.prefix, "custom_prefix");
    assert_eq!(m.key_name, "name");
    assert_eq!(m.key_conversion, Conversion::Text);
    assert_eq!(names(&m), vec!["born", "died", "genre", "nationality"]);
    let values: Vec<String> =
        ["1884", "1896", "Decadent", "French"].iter().map(|s| s.to_string()).collect();
    assert_eq!(
        m.set_command("Verlaine", &values),
        "HSET custom_prefix:Verlaine born 1884 died 1896 genre Decadent nationality French"
    );
}

#[test]
fn prefix_defaults_to_struct_name() {
    let m = derive_model(&def(None, Fields::Named(poet_fields()))).unwrap();
    assert_eq!(m.prefix, "Poet");
}

#[test]
fn prefix_must_be_a_string() {
    let r = derive_model(&def(Some(Lit::Other), Fields::Named(poet_fields())));
    assert_eq!(r.unwrap_err(), DeriveError::PrefixNotString);
}

#[test]
fn prefix_is_checked_before_fields() {
    let r = derive_model(&def(Some(Lit::Other), Fields::Unnamed));
    assert_eq!(r.unwrap_err(), DeriveError::PrefixNotString);
}

#[test]
fn only_named_fields() {
    assert_eq!(derive_model(&def(None, Fields::Unnamed)).unwrap_err(), DeriveError::UnnamedFields);
    assert_eq!(derive_model(&def(None, Fields::Unit)).unwrap_err(), DeriveError::UnnamedFields);
}

#[test]
fn a_key_is_needed() {
    let fields = vec![field("a", ty("String"), vec![]), field("b", ty("u32"), vec![])];
    assert_eq!(derive_model(&def(None, Fields::Named(fields))).unwrap_err(), DeriveError::NoKey);
}

#[test]
fn key_marks_that_do_not_count() {
    let other_attr = FieldAttr {
        path_ident: Some("serde".to_string()),
        args: Some(vec![Meta::Path(Some("key".to_string()))]),
    };
    let unparsed = FieldAttr { path_ident: Some("redorm".to_string()), args: None };
    let not_key = FieldAttr {
        path_ident: Some("redorm".to_string()),
        args: Some(vec![Meta::Other, Meta::Path(None), Meta::Path(Some("id".to_string()))]),
    };
    let fields = vec![field("a", ty("String"), vec![other_attr, unparsed, not_key])];
    assert_eq!(derive_model(&def(None, Fields::Named(fields))).unwrap_err(), DeriveError::NoKey);
}

#[test]
fn the_last_key_field_wins() {
    let second_key = FieldAttr {
        path_ident: Some("redorm".to_string()),
        args: Some(vec![Meta::Other, Meta::Path(Some("key".to_string()))]),
    };
    let fields = vec![
        field("a", ty("String"), vec![key_attr()]),
        field("b", ty("u64"), vec![]),
        field("c", ty("i32"), vec![second_key]),
    ];
    let m = derive_model(&def(None, Fields::Named(fields))).unwrap();
    assert_eq!(m.key_name, "c");
    assert_eq!(m.key_conversion, Conversion::Number);
    assert_eq!(names(&m), vec!["a", "b"]);
    assert_eq!(m.fields[1].conversion, Conversion::Number);
}

#[test]
fn conversions_by_type_name() {
    for n in ["usize", "u8", "u16", "u32", "u64", "u128", "isize", "i8", "i16", "i32", "i64", "i128", "f32", "f64"] {
        assert_eq!(conversion_method(&ty(n)), Ok(Conversion::Number), "{}", n);
    }
    assert_eq!(conversion_method(&ty("String")), Ok(Conversion::Text));
    for n in ["NaiveDate", "NaiveTime", "Time"] {
        assert_eq!(conversion_method(&ty(n)), Ok(Conversion::Timestamp(n.to_string())));
    }
    assert_eq!(conversion_method(&ty("Uuid")), Ok(Conversion::Convert));
    assert_eq!(conversion_method(&ty("string")), Ok(Conversion::Convert));
    assert_eq!(conversion_method(&TypeDesc::Other), Err(DeriveError::UnsupportedType));
}

#[test]
fn date_time_needs_a_time_zone() {
    let dt = |arguments| TypeDesc::Path { ident: "DateTime".to_string(), arguments };
    assert_eq!(
        conversion_method(&dt(PathArguments::AngleBracketed(vec![GenericArg::TypePath(
            "Utc".to_string()
        )]))),
        Ok(Conversion::ZonedTimestamp("DateTime".to_string(), "Utc".to_string()))
    );
    assert_eq!(conversion_method(&dt(PathArguments::Plain)), Err(DeriveError::TimezoneNotFound));
    assert_eq!(
        conversion_method(&dt(PathArguments::Parenthesized)),
        Err(DeriveError::TimezoneNotFound)
    );
    assert_eq!(
        conversion_method(&dt(PathArguments::AngleBracketed(vec![GenericArg::OtherType]))),
        Err(DeriveError::TimezoneNotFound)
    );
    assert_eq!(
        conversion_method(&dt(PathArguments::AngleBracketed(vec![GenericArg::Other]))),
        Err(DeriveError::TimezoneNotFound)
    );
    assert_eq!(
        conversion_method(&dt(PathArguments::AngleBracketed(vec![]))),
        Err(DeriveError::NoGenericArgument)
    );
}

#[test]
fn the_key_type_is_checked_before_the_other_fields() {
    let fields = vec![
        field("a", TypeDesc::Other, vec![]),
        field("k", TypeDesc::Path { ident: "DateTime".to_string(), arguments: PathArguments::Plain }, vec![key_attr()]),
    ];
    assert_eq!(
        derive_model(&def(None, Fields::Named(fields))).unwrap_err(),
        DeriveError::TimezoneNotFound
    );
}

#[test]
fn the_first_failing_field_is_reported() {
    let fields = vec![
        field("k", ty("String"), vec![key_attr()]),
        field("a", ty("u8"), vec![]),
        field("b", TypeDesc::Path { ident: "DateTime".to_string(), arguments: PathArguments::AngleBracketed(vec![]) }, vec![]),
        field("c", TypeDesc::Other, vec![]),
    ];
    assert_eq!(
        derive_model(&def(None, Fields::Named(fields))).unwrap_err(),
        DeriveError::NoGenericArgument
    );
}

#[test]
fn every_field_named_like_the_key_is_left_out() {
    let fields = vec![
        field("k", ty("String"), vec![]),
        field("a", ty("bool"), vec![]),
        field("k", ty("String"), vec![key_attr()]),
    ];
    let m = derive_model(&def(None, Fields::Named(fields))).unwrap();
    assert_eq!(names(&m), vec!["a"]);
    assert_eq!(m.fields[0].conversion, Conversion::Convert);
}

#[test]
fn derive_error_messages() {
    assert_eq!(DeriveError::PrefixNotString.message(), "prefix_name must be a string");
    assert_eq!(DeriveError::UnnamedFields.message(), "This only supports named fields");
    assert_eq!(DeriveError::NoKey.message(), "No key specified");
    assert_eq!(DeriveError::UnsupportedType.message(), "Unimplemented");
    assert_eq!(DeriveError::TimezoneNotFound.message(), "DateTime timezone ident not found");
    assert_eq!(DeriveError::NoGenericArgument.message(), "DateTime has no generic argument");
}

#[test]
fn convert_error_message() {
    assert_eq!(redorm::ConvertError.to_string(), "couldn't convert an item");
}

#[test]
fn a_derived_model_reads_back_what_it_writes() {
    let m = derive_model(&def(Some(Lit::Str("poets".to_string())), Fields::Named(poet_fields())))
        .unwrap();
    let values: Vec<String> =
        ["1844", "1896", "Decadent", "French"].iter().map(|s| s.to_string()).collect();
    let args = m.gen_hset_args("Verlaine", &values);
    let pairs: Vec<(String, String)> =
        args[1..].chunks(2).map(|c| (c[0].clone(), c[1].clone())).collect();
    let rec = m
        .record_from_reply("Verlaine", redorm::FieldMap::from_pairs(&pairs))
        .unwrap();
    assert_eq!(rec.key, "poets:Verlaine");
    assert_eq!(rec.values, values);
}
