use redorm::field_map::FieldMap;
use redorm::schema::{Conversion, DecodeError, FieldSchema, ModelSchema};
use redorm::text::{join, replace_all};
use redorm::traits::{HSetRedis, HashSet};

fn s(x: &str) -> String {
    x.to_string()
}

fn data_model() -> ModelSchema {
    ModelSchema {
        prefix: s("example_data"),
        key_name: s("data_key"),
        key_conversion: Conversion::Text,
        fields: vec![
            FieldSchema { name: s("data2"), conversion: Conversion::Number },
            FieldSchema { name: s("note"), conversion: Conversion::Text },
        ],
    }
}

#[test]
fn field_map_insert_then_get() {
    let mut m = FieldMap::new();
    assert!(m.get("a").is_none());
    m.insert(s("a"), s("1"));
    m.insert(s("b"), s("2"));
    m.insert(s("a"), s("3"));
    assert_eq!(m.get("a").unwrap(), "3");
    assert_eq!(m.get("b").unwrap(), "2");
    assert!(m.get("c").is_none());
}

#[test]
fn field_map_from_pairs_keeps_the_later_value() {
    let m = FieldMap::from_pairs(&vec![(s("a"), s("1")), (s("b"), s("2")), (s("a"), s("9"))]);
    assert_eq!(m.get("a").unwrap(), "9");
    assert_eq!(m.get("b").unwrap(), "2");
}

#[test]
fn write_then_read_gives_the_values_back() {
    let model = data_model();
    let values = vec![s("7"), s("hello world")];
    let args = model.gen_hset_args("7", &values);
    // The hash that HSET writes holds the pairs after the hash name.
    let pairs: Vec<(String, String)> =
        args[1..].chunks(2).map(|c| (c[0].clone(), c[1].clone())).collect();
    assert_eq!(args[0], "example_data:7");
    let rec = model.record_from_reply("7", FieldMap::from_pairs(&pairs)).unwrap();
    assert_eq!(rec.key, "example_data:7");
    assert_eq!(rec.values, values);
}

#[test]
fn reading_without_the_key_field() {
    let model = data_model();
    let args = FieldMap::from_pairs(&vec![(s("data2"), s("1")), (s("note"), s("n"))]);
    match model.get_hset_from_args(&args) {
        Err(DecodeError::MissingKey) => {}
        other => panic!("unexpected {:?}", other),
    }
    assert_eq!(DecodeError::MissingKey.message(), "Couldn't find key arg in object hash map");
}

#[test]
fn reading_reports_the_first_missing_field() {
    let model = data_model();
    let args = FieldMap::from_pairs(&vec![(s("data_key"), s("k"))]);
    match model.get_hset_from_args(&args) {
        Err(DecodeError::MissingField(f)) => assert_eq!(f, "data2"),
        other => panic!("unexpected {:?}", other),
    }
    let args = FieldMap::from_pairs(&vec![(s("data_key"), s("k")), (s("data2"), s("3"))]);
    match model.get_hset_from_args(&args) {
        Err(e @ DecodeError::MissingField(_)) => assert_eq!(
            e.message(),
            "Deserialization from redis failed, key note not found"
        ),
        other => panic!("unexpected {:?}", other),
    }
}

#[test]
fn reading_a_complete_hash() {
    let model = data_model();
    let args = FieldMap::from_pairs(&vec![
        (s("note"), s("n")),
        (s("extra"), s("ignored")),
        (s("data2"), s("3")),
        (s("data_key"), s("k")),
    ]);
    let rec = model.get_hset_from_args(&args).unwrap();
    assert_eq!(rec.key, "k");
    assert_eq!(rec.values, vec![s("3"), s("n")]);
}

#[test]
fn join_and_replace() {
    assert_eq!(join(&vec![], " "), "");
    assert_eq!(join(&vec![s("a")], ", "), "a");
    assert_eq!(join(&vec![s("a"), s("b"), s("c")], ", "), "a, b, c");
    assert_eq!(replace_all("aaa", "aa", "b"), "ba");
    assert_eq!(replace_all("xyx", "x", "zz"), "zzyzz");
    assert_eq!(replace_all("héllo", "é", "e"), "hello");
    assert_eq!(replace_all("abc", "abcd", ""), "abc");
}

/// A record type with a hand-written `HashSet`.
struct Poet {
    name: String,
    genre: String,
}

impl HashSet for Poet {
    fn gen_hset_args(&self) -> Vec<String> {
        vec![format!("poets:{}", self.name), s("genre"), self.genre.clone()]
    }
    fn get_hset_from_args(args: &FieldMap) -> Self {
        Poet { name: args.get("name").unwrap().clone(), genre: args.get("genre").unwrap().clone() }
    }
    fn getall_command(&self) -> String {
        format!("HGETALL {}", self.name)
    }
    fn set_command(&self) -> String {
        format!("HSET {}", self.gen_hset_args().join(" "))
    }
    fn get_prefix() -> String {
        s("poets")
    }
    fn key_name() -> String {
        s("name")
    }
    fn get_key(&self) -> &String {
        &self.name
    }
}

impl HSetRedis for Poet {}

#[test]
fn a_record_type_through_its_interface() {
    let p = Poet { name: s("Verlaine"), genre: s("Decadent") };
    assert_eq!(p.set_command(), "HSET poets:Verlaine genre Decadent");
    assert_eq!(p.getall_command(), "HGETALL Verlaine");
    assert_eq!(Poet::get_prefix(), "poets");
    assert_eq!(Poet::key_name(), "name");
    assert_eq!(p.get_key(), "Verlaine");
    let reply = FieldMap::from_pairs(&vec![(s("genre"), s("Decadent"))]);
    let fields = redorm::schema::read_fields(&Poet::get_prefix(), &Poet::key_name(), "Verlaine", reply);
    let back = Poet::get_hset_from_args(&fields);
    assert_eq!(back.name, "poets:Verlaine");
    assert_eq!(back.genre, "Decadent");
}
