use redorm::command::{command_with_args, hgetall_command, hset_command, scan_command};
use redorm::field_map::FieldMap;
use redorm::keys::{hash_key, key_from_hash_key, scan_pattern};
use redorm::schema::{read_fields, Conversion, FieldSchema, ModelSchema};

fn poet_model() -> ModelSchema {
    let field = |n: &str| FieldSchema { name: n.to_string(), conversion: Conversion::Text };
    ModelSchema {
        prefix: "custom_prefix".to_string(),
        key_name: "name".to_string(),
        key_conversion: Conversion::Text,
        fields: vec![field("born"), field("died"), field("genre"), field("nationality")],
    }
}

fn strings(v: &[&str]) -> Vec<String> {
    v.iter().map(|s| s.to_string()).collect()
}

#[test]
fn basic_poet_set_command() {
    let model = poet_model();
    let values = strings(&["1884", "1896", "Decadent", "French"]);
    assert_eq!(
        "HSET custom_prefix:Verlaine born 1884 died 1896 genre Decadent nationality French",
        model.set_command("Verlaine", &values)
    );
}

#[test]
fn basic_poet_getall_command() {
    let model = poet_model();
    assert_eq!("HGETALL Verlaine", model.getall_command("Verlaine"));
}

#[test]
fn gen_hset_args_interleaves_names_and_values() {
    let model = poet_model();
    let values = strings(&["1884", "1896", "Decadent", "French"]);
    assert_eq!(
        model.gen_hset_args("Verlaine", &values),
        strings(&[
            "custom_prefix:Verlaine",
            "born",
            "1884",
            "died",
            "1896",
            "genre",
            "Decadent",
            "nationality",
            "French"
        ])
    );
}

#[test]
fn model_getters() {
    let model = poet_model();
    assert_eq!(model.get_prefix(), "custom_prefix");
    assert_eq!(model.key_name(), "name");
    assert_eq!(model.hash_key("x"), "custom_prefix:x");
}

#[test]
fn hset_command_packs_name_and_arguments() {
    let cmd = hset_command(&strings(&["p:k", "a", "1"]));
    assert_eq!(
        cmd.get_packed_command(),
        b"*4\r\n$4\r\nHSET\r\n$3\r\np:k\r\n$1\r\na\r\n$1\r\n1\r\n".to_vec()
    );
    assert!(!cmd.in_scan_mode());
}

#[test]
fn command_with_no_arguments() {
    let cmd = command_with_args("PING", &Vec::new());
    assert_eq!(cmd.get_packed_command(), b"*1\r\n$4\r\nPING\r\n".to_vec());
}

#[test]
fn command_with_utf8_argument() {
    let cmd = command_with_args("ECHO", &strings(&["é"]));
    assert_eq!(cmd.get_packed_command(), "*2\r\n$4\r\nECHO\r\n$2\r\né\r\n".as_bytes().to_vec());
}

#[test]
fn hgetall_command_names_the_hash() {
    let cmd = hgetall_command("poets", "Verlaine");
    assert_eq!(
        cmd.get_packed_command(),
        b"*2\r\n$7\r\nHGETALL\r\n$14\r\npoets:Verlaine\r\n".to_vec()
    );
}

#[test]
fn scan_command_lists_the_hashes_from_cursor_zero() {
    let cmd = scan_command("poets");
    assert!(cmd.in_scan_mode());
    assert_eq!(
        cmd.get_packed_command(),
        b"*6\r\n$4\r\nSCAN\r\n$1\r\n0\r\n$5\r\nMATCH\r\n$7\r\npoets:*\r\n$4\r\nTYPE\r\n$4\r\nhash\r\n"
            .to_vec()
    );
}

#[test]
fn hash_names_and_patterns() {
    assert_eq!(hash_key("poets", "Verlaine"), "poets:Verlaine");
    assert_eq!(hash_key("", ""), ":");
    assert_eq!(scan_pattern("poets"), "poets:*");
}

#[test]
fn scanned_key_roundtrip() {
    let hk = hash_key("example_data", "42");
    assert_eq!(key_from_hash_key("example_data", &hk), "42");
}

#[test]
fn scanned_key_removes_every_occurrence() {
    // A key that itself holds `prefix:` does not survive the round trip.
    assert_eq!(key_from_hash_key("p", "p:p:x"), "x");
    assert_eq!(key_from_hash_key("p", "a:p:b"), "a:b");
    assert_eq!(key_from_hash_key("p", "q:x"), "q:x");
}

#[test]
fn read_fields_sets_the_key_field_to_the_hash_name() {
    let reply = FieldMap::from_pairs(&vec![
        ("genre".to_string(), "Decadent".to_string()),
        ("name".to_string(), "ignored".to_string()),
    ]);
    let fields = read_fields("poets", "name", "Verlaine", reply);
    assert_eq!(fields.get("name").unwrap(), "poets:Verlaine");
    assert_eq!(fields.get("genre").unwrap(), "Decadent");
}
