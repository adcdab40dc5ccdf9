use css_modules::ident::{
    ident_from_digest, HashFunction, HashSalt, ModulesTransformConfig, OutputOptions,
};

fn options(f: HashFunction, len: usize, salt: HashSalt) -> OutputOptions {
    OutputOptions { hash_function: f, hash_digest_length: len, hash_salt: salt }
}

#[test]
fn digest_starting_with_digit_gets_underscore() {
    assert_eq!(ident_from_digest("[hash]", "a.css", "1abcdef", 4, "x"), "_1abc");
    assert_eq!(ident_from_digest("[hash]", "a.css", "abcdef12", 4, "x"), "abcd");
}

#[test]
fn digest_shorter_than_length_is_kept_whole() {
    assert_eq!(ident_from_digest("[hash]", "a.css", "ab", 8, "x"), "ab");
}

#[test]
fn template_placeholders_are_replaced() {
    assert_eq!(
        ident_from_digest("[path]-[local]-[hash]-[name]", "src/a.css", "9f00", 2, "btn"),
        "src/a.css-btn-_9f-[name]"
    );
    assert_eq!(ident_from_digest("[local]_[hash", "a.css", "ff", 2, "btn"), "btn_[hash");
}

#[test]
fn xxhash64_digest_of_empty_input() {
    let o = options(HashFunction::Xxhash64, 16, HashSalt::NoSalt);
    let c = ModulesTransformConfig::new("", "[hash]", &o);
    assert_eq!(c.new_name_for(""), "ef46db3751d8e999");
}

#[test]
fn md4_digest_of_empty_input() {
    let o = options(HashFunction::MD4, 64, HashSalt::NoSalt);
    let c = ModulesTransformConfig::new("", "[hash]", &o);
    assert_eq!(c.new_name_for(""), "_31d6cfe0d16ae931b73c59d7e0c089c0");
}

#[test]
fn same_inputs_give_same_identifier() {
    let o = options(HashFunction::Xxhash64, 8, HashSalt::NoSalt);
    let c1 = ModulesTransformConfig::new("src/a.css", "[local]__[hash]", &o);
    let c2 = ModulesTransformConfig::new("src/a.css", "[local]__[hash]", &o);
    assert_eq!(c1.new_name_for("btn"), c2.new_name_for("btn"));
    assert_eq!(c1.new_name_for("btn"), c1.new_name_for("btn"));
}

#[test]
fn identifier_never_starts_with_digit() {
    let o = options(HashFunction::Xxhash64, 6, HashSalt::NoSalt);
    for i in 0..200 {
        let c = ModulesTransformConfig::new(&format!("f{i}.css"), "[hash]", &o);
        let id = c.new_name_for("x");
        assert!(!id.starts_with(|ch: char| ch.is_ascii_digit()), "{id}");
    }
}

#[test]
fn path_and_local_name_change_identifier() {
    let o = options(HashFunction::Xxhash64, 8, HashSalt::NoSalt);
    let a = ModulesTransformConfig::new("src/a.css", "[hash]", &o);
    let b = ModulesTransformConfig::new("src/b.css", "[hash]", &o);
    assert_ne!(a.new_name_for("btn"), b.new_name_for("btn"));
    assert_ne!(a.new_name_for("btn"), a.new_name_for("link"));
}

#[test]
fn salt_changes_identifier() {
    let plain = options(HashFunction::MD4, 8, HashSalt::NoSalt);
    let salted = options(HashFunction::MD4, 8, HashSalt::Salt("pepper".to_string()));
    let a = ModulesTransformConfig::new("a.css", "[hash]", &plain);
    let b = ModulesTransformConfig::new("a.css", "[hash]", &salted);
    assert_ne!(a.new_name_for("btn"), b.new_name_for("btn"));
}

#[test]
fn zero_length_hash_is_empty() {
    let o = options(HashFunction::Xxhash64, 0, HashSalt::NoSalt);
    let c = ModulesTransformConfig::new("a.css", "[local]-[hash]", &o);
    assert_eq!(c.new_name_for("btn"), "btn-");
}
