use chunk_fetch::config::{check_digest, hash_from_line, length_from_line, Config, DataConfig, ServerConfig};

const EMPTY_DIGEST: &str = "e3b0c44298fc1c149afbf4c8996fb92427ae41e4649b934ca495991b7852b855";

fn args(list: &[&str]) -> std::vec::IntoIter<String> {
    list.iter().map(|s| s.to_string()).collect::<Vec<String>>().into_iter()
}

#[test]
fn data_config_keeps_what_it_is_given() {
    let config = DataConfig::new(7, String::from("abc"));
    assert_eq!(config.len, 7);
    assert_eq!(config.hash, "abc");
    assert!(!config.is_well_formed());
    assert!(DataConfig::new(0, EMPTY_DIGEST.to_string()).is_well_formed());
}

#[test]
fn server_config_keeps_the_address() {
    assert_eq!(ServerConfig::new(String::from("127.0.0.1:8080")).addr, "127.0.0.1:8080");
}

#[test]
fn build_reads_length_and_hash() {
    let config = Config::build(args(&["prog", "1024", EMPTY_DIGEST])).unwrap();
    assert_eq!(config.data, DataConfig::new(1024, EMPTY_DIGEST.to_string()));
}

#[test]
fn build_ignores_further_arguments() {
    let config = Config::build(args(&["prog", "0", EMPTY_DIGEST, "more"])).unwrap();
    assert_eq!(config.data.len, 0);
    assert_eq!(config.data.hash, EMPTY_DIGEST);
}

#[test]
fn build_without_a_length() {
    assert_eq!(Config::build(args(&[])).err(), Some("Didn't get data length"));
    assert_eq!(Config::build(args(&["prog"])).err(), Some("Didn't get data length"));
}

#[test]
fn build_with_a_length_that_is_no_number() {
    assert_eq!(Config::build(args(&["prog", "ten", EMPTY_DIGEST])).err(), Some("Could not parse data length"));
    assert_eq!(Config::build(args(&["prog", "-5", EMPTY_DIGEST])).err(), Some("Could not parse data length"));
    assert_eq!(Config::build(args(&["prog", "4294967296", EMPTY_DIGEST])).err(), Some("Could not parse data length"));
    assert_eq!(Config::build(args(&["prog", "x"])).err(), Some("Could not parse data length"));
}

#[test]
fn build_without_a_hash() {
    assert_eq!(Config::build(args(&["prog", "10"])).err(), Some("Didn't get data hash"));
}

#[test]
fn build_with_a_hash_that_is_no_digest() {
    assert_eq!(Config::build(args(&["prog", "10", "abc"])).err(), Some("Could not parse data hash"));
    let not_hex = EMPTY_DIGEST.replace('e', "g");
    assert_eq!(Config::build(args(&["prog", "10", &not_hex])).err(), Some("Could not parse data hash"));
}

#[test]
fn digest_is_64_hex_digits() {
    assert!(check_digest(EMPTY_DIGEST));
    assert!(check_digest(&EMPTY_DIGEST.to_uppercase()));
    assert!(check_digest(&"0".repeat(64)));
    assert!(!check_digest(&"0".repeat(63)));
    assert!(!check_digest(&"0".repeat(65)));
    assert!(!check_digest(""));
    assert!(!check_digest(&format!("{}g", "0".repeat(63))));
    assert!(!check_digest(&format!("{} ", "0".repeat(63))));
    assert!(!check_digest(&"\u{e9}".repeat(64)));
    assert!(!check_digest(&"\u{e9}".repeat(32)));
}

#[test]
fn length_is_read_from_a_line() {
    assert_eq!(length_from_line("1024\n"), Some(1024));
    assert_eq!(length_from_line("  7 \r\n"), Some(7));
    assert_eq!(length_from_line("0"), Some(0));
    assert_eq!(length_from_line("\n"), None);
    assert_eq!(length_from_line("1 2\n"), None);
    assert_eq!(length_from_line("-3\n"), None);
    assert_eq!(length_from_line("4294967296\n"), None);
}

#[test]
fn hash_is_read_from_a_line() {
    let line = format!("  {}\n", EMPTY_DIGEST);
    assert_eq!(hash_from_line(&line), Some(EMPTY_DIGEST.to_string()));
    assert_eq!(hash_from_line(EMPTY_DIGEST), Some(EMPTY_DIGEST.to_string()));
    assert_eq!(hash_from_line("abc\n"), None);
    assert_eq!(hash_from_line("\n"), None);
    let spaced = format!("{} {}\n", &EMPTY_DIGEST[..32], &EMPTY_DIGEST[32..]);
    assert_eq!(hash_from_line(&spaced), None);
    assert_eq!(hash_from_line(&"z".repeat(64)), None);
}
