use crypto_journal::keychain::KeyChain;
use crypto_journal::keychain::KeyError;
use crypto_journal::listing::process_option;
use crypto_journal::listing::sort_numeric;
use crypto_journal::paths::format_txt_filename;
use crypto_journal::paths::generate_log_path;
use crypto_journal::paths::generate_pass_path;
use crypto_journal::paths::generate_path;
use crypto_journal::paths::generate_salt_path;
use crypto_journal::paths::log_file_name;
use crypto_journal::store::LogStore;
use crypto_journal::store::StoreError;
use crypto_journal::store::get_user_logs_dir;
use crypto_journal::store::parse_date;

fn chain_with(user: &str, password: &str) -> KeyChain {
    let mut keys = KeyChain::new();
    keys.create_user(user, password).unwrap();
    keys
}

#[test]
fn paths_compose_exactly() {
    assert_eq!(generate_path(&["a", "/", "b"]), "a/b");
    assert_eq!(generate_log_path("base/u/2024/1/1", 3), "base/u/2024/1/1/log_3.dat");
    assert_eq!(log_file_name(0), "log_0.dat");
    assert_eq!(log_file_name(12), "log_12.dat");
    assert_eq!(generate_salt_path("keys", "alice"), "keys/alice/alice.txt");
    assert_eq!(generate_pass_path("keys", "alice"), "keys/alice/pass.txt");
    assert_eq!(format_txt_filename("alice.txt"), "alice");
}

#[test]
fn user_logs_dir_reverses_date_components() {
    let p = get_user_logs_dir("base", "01_02_2024", "alice").unwrap();
    assert_eq!(p, "base/alice/2024/02/01");
}

#[test]
fn malformed_dates_are_rejected() {
    assert_eq!(parse_date("01_02").unwrap_err(), StoreError::InvalidDate);
    assert_eq!(parse_date("01_02_2024_05").unwrap_err(), StoreError::InvalidDate);
    assert_eq!(parse_date("aa_02_2024").unwrap_err(), StoreError::InvalidDate);
    assert_eq!(parse_date("01__2024").unwrap_err(), StoreError::InvalidDate);
    assert_eq!(parse_date("").unwrap_err(), StoreError::InvalidDate);
    assert!(parse_date("1_2_2024").is_ok());
}

#[test]
fn insert_assigns_indices_in_creation_order() {
    let keys = chain_with("alice", "pw");
    let mut store = LogStore::new();
    let i0 = store.insert_log(&keys, "1_1_2024", "alice", "first", "pw").unwrap();
    let i1 = store.insert_log(&keys, "1_1_2024", "alice", "second", "pw").unwrap();
    let i2 = store.insert_log(&keys, "1_1_2024", "alice", "third", "pw").unwrap();
    assert_eq!((i0, i1, i2), (0, 1, 2));
    let names = store.get_day_logs("alice", "2024", "1", "1").unwrap();
    assert_eq!(names, vec!["log_0.dat", "log_1.dat", "log_2.dat"]);
}

#[test]
fn overwrite_touches_only_its_index() {
    let keys = chain_with("alice", "pw");
    let mut store = LogStore::new();
    store.insert_log(&keys, "1_1_2024", "alice", "first", "pw").unwrap();
    store.insert_log(&keys, "1_1_2024", "alice", "second", "pw").unwrap();
    store.insert_log(&keys, "1_1_2024", "alice", "third", "pw").unwrap();
    store.overwrite_log(&keys, "1_1_2024", "alice", "changed", "pw", 1).unwrap();
    let names = store.get_day_logs("alice", "2024", "1", "1").unwrap();
    assert_eq!(names.len(), 3);
    let read = |i: usize| {
        String::from_utf8(store.get_date_log(&keys, "1_1_2024", "alice", "pw", i).unwrap())
            .unwrap()
    };
    assert_eq!(read(0), "first");
    assert_eq!(read(1), "changed");
    assert_eq!(read(2), "third");
}

#[test]
fn overwrite_beyond_the_next_index_is_rejected() {
    let keys = chain_with("alice", "pw");
    let mut store = LogStore::new();
    let r = store.overwrite_log(&keys, "1_1_2024", "alice", "text", "pw", 3);
    assert_eq!(r.unwrap_err(), StoreError::BadIndex);
    store.insert_log(&keys, "1_1_2024", "alice", "first", "pw").unwrap();
    let r = store.overwrite_log(&keys, "1_1_2024", "alice", "text", "pw", 2);
    assert_eq!(r.unwrap_err(), StoreError::BadIndex);
    // the next free index itself is fine
    store.overwrite_log(&keys, "1_1_2024", "alice", "appended", "pw", 1).unwrap();
}

#[test]
fn read_errors_are_distinct() {
    let keys = chain_with("alice", "pw");
    let mut store = LogStore::new();
    store.insert_log(&keys, "1_1_2024", "alice", "text", "pw").unwrap();
    let bad_date = store.get_date_log(&keys, "nonsense", "alice", "pw", 0);
    assert_eq!(bad_date.unwrap_err(), StoreError::InvalidDate);
    let missing = store.get_date_log(&keys, "2_1_2024", "alice", "pw", 0);
    assert_eq!(missing.unwrap_err(), StoreError::NotFound);
    let bad_index = store.get_date_log(&keys, "1_1_2024", "alice", "pw", 1);
    assert_eq!(bad_index.unwrap_err(), StoreError::NotFound);
    let wrong_pw = store.get_date_log(&keys, "1_1_2024", "alice", "nope", 0);
    assert_eq!(wrong_pw.unwrap_err(), StoreError::Crypto);
    let unknown_user = store.insert_log(&keys, "1_1_2024", "bob", "text", "pw");
    assert_eq!(unknown_user.unwrap_err(), StoreError::Crypto);
}

#[test]
fn listings_sort_by_integer_value() {
    assert_eq!(
        sort_numeric(vec!["10".into(), "2".into(), "9".into()]).unwrap(),
        vec!["2", "9", "10"]
    );
    assert_eq!(
        sort_numeric(vec!["2".into(), "9".into(), "10".into()]).unwrap(),
        vec!["2", "9", "10"]
    );
    assert!(sort_numeric(vec!["2".into(), "x".into()]).is_err());
    assert!(sort_numeric(vec!["".into()]).is_err());
}

#[test]
fn year_month_day_listings_are_numeric_and_complete() {
    let keys = chain_with("alice", "pw");
    let mut store = LogStore::new();
    store.insert_log(&keys, "5_12_99", "alice", "a", "pw").unwrap();
    store.insert_log(&keys, "1_2_100", "alice", "b", "pw").unwrap();
    store.insert_log(&keys, "10_2_100", "alice", "c", "pw").unwrap();
    store.insert_log(&keys, "9_2_100", "alice", "d", "pw").unwrap();
    assert_eq!(store.get_years("alice").unwrap(), vec!["99", "100"]);
    assert_eq!(store.get_months("alice", "100").unwrap(), vec!["2"]);
    assert_eq!(store.get_days("alice", "100", "2").unwrap(), vec!["1", "9", "10"]);
    assert!(store.has_logs("alice"));
    assert!(!store.has_logs("bob"));
    assert_eq!(store.get_years("bob").unwrap_err(), StoreError::NotFound);
    assert_eq!(store.get_months("alice", "101").unwrap_err(), StoreError::NotFound);
}

#[test]
fn keychain_rejects_duplicates_and_lists_ids() {
    let mut keys = KeyChain::new();
    keys.create_user("alice", "pw").unwrap();
    assert_eq!(keys.create_user("alice", "other").unwrap_err(), KeyError::UserExists);
    assert!(keys.create_user("bob", "").is_err());
    keys.create_user("bob", "pw2").unwrap();
    assert_eq!(keys.get_key_ids(), vec!["alice", "bob"]);
    assert!(keys.id_exists("alice"));
    assert!(!keys.id_exists("carol"));
    assert_eq!(keys.find_id_filename("alice").unwrap(), "alice.txt");
    assert_eq!(keys.find_id_filename("carol").unwrap_err(), KeyError::UnknownUser);
    assert_eq!(keys.get_key_salt("alice").unwrap().len(), 16);
    assert_eq!(keys.get_key_salt("carol").unwrap_err(), KeyError::UnknownUser);
}

#[test]
fn authentication_is_uniform() {
    let keys = chain_with("alice", "p@ss1");
    assert!(keys.valid_auth("alice", "p@ss1"));
    assert!(!keys.valid_auth("alice", "wrong1"));
    assert!(!keys.valid_auth("nobody", "p@ss1"));
    assert!(!keys.valid_auth("alice", ""));
}

#[test]
fn menu_options_resolve_one_based() {
    let options = vec!["first".to_string(), "second".to_string()];
    assert_eq!(process_option("1".into(), options.clone()), Some((0, "first".into())));
    assert_eq!(process_option("2".into(), options.clone()), Some((1, "second".into())));
    assert_eq!(process_option("0".into(), options.clone()), None);
    assert_eq!(process_option("3".into(), options.clone()), None);
    assert_eq!(process_option("x".into(), options), None);
}

#[test]
fn day_history_decrypts_all_entries_in_index_order() {
    let keys = chain_with("alice", "pw");
    let mut store = LogStore::new();
    store.insert_log(&keys, "1_1_2024", "alice", "first", "pw").unwrap();
    store.insert_log(&keys, "1_1_2024", "alice", "second", "pw").unwrap();
    store.insert_log(&keys, "1_1_2024", "alice", "third", "pw").unwrap();
    let history = store.get_date_history_logs(&keys, "1_1_2024", "alice", "pw").unwrap();
    let texts: Vec<&str> = history.iter().map(|l| l.content.as_str()).collect();
    assert_eq!(texts, vec!["first", "second", "third"]);
}

#[test]
fn day_history_errors_are_distinct() {
    let keys = chain_with("alice", "pw");
    let mut store = LogStore::new();
    store.insert_log(&keys, "1_1_2024", "alice", "text", "pw").unwrap();
    let bad_date = store.get_date_history_logs(&keys, "nonsense", "alice", "pw");
    assert_eq!(bad_date.unwrap_err(), StoreError::InvalidDate);
    let missing = store.get_date_history_logs(&keys, "2_1_2024", "alice", "pw");
    assert_eq!(missing.unwrap_err(), StoreError::NotFound);
    let wrong_pw = store.get_date_history_logs(&keys, "1_1_2024", "alice", "nope");
    assert_eq!(wrong_pw.unwrap_err(), StoreError::Crypto);
}

#[test]
fn large_numeric_components_are_accepted() {
    // components up to nineteen digits sort by value
    assert_eq!(
        sort_numeric(vec!["2000000000".into(), "3".into(), "9999999999999999999".into()])
            .unwrap(),
        vec!["3", "2000000000", "9999999999999999999"]
    );
    assert!(sort_numeric(vec!["10000000000000000000".into()]).is_err());
    let keys = chain_with("alice", "pw");
    let mut store = LogStore::new();
    store.insert_log(&keys, "5_12_2000000000", "alice", "a", "pw").unwrap();
    assert_eq!(store.get_years("alice").unwrap(), vec!["2000000000"]);
}
