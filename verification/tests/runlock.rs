use duckle::runlock::{
    digest, flatten, lock_path, nested_lock_path, safe_name, store_is_held, STORE_RETRY_MS, STORE_WAIT_MS,
};

#[test]
fn two_pipelines_whose_names_sanitise_alike_do_not_share_a_lock() {
    assert_ne!(safe_name("sales.daily"), safe_name("sales_daily"));
    assert_ne!(safe_name("ventes/quotidien"), safe_name("ventes.quotidien"));
    // Non-ASCII collapsed hardest: every name of a given length was one key.
    // These share not a single ASCII character.
    assert_ne!(safe_name("日次"), safe_name("週次"));
    // And the same name is still the same lock, which is the whole point.
    assert_eq!(safe_name("sales.daily"), safe_name("sales.daily"));
    assert_ne!(lock_path("/w", "sales.daily", false), lock_path("/w", "sales_daily", false));
}

#[test]
fn the_digest_is_fixed_rather_than_whatever_the_toolchain_hashes_to() {
    // FNV-1a, which is fixed forever.
    assert_eq!(digest(""), 0xcbf2_9ce4_8422_2325);
    assert_eq!(digest("a"), 0xaf63_dc4c_8601_ec8c);
    assert_eq!(digest("foobar"), 0x85944171f73967e8);
}

#[test]
fn a_key_that_looks_like_a_path_stays_in_the_lock_folder() {
    let path = lock_path("/w", "../../etc/passwd", false);
    assert!(path.starts_with("/w/.duckle/locks/"), "{path}");
    assert_eq!(path.matches('/').count(), 4, "{path}");
}

#[test]
fn no_run_can_hold_up_a_store() {
    let store = nested_lock_path("/w", "store", "schedules", false);
    for key in ["store", "schedules", "store/schedules", "store_schedules"] {
        assert_ne!(lock_path("/w", key, false), store);
    }
    assert_eq!(store.matches('/').count(), 5, "{store}");
}

#[test]
fn waiting_for_a_store_ends() {
    assert_eq!(STORE_WAIT_MS, 5_000);
    assert_eq!(STORE_RETRY_MS, 25);
    assert!(store_is_held("schedules.json", 0).is_none());
    assert_eq!(
        store_is_held("schedules.json", 5_000).as_deref(),
        Some("Timed out waiting to write schedules.json")
    );
}

#[test]
fn names_are_flattened_and_cut() {
    assert_eq!(flatten("a/b.c-d_e", 48), "a_b_c-d_e");
    assert_eq!(flatten("abcdef", 3), "abc");
}

#[test]
fn locks_on_windows_lie_below_the_workspace() {
    let run = lock_path("\\\\?\\C:\\ws", "p", true);
    assert!(run.starts_with("\\\\?\\C:\\ws\\.duckle\\locks\\p-"), "{run}");
    let store = nested_lock_path("C:\\ws", "store", "schedules", true);
    assert!(store.starts_with("C:\\ws\\.duckle\\locks\\store-"), "{store}");
    assert!(!store.contains('/'));
}
