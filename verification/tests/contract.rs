use trinci_contract::after_transfer;
use trinci_contract::before_transfer;
use trinci_contract::echo;
use trinci_contract::init;
use trinci_contract::AccountStore;
use trinci_contract::AppContext;
use trinci_contract::EchoArgs;
use trinci_contract::TransferArgs;

const CALLER_ID: &str = "Caller_Wd7RqEzdV3gKjqXN1kGBgYxFWsxajjguLkyTjy7";
const OWNER_ID: &str = "Owner_ijWd7RqEzdV3gKjqXN1kGBgYxFWsxajjguLksdfs";

const INIT_KEY: &str = "INIT_KEY";

fn app_context(owner: &str, caller: &str, depth: u16) -> AppContext {
    AppContext {
        caller: caller.to_string(),
        owner: owner.to_string(),
        depth,
    }
}

fn transfer_args() -> TransferArgs {
    TransferArgs {
        from: "account_1".to_string(),
        to: "account_2".to_string(),
        units: 100,
        data: None,
    }
}

#[test]
fn test_echo() {
    let ctx = app_context(CALLER_ID, CALLER_ID, 0);

    let args = EchoArgs {
        data: "Hello, Trinci!".to_string(),
    };

    let res = echo(&ctx, args.clone());

    assert_eq!(res, args);
}

#[test]
fn test_not_authorized_init() {
    let ctx = app_context(OWNER_ID, CALLER_ID, 0);
    let mut store = AccountStore::new();

    let err = init(&ctx, &mut store).unwrap_err();

    assert_eq!(err.message(), "not authorized");
}

#[test]
fn test_init() {
    let ctx = app_context(OWNER_ID, OWNER_ID, 0);
    let mut store = AccountStore::new();

    init(&ctx, &mut store).unwrap();

    let init_data = store.load_data(INIT_KEY);

    assert_eq!(init_data, &[1]);
}

#[test]
fn test_direct_call_after_transfer() {
    let ctx = app_context(OWNER_ID, OWNER_ID, 0);
    let store = AccountStore::new();

    let args = transfer_args();

    let err = after_transfer(&ctx, &store, &args).unwrap_err();

    assert_eq!(err.message(), "cannot be called directly");
}

#[test]
fn test_after_transfer() {
    let ctx = app_context(OWNER_ID, OWNER_ID, 1);
    let mut store = AccountStore::new();

    store.store_data(INIT_KEY, vec![1]);

    let args = transfer_args();

    let res = after_transfer(&ctx, &store, &args).unwrap();

    assert_eq!(res, true);
}

#[test]
fn test_not_initialized_before_transfer() {
    let ctx = app_context(OWNER_ID, OWNER_ID, 1);
    let store = AccountStore::new();

    let args = transfer_args();

    let err = before_transfer(&ctx, &store, &args).unwrap_err();

    assert_eq!(err.message(), "not initialized");
}

#[test]
fn test_before_transfer() {
    let ctx = app_context(OWNER_ID, OWNER_ID, 1);
    let mut store = AccountStore::new();

    store.store_data(INIT_KEY, vec![1]);

    let args = transfer_args();

    let res = before_transfer(&ctx, &store, &args).unwrap();

    assert_eq!(res, true);
}

#[test]
fn init_is_idempotent() {
    let ctx = app_context(OWNER_ID, OWNER_ID, 0);
    let mut store = AccountStore::new();

    init(&ctx, &mut store).unwrap();
    init(&ctx, &mut store).unwrap();

    assert_eq!(store.load_data(INIT_KEY), &[1]);
}

#[test]
fn rejected_init_writes_nothing() {
    let ctx = app_context(OWNER_ID, CALLER_ID, 0);
    let mut store = AccountStore::new();

    let err = init(&ctx, &mut store).unwrap_err();

    assert_eq!(err.message(), "not authorized");
    assert!(store.load_data(INIT_KEY).is_empty());
}

#[test]
fn direct_call_refused_even_when_initialized() {
    let ctx = app_context(OWNER_ID, OWNER_ID, 0);
    let mut store = AccountStore::new();

    store.store_data(INIT_KEY, vec![1]);

    let args = transfer_args();

    let before = before_transfer(&ctx, &store, &args).unwrap_err();
    let after = after_transfer(&ctx, &store, &args).unwrap_err();

    assert_eq!(before.message(), "cannot be called directly");
    assert_eq!(after.message(), "cannot be called directly");
}

#[test]
fn direct_call_before_transfer() {
    let ctx = app_context(OWNER_ID, OWNER_ID, 0);
    let store = AccountStore::new();

    let args = transfer_args();

    let err = before_transfer(&ctx, &store, &args).unwrap_err();

    assert_eq!(err.message(), "cannot be called directly");
}

#[test]
fn not_initialized_after_transfer() {
    let ctx = app_context(OWNER_ID, OWNER_ID, 1);
    let store = AccountStore::new();

    let args = transfer_args();

    let err = after_transfer(&ctx, &store, &args).unwrap_err();

    assert_eq!(err.message(), "not initialized");
}

#[test]
fn hooks_permit_at_any_positive_depth() {
    let mut store = AccountStore::new();
    store.store_data(INIT_KEY, vec![1]);

    let args = transfer_args();

    for depth in [1u16, 2, 7, u16::MAX] {
        let ctx = app_context(OWNER_ID, OWNER_ID, depth);
        assert_eq!(before_transfer(&ctx, &store, &args).unwrap(), true);
        assert_eq!(after_transfer(&ctx, &store, &args).unwrap(), true);
    }
}

#[test]
fn echo_ignores_context() {
    let args = EchoArgs {
        data: "payload".to_string(),
    };

    for ctx in [
        app_context(OWNER_ID, CALLER_ID, 0),
        app_context(CALLER_ID, OWNER_ID, 3),
        app_context(OWNER_ID, OWNER_ID, 42),
    ] {
        assert_eq!(echo(&ctx, args.clone()), args);
    }
}

#[test]
fn store_overwrites_and_reads_back() {
    let mut store = AccountStore::new();

    assert!(store.load_data("missing").is_empty());

    store.store_data(INIT_KEY, vec![1]);
    store.store_data("other", vec![9, 9]);
    store.store_data(INIT_KEY, vec![7, 8]);

    assert_eq!(store.load_data(INIT_KEY), &[7, 8]);
    assert_eq!(store.load_data("other"), &[9, 9]);
}

#[test]
fn any_non_empty_marker_counts_as_initialized() {
    let ctx = app_context(OWNER_ID, OWNER_ID, 1);
    let mut store = AccountStore::new();

    store.store_data(INIT_KEY, vec![42, 1, 3]);

    let args = transfer_args();

    assert_eq!(before_transfer(&ctx, &store, &args).unwrap(), true);
}
