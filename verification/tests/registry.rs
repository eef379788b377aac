use kinject::service_provider::{ServiceError, ServiceProvider};

const ANSWER_KEY: u64 = 1;
const OTHER_KEY: u64 = 2;
const UNUSED_KEY: u64 = 99;

#[test]
fn round_trip_register_then_resolve() {
    let mut provider: ServiceProvider<i64> = ServiceProvider::new();
    provider.register(ANSWER_KEY, |_p: &ServiceProvider<i64>| 42);
    let got = provider.resolve(ANSWER_KEY).unwrap();
    assert_eq!(*got, 42);
}

#[test]
fn last_write_wins_two_registrations() {
    let mut provider: ServiceProvider<i64> = ServiceProvider::new();
    provider.register(ANSWER_KEY, |_p: &ServiceProvider<i64>| 1);
    provider.register(ANSWER_KEY, |_p: &ServiceProvider<i64>| 2);
    let got = provider.resolve(ANSWER_KEY).unwrap();
    assert_eq!(*got, 2);
}

#[test]
fn last_write_wins_many_registrations() {
    let mut provider: ServiceProvider<i64> = ServiceProvider::new();
    for value in 0..5i64 {
        provider.register(ANSWER_KEY, move |_p: &ServiceProvider<i64>| value * 10);
    }
    let got = provider.resolve(ANSWER_KEY).unwrap();
    assert_eq!(*got, 40);
}

#[test]
fn resolve_missing_key_fails() {
    let empty: ServiceProvider<i64> = ServiceProvider::new();
    assert_eq!(empty.resolve(UNUSED_KEY), Err(ServiceError::ServiceNotFound));

    let mut provider: ServiceProvider<i64> = ServiceProvider::new();
    provider.register(ANSWER_KEY, |_p: &ServiceProvider<i64>| 42);
    assert_eq!(provider.resolve(UNUSED_KEY), Err(ServiceError::ServiceNotFound));
}

#[test]
fn factory_sees_prior_registrations() {
    let mut provider: ServiceProvider<i64> = ServiceProvider::new();
    provider.register(ANSWER_KEY, |_p: &ServiceProvider<i64>| 10);
    provider.register(OTHER_KEY, |p: &ServiceProvider<i64>| {
        *p.resolve(ANSWER_KEY).unwrap() + 5
    });
    let got = provider.resolve(OTHER_KEY).unwrap();
    assert_eq!(*got, 15);
}

#[test]
fn build_on_empty_registry_fails() {
    let empty: ServiceProvider<i64> = ServiceProvider::new();
    assert!(matches!(empty.build(), Err(ServiceError::EmptyRegistry)));
}

#[test]
fn build_on_nonempty_registry_matches_source() {
    let mut provider: ServiceProvider<i64> = ServiceProvider::new();
    provider.register(ANSWER_KEY, |_p: &ServiceProvider<i64>| 7);
    provider.register(OTHER_KEY, |_p: &ServiceProvider<i64>| 8);
    let built = provider.build().unwrap();
    assert_eq!(*built.resolve(ANSWER_KEY).unwrap(), *provider.resolve(ANSWER_KEY).unwrap());
    assert_eq!(*built.resolve(OTHER_KEY).unwrap(), *provider.resolve(OTHER_KEY).unwrap());
    assert_eq!(built.resolve(UNUSED_KEY), Err(ServiceError::ServiceNotFound));
}

#[test]
fn clear_removes_every_entry() {
    let mut provider: ServiceProvider<i64> = ServiceProvider::new();
    provider.register(ANSWER_KEY, |_p: &ServiceProvider<i64>| 1);
    provider.register(OTHER_KEY, |_p: &ServiceProvider<i64>| 2);
    provider.clear();
    assert_eq!(provider.resolve(ANSWER_KEY), Err(ServiceError::ServiceNotFound));
    assert_eq!(provider.resolve(OTHER_KEY), Err(ServiceError::ServiceNotFound));
}

#[test]
fn remove_service_removes_only_that_key() {
    let mut provider: ServiceProvider<i64> = ServiceProvider::new();
    provider.register(ANSWER_KEY, |_p: &ServiceProvider<i64>| 1);
    provider.register(OTHER_KEY, |_p: &ServiceProvider<i64>| 2);
    provider.remove_service(ANSWER_KEY);
    assert_eq!(provider.resolve(ANSWER_KEY), Err(ServiceError::ServiceNotFound));
    assert_eq!(*provider.resolve(OTHER_KEY).unwrap(), 2);
}

#[test]
fn remove_then_register_again() {
    let mut provider: ServiceProvider<i64> = ServiceProvider::new();
    provider.register(ANSWER_KEY, |_p: &ServiceProvider<i64>| 1);
    provider.remove_service(ANSWER_KEY);
    provider.register(ANSWER_KEY, |_p: &ServiceProvider<i64>| 3);
    assert_eq!(*provider.resolve(ANSWER_KEY).unwrap(), 3);
}
