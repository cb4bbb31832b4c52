use std::time::Duration;

use pgtest_wire::connection_warm::{
    ConnectionWarmConfig, ConnectionWarmConfigError, WarmStartupProfile,
};
use pgtest_wire::params::StartupParams;
use pgtest_wire::postgres_upstream::forwardable;

fn map_of(pairs: Vec<(String, String)>) -> StartupParams {
    let mut params = StartupParams::new();
    for (name, value) in pairs {
        params.insert(name, value);
    }
    params
}

fn matching_profile() -> WarmStartupProfile {
    let params = map_of(vec![
        ("user".to_owned(), "test_user".to_owned()),
        ("application_name".to_owned(), "vitest".to_owned()),
        ("client_encoding".to_owned(), "UTF8".to_owned()),
        ("options".to_owned(), "-c search_path=public".to_owned()),
    ]);
    ConnectionWarmConfig::try_new(1, 32, 4, Duration::from_secs(5), params)
        .unwrap()
        .resolve_profile("postgres")
}

#[test]
fn warming_is_enabled_only_for_a_positive_target() {
    assert!(!ConnectionWarmConfig::default().is_enabled());
    for count in [0, 1, u16::MAX] {
        for wait in [Duration::ZERO, Duration::from_secs(5)] {
            let config =
                ConnectionWarmConfig::try_new(count, 1, 1, wait, StartupParams::new()).unwrap();
            assert_eq!(config.is_enabled(), count > 0, "count={count}, wait={wait:?}");
        }
    }
}

#[test]
fn exact_profiles_match_independently_of_the_routed_database() {
    for profile in
        [ConnectionWarmConfig::default().resolve_profile("postgres"), matching_profile()]
    {
        assert!(profile.matches(profile.parameters()));
        for database in ["template/lease_a", "template/lease_b", "other_template/lease"] {
            let mut client = profile.parameters().clone();
            client.insert("database".to_owned(), database.to_owned());
            assert!(profile.matches(&client), "database={database}");
        }
    }
}

#[test]
fn missing_or_changed_forwarded_parameters_do_not_match() {
    let profile = matching_profile();
    for (key, changed_value) in [
        ("user", "TEST_USER"),
        ("application_name", "Vitest"),
        ("client_encoding", "utf8"),
        ("options", "-c  search_path=public"),
    ] {
        let mut client = profile.parameters().clone();
        client.insert("database".to_owned(), "template/lease".to_owned());
        client.remove(key);
        assert!(!profile.matches(&client), "missing {key}");
        client.insert(key.to_owned(), changed_value.to_owned());
        assert!(!profile.matches(&client), "changed {key}");
    }
}

#[test]
fn extra_forwarded_parameters_do_not_match_even_when_empty() {
    let profile = matching_profile();
    for key in ["extra", "User", "Database", "Replication"] {
        let mut client = profile.parameters().clone();
        client.insert(key.to_owned(), String::new());
        assert!(!profile.matches(&client), "extra key {key}");
    }

    let minimal = ConnectionWarmConfig::default().resolve_profile("postgres");
    let mut client = minimal.parameters().clone();
    client.insert("application_name".to_owned(), String::new());
    assert!(!minimal.matches(&client));
}

#[test]
fn matching_never_supplies_a_missing_client_user() {
    for user in ["test_user", ""] {
        let config = ConnectionWarmConfig::try_new(
            1,
            32,
            4,
            Duration::ZERO,
            map_of(vec![("user".to_owned(), user.to_owned())]),
        )
        .unwrap();
        let profile = config.resolve_profile("postgres");
        let mut client = map_of(vec![("database".to_owned(), "template/lease".to_owned())]);
        assert!(!profile.matches(&client), "missing user must not match {user:?}");
        client.insert("user".to_owned(), String::new());
        assert_eq!(profile.matches(&client), user.is_empty());
        client.insert("user".to_owned(), user.to_owned());
        assert!(profile.matches(&client));
    }
}

#[test]
fn replication_presence_never_matches_regardless_of_value() {
    let profile = matching_profile();
    for value in ["", "false", "0", "true", "database"] {
        let mut client = profile.parameters().clone();
        client.insert("database".to_owned(), "template/lease".to_owned());
        client.insert("replication".to_owned(), value.to_owned());
        assert!(!profile.matches(&client), "replication={value:?}");
    }
}

#[test]
fn matching_leaves_client_parameters_and_profile_unchanged() {
    let profile = matching_profile();
    let original_profile = profile.clone();
    for mismatch in [false, true] {
        let mut client = profile.parameters().clone();
        client.insert("database".to_owned(), "template/lease".to_owned());
        if mismatch {
            client.insert("application_name".to_owned(), "another_client".to_owned());
        }
        let original_client = client.clone();
        assert_eq!(profile.matches(&client), !mismatch);
        assert_eq!(client, original_client);
        assert_eq!(profile, original_profile);
    }
}

#[test]
fn empty_profile_resolves_to_only_the_default_user() {
    let config = ConnectionWarmConfig::default();
    let profile = config.resolve_profile("postgres");
    assert_eq!(
        profile.parameters(),
        &map_of(vec![("user".to_owned(), "postgres".to_owned())])
    );
    assert_eq!(config, ConnectionWarmConfig::default());
}

#[test]
fn resolving_preserves_explicit_users_and_all_parameters() {
    for user in ["test_user", ""] {
        let params = map_of(vec![
            ("user".to_owned(), user.to_owned()),
            ("application_name".to_owned(), "vitest".to_owned()),
            ("options".to_owned(), "-c search_path=public".to_owned()),
            ("client_encoding".to_owned(), String::new()),
        ]);
        let config =
            ConnectionWarmConfig::try_new(1, 32, 4, Duration::from_secs(5), params.clone())
                .unwrap();
        let original = config.clone();

        for default_user in ["postgres", "another_user"] {
            let profile = config.resolve_profile(default_user);
            assert_eq!(profile.parameters(), &params, "explicit user {user:?}");
        }
        assert_eq!(config, original);
    }
}

#[test]
fn resolving_with_different_defaults_does_not_mutate_config_or_prior_profile() {
    let params = map_of(vec![
        ("application_name".to_owned(), String::new()),
        ("options".to_owned(), "-c search_path=public".to_owned()),
    ]);
    let config =
        ConnectionWarmConfig::try_new(1, 32, 4, Duration::from_secs(5), params.clone())
            .unwrap();
    let original = config.clone();
    let first = config.resolve_profile("first_user");
    let second = config.resolve_profile("second_user");

    let mut expected_first = params.clone();
    expected_first.insert("user".to_owned(), "first_user".to_owned());
    let mut expected_second = params;
    expected_second.insert("user".to_owned(), "second_user".to_owned());
    assert_eq!(first.parameters(), &expected_first);
    assert_eq!(second.parameters(), &expected_second);
    assert_eq!(config, original);
}

#[test]
fn zero_global_capacity_is_rejected_even_when_warming_is_disabled() {
    for per_database in [0, 1] {
        let result = ConnectionWarmConfig::try_new(
            per_database,
            0,
            4,
            Duration::from_secs(5),
            StartupParams::new(),
        );
        assert!(
            matches!(
                result,
                Err(ConnectionWarmConfigError::ConnectionWarmPoolSizeCanNotBeZero)
            ),
            "per_database={per_database}: {result:?}",
        );
    }
}

#[test]
fn zero_concurrency_is_rejected_even_when_warming_is_disabled() {
    for per_database in [0, 1] {
        let result = ConnectionWarmConfig::try_new(
            per_database,
            32,
            0,
            Duration::from_secs(5),
            StartupParams::new(),
        );
        assert!(
            matches!(
                result,
                Err(ConnectionWarmConfigError::ConnectionWarmConcurrencyCanNotBeZero)
            ),
            "per_database={per_database}: {result:?}",
        );
    }
}

#[test]
fn reserved_parameters_are_rejected_even_when_warming_is_disabled() {
    for per_database in [0, 1] {
        for parameter in ["database", "replication"] {
            // Presence alone is invalid, including an empty value.
            let params = map_of(vec![(parameter.to_owned(), String::new())]);
            let result = ConnectionWarmConfig::try_new(
                per_database,
                32,
                4,
                Duration::from_secs(5),
                params,
            );
            assert!(
                matches!(
                    result,
                    Err(ConnectionWarmConfigError::ConnectionWarmInvalidConnectionParams)
                ),
                "per_database={per_database}, parameter={parameter}: {result:?}",
            );
        }
    }
}

#[test]
fn disabled_warming_and_background_only_startup_are_valid() {
    let config = ConnectionWarmConfig::try_new(0, 1, 1, Duration::ZERO, StartupParams::new())
        .expect("zero target and wait are valid with positive resource limits");
    assert_eq!(config.per_database(), 0);
    assert_eq!(config.startup_wait(), Duration::ZERO);
    assert!(config.startup_params().is_empty());
}

#[test]
fn target_above_global_capacity_preserves_supplied_settings() {
    let params = map_of(vec![
        ("user".to_owned(), "test_user".to_owned()),
        ("application_name".to_owned(), "vitest".to_owned()),
    ]);
    let config =
        ConnectionWarmConfig::try_new(8, 2, 1, Duration::from_millis(250), params.clone())
            .expect("the global cap may be smaller than the per-database target");
    assert_eq!(config.per_database(), 8);
    assert_eq!(config.max_total(), 2);
    assert_eq!(config.concurrency(), 1);
    assert_eq!(config.startup_wait(), Duration::from_millis(250));
    assert_eq!(config.startup_params(), &params);
}

#[test]
fn default_configuration_matches_its_documentation() {
    let config = ConnectionWarmConfig::default();
    assert_eq!(config.per_database(), 0);
    assert_eq!(config.max_total(), 32);
    assert_eq!(config.concurrency(), 4);
    assert_eq!(config.startup_wait(), Duration::from_secs(5));
    assert!(config.startup_params().is_empty());
    assert!(!config.is_background_only());
}

#[test]
fn zero_wait_selects_background_only_warming() {
    for (wait, background) in [
        (Duration::ZERO, true),
        (Duration::from_nanos(1), false),
        (Duration::from_secs(u64::MAX), false),
    ] {
        let config =
            ConnectionWarmConfig::try_new(1, 1, 1, wait, StartupParams::new()).unwrap();
        assert_eq!(config.is_background_only(), background, "{wait:?}");
    }
}

#[test]
fn attempt_limit_is_the_smallest_bound() {
    for (max_total, concurrency, limit) in [
        (32, 4, 4),
        (2, 4, 2),
        (1, 1, 1),
        (usize::MAX, 7, 7),
        (usize::MAX, usize::MAX, usize::MAX >> 3),
    ] {
        let config = ConnectionWarmConfig::try_new(
            1,
            max_total,
            concurrency,
            Duration::ZERO,
            StartupParams::new(),
        )
        .unwrap();
        assert_eq!(config.attempt_limit(), limit, "{max_total} {concurrency}");
    }
    assert_eq!(tokio::sync::Semaphore::MAX_PERMITS, usize::MAX >> 3);
}

#[test]
fn configuration_errors_have_their_texts() {
    for (error, text) in [
        (
            ConnectionWarmConfigError::ConnectionWarmPoolSizeCanNotBeZero,
            "connection warm pool can't be zero",
        ),
        (
            ConnectionWarmConfigError::ConnectionWarmConcurrencyCanNotBeZero,
            "connection warm concurrency can't be zero",
        ),
        (
            ConnectionWarmConfigError::ConnectionWarmInvalidConnectionParams,
            "connection params can't contains 'database' or 'replication' params",
        ),
    ] {
        assert_eq!(error.message(), text);
    }
}

#[test]
fn parameters_behave_as_a_map() {
    let mut params = StartupParams::default();
    assert!(params.is_empty());
    params.insert("b".to_owned(), "1".to_owned());
    params.insert("a".to_owned(), "2".to_owned());
    params.insert("b".to_owned(), "3".to_owned());
    assert_eq!(params.get("b").unwrap(), "3");
    assert_eq!(params.get("a").unwrap(), "2");
    assert!(params.get("c").is_none());
    assert!(!params.contains_key("A"));
    assert_eq!(params.pairs().len(), 2);

    let other = map_of(vec![
        ("a".to_owned(), "2".to_owned()),
        ("b".to_owned(), "3".to_owned()),
    ]);
    assert_eq!(params, other);
    assert!(params.same(&other));
    params.remove("a");
    assert_ne!(params, other);
    assert!(!other.same(&params) && !params.same(&other));
    params.remove("missing");
    assert_eq!(params, map_of(vec![("b".to_owned(), "3".to_owned())]));
}

#[test]
fn forwarding_drops_what_the_proxy_owns_and_nothing_else() {
    let client = map_of(vec![
        ("database".to_owned(), "template/lease".to_owned()),
        ("user".to_owned(), "postgres".to_owned()),
        ("replication".to_owned(), "true".to_owned()),
        ("Database".to_owned(), "kept".to_owned()),
    ]);
    let kept = forwardable(&client);
    assert_eq!(
        kept,
        map_of(vec![
            ("user".to_owned(), "postgres".to_owned()),
            ("Database".to_owned(), "kept".to_owned()),
        ])
    );
    assert_eq!(forwardable(&kept), kept);
}
