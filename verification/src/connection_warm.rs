//! Spare upstream connections, prepared before a client asks for one.
use std::time::Duration;

use tokio::sync::Semaphore;
use vstd::prelude::*;

use crate::params::StartupParams;
use crate::postgres_upstream;

pub mod attempt;
pub mod history;
pub mod laws;
pub mod operations;
pub mod pool;
pub mod retry;
pub mod run;
pub mod scheduler;
pub mod shutdown;
pub mod startup;

verus! {

/// The number that `Duration::as_nanos` returns.
pub uninterp spec fn nanoseconds(span: Duration) -> nat;

/// `Duration::as_nanos` is the length of the span in nanoseconds.
pub assume_specification[ Duration::as_nanos ](span: &Duration) -> (length: u128)
    ensures
        length == nanoseconds(*span),
;

/// `Duration::from_secs` is a span of whole seconds.
pub assume_specification[ Duration::from_secs ](secs: u64) -> (span: Duration)
    ensures
        nanoseconds(span) == secs * 1_000_000_000,
;

/// The largest number of permits that tokio's `Semaphore` takes.
pub open spec fn permit_limit() -> int {
    usize::MAX as int / 8
}

/// `Semaphore::MAX_PERMITS`: the largest `usize`, shifted right by three bits.
#[verifier::external_body]
fn max_permits() -> (permits: usize)
    ensures
        permits == permit_limit(),
{
    Semaphore::MAX_PERMITS
}

/// Configuration for preparing fresh, single-use upstream connections.
///
/// The default disables warming, sets a global capacity of 32 connections and
/// four concurrent warm attempts, and allows five seconds for initial warm-up.
/// Startup parameters default to an empty map; the configured PostgreSQL user
/// is supplied later when resolving the warm profile.
#[derive(Debug, PartialEq, Eq)]
pub struct ConnectionWarmConfig {
    /// Target number of spare connections per database. Zero disables warming.
    per_database: u16,
    /// Global cap on idle connections plus in-flight warm attempts.
    /// Connections already handed to clients do not count toward this cap.
    max_total: usize,
    /// Maximum number of simultaneous attempts to establish warm connections.
    concurrency: usize,
    /// Maximum initial warm-up wait before accepting clients.
    /// Zero selects background-only warming.
    startup_wait: Duration,
    /// Startup parameters for the warm profile, before resolving the default
    /// user.
    startup_params: StartupParams,
}

/// What a [`ConnectionWarmConfig`] says.
pub struct WarmConfigView {
    pub per_database: u16,
    pub max_total: usize,
    pub concurrency: usize,
    pub startup_wait: Duration,
    pub startup_params: Map<Seq<char>, Seq<char>>,
}

/// Why a configuration was refused.
#[derive(Debug, Clone, Copy, PartialEq, Eq, Structural)]
pub enum ConnectionWarmConfigError {
    ConnectionWarmPoolSizeCanNotBeZero,
    ConnectionWarmConcurrencyCanNotBeZero,
    ConnectionWarmInvalidConnectionParams,
}

impl ConnectionWarmConfigError {
    /// The text of the error.
    pub fn message(&self) -> (message: &'static str)
        ensures
            message@ == match self {
                ConnectionWarmConfigError::ConnectionWarmPoolSizeCanNotBeZero =>
                "connection warm pool can't be zero"@,
                ConnectionWarmConfigError::ConnectionWarmConcurrencyCanNotBeZero =>
                "connection warm concurrency can't be zero"@,
                ConnectionWarmConfigError::ConnectionWarmInvalidConnectionParams =>
                "connection params can't contains 'database' or 'replication' params"@,
            },
    {
        match self {
            ConnectionWarmConfigError::ConnectionWarmPoolSizeCanNotBeZero =>
            "connection warm pool can't be zero",
            ConnectionWarmConfigError::ConnectionWarmConcurrencyCanNotBeZero =>
            "connection warm concurrency can't be zero",
            ConnectionWarmConfigError::ConnectionWarmInvalidConnectionParams =>
            "connection params can't contains 'database' or 'replication' params",
        }
    }
}

/// The proxy decides on these parameters itself.
pub open spec fn names_owned_parameter(params: Map<Seq<char>, Seq<char>>) -> bool {
    params.dom().contains("database"@) || params.dom().contains("replication"@)
}

/// The settings can be worked with.
pub open spec fn valid_config(config: WarmConfigView) -> bool {
    &&& config.max_total > 0
    &&& config.concurrency > 0
    &&& !names_owned_parameter(config.startup_params)
}

/// Why settings are refused; none where they are not.
pub open spec fn refusal(
    max_total: usize,
    concurrency: usize,
    startup_params: Map<Seq<char>, Seq<char>>,
) -> Option<ConnectionWarmConfigError> {
    if max_total == 0 {
        Some(ConnectionWarmConfigError::ConnectionWarmPoolSizeCanNotBeZero)
    } else if concurrency == 0 {
        Some(ConnectionWarmConfigError::ConnectionWarmConcurrencyCanNotBeZero)
    } else if names_owned_parameter(startup_params) {
        Some(ConnectionWarmConfigError::ConnectionWarmInvalidConnectionParams)
    } else {
        None
    }
}

impl View for ConnectionWarmConfig {
    type V = WarmConfigView;

    closed spec fn view(&self) -> WarmConfigView {
        WarmConfigView {
            per_database: self.per_database,
            max_total: self.max_total,
            concurrency: self.concurrency,
            startup_wait: self.startup_wait,
            startup_params: self.startup_params@,
        }
    }
}

impl Default for ConnectionWarmConfig {
    fn default() -> (config: ConnectionWarmConfig)
        ensures
            config@.per_database == 0,
            config@.max_total == 32,
            config@.concurrency == 4,
            nanoseconds(config@.startup_wait) == 5_000_000_000,
            config@.startup_params == Map::<Seq<char>, Seq<char>>::empty(),
    {
        ConnectionWarmConfig {
            per_database: 0,
            max_total: 32,
            concurrency: 4,
            startup_wait: Duration::from_secs(5),
            startup_params: StartupParams::new(),
        }
    }
}

impl Clone for ConnectionWarmConfig {
    fn clone(&self) -> (copy: ConnectionWarmConfig)
        ensures
            copy@ == self@,
    {
        proof {
            use_type_invariant(self);
        }
        ConnectionWarmConfig {
            per_database: self.per_database,
            max_total: self.max_total,
            concurrency: self.concurrency,
            startup_wait: self.startup_wait,
            startup_params: self.startup_params.clone(),
        }
    }
}

impl ConnectionWarmConfig {
    #[verifier::type_invariant]
    spec fn is_valid(self) -> bool {
        valid_config(self@)
    }

    /// Validates and stores settings without resolving the startup profile.
    ///
    /// Returns an error if `max_total` or `concurrency` is zero, or if
    /// `startup_params` contains `database` or `replication`. These checks
    /// also apply when warming is disabled.
    ///
    /// - `per_database` sets the spare-connection target; zero disables
    ///   warming.
    /// - `max_total` caps idle connections plus in-flight warm attempts
    ///   globally, excluding connections already handed to clients.
    /// - `concurrency` limits simultaneous warm connection attempts.
    /// - `startup_wait` bounds initial warm-up; zero selects background-only
    ///   mode.
    /// - `startup_params` defines the warm profile. A missing `user` is
    ///   resolved later from the configured PostgreSQL user. An explicit user
    ///   is retained.
    pub fn try_new(
        per_database: u16,
        max_total: usize,
        concurrency: usize,
        startup_wait: Duration,
        startup_params: StartupParams,
    ) -> (r: Result<ConnectionWarmConfig, ConnectionWarmConfigError>)
        ensures
            match r {
                Ok(config) => {
                    &&& config@ == (WarmConfigView {
                        per_database,
                        max_total,
                        concurrency,
                        startup_wait,
                        startup_params: startup_params@,
                    })
                    &&& valid_config(config@)
                    &&& refusal(max_total, concurrency, startup_params@) is None
                },
                Err(error) => refusal(max_total, concurrency, startup_params@) == Some(error),
            },
    {
        if max_total == 0 {
            return Err(ConnectionWarmConfigError::ConnectionWarmPoolSizeCanNotBeZero);
        }
        if concurrency == 0 {
            return Err(ConnectionWarmConfigError::ConnectionWarmConcurrencyCanNotBeZero);
        }
        if startup_params.contains_key("database") || startup_params.contains_key("replication") {
            return Err(ConnectionWarmConfigError::ConnectionWarmInvalidConnectionParams);
        }
        Ok(
            ConnectionWarmConfig {
                per_database,
                max_total,
                concurrency,
                startup_wait,
                startup_params,
            },
        )
    }

    /// The profile of warm connections. The user of the startup parameters wins
    /// over `default_user`.
    pub fn resolve_profile(&self, default_user: &str) -> (profile: WarmStartupProfile)
        ensures
            profile@ == resolved_profile(self@.startup_params, default_user@),
            !names_owned_parameter(profile@),
            valid_config(self@),
    {
        proof {
            use_type_invariant(self);
            reveal_strlit("user");
            reveal_strlit("database");
            reveal_strlit("replication");
            assert("user"@.len() == 4);
            assert("database"@.len() == 8);
            assert("replication"@.len() == 11);
        }
        let mut connection_params = self.startup_params.clone();
        if !connection_params.contains_key("user") {
            connection_params.insert("user".to_owned(), default_user.to_owned());
        }
        WarmStartupProfile { connection_params }
    }

    /// Whether connections are warmed at all.
    pub fn is_enabled(&self) -> (enabled: bool)
        ensures
            enabled == (self@.per_database != 0),
    {
        self.per_database != 0
    }

    /// Whether clients are accepted without waiting for warm connections.
    pub fn is_background_only(&self) -> (background: bool)
        ensures
            background == (nanoseconds(self@.startup_wait) == 0),
    {
        self.startup_wait.as_nanos() == 0
    }

    /// The number of warm attempts that may run at the same time. Attempts
    /// cannot exceed reserved capacity, and the limit stays within what a
    /// semaphore takes.
    pub fn attempt_limit(&self) -> (limit: usize)
        ensures
            limit == attempt_limit(self@),
    {
        let mut limit: usize = self.concurrency;
        if self.max_total < limit {
            limit = self.max_total;
        }
        let permits = max_permits();
        if permits < limit {
            limit = permits;
        }
        limit
    }

    /// The target number of spare connections per database.
    pub fn per_database(&self) -> (target: u16)
        ensures
            target == self@.per_database,
    {
        self.per_database
    }

    /// The global cap on idle connections plus in-flight warm attempts.
    pub fn max_total(&self) -> (cap: usize)
        ensures
            cap == self@.max_total,
            cap > 0,
    {
        proof {
            use_type_invariant(self);
        }
        self.max_total
    }

    /// The number of simultaneous attempts that was asked for.
    pub fn concurrency(&self) -> (attempts: usize)
        ensures
            attempts == self@.concurrency,
    {
        self.concurrency
    }

    /// The longest initial warm-up.
    pub fn startup_wait(&self) -> (wait: Duration)
        ensures
            wait == self@.startup_wait,
    {
        self.startup_wait
    }

    /// The startup parameters of the warm profile, without the default user.
    pub fn startup_params(&self) -> (params: &StartupParams)
        ensures
            params@ == self@.startup_params,
    {
        &self.startup_params
    }
}

/// The smallest of the configured concurrency, the global cap and the largest
/// semaphore.
pub open spec fn attempt_limit(config: WarmConfigView) -> int {
    let capped = if config.max_total < config.concurrency {
        config.max_total as int
    } else {
        config.concurrency as int
    };
    if permit_limit() < capped {
        permit_limit()
    } else {
        capped
    }
}

/// A warm pool can always make progress: at least one attempt may run.
pub proof fn lemma_attempt_limit_is_positive(config: WarmConfigView)
    requires
        valid_config(config),
    ensures
        0 < attempt_limit(config) <= config.max_total,
        attempt_limit(config) <= config.concurrency,
{
}

/// `params` with `default_user` as the user, unless they name one.
pub open spec fn resolved_profile(
    params: Map<Seq<char>, Seq<char>>,
    default_user: Seq<char>,
) -> Map<Seq<char>, Seq<char>> {
    if params.dom().contains("user"@) {
        params
    } else {
        params.insert("user"@, default_user)
    }
}

/// The startup parameters that every warm connection was opened with.
#[derive(Debug, PartialEq, Eq)]
pub struct WarmStartupProfile {
    connection_params: StartupParams,
}

impl View for WarmStartupProfile {
    type V = Map<Seq<char>, Seq<char>>;

    closed spec fn view(&self) -> Map<Seq<char>, Seq<char>> {
        self.connection_params@
    }
}

impl Clone for WarmStartupProfile {
    fn clone(&self) -> (copy: WarmStartupProfile)
        ensures
            copy@ == self@,
    {
        WarmStartupProfile { connection_params: self.connection_params.clone() }
    }
}

/// A client with these parameters can be given a connection of this profile.
pub open spec fn profile_matches(
    profile: Map<Seq<char>, Seq<char>>,
    client: Map<Seq<char>, Seq<char>>,
) -> bool {
    !client.dom().contains("replication"@) && profile == postgres_upstream::forwarded(client)
}

impl WarmStartupProfile {
    /// The parameters of the profile.
    pub fn parameters(&self) -> (params: &StartupParams)
        ensures
            params@ == self@,
    {
        &self.connection_params
    }

    /// Whether a client with these parameters can be given a warm connection.
    pub fn matches(&self, client_params: &StartupParams) -> (same: bool)
        ensures
            same == profile_matches(self@, client_params@),
    {
        if client_params.contains_key("replication") {
            return false;
        }
        self.connection_params.same(&postgres_upstream::forwardable(client_params))
    }
}

/// A profile matches its own parameters, whatever database the client names.
pub proof fn lemma_profile_matches_any_database(
    profile: Map<Seq<char>, Seq<char>>,
    database: Seq<char>,
)
    requires
        !names_owned_parameter(profile),
    ensures
        profile_matches(profile, profile),
        profile_matches(profile, profile.insert("database"@, database)),
{
    reveal_strlit("database");
    reveal_strlit("replication");
    assert("database"@.len() == 8);
    assert("replication"@.len() == 11);
    assert(postgres_upstream::forwarded(profile) =~= profile);
    assert(postgres_upstream::forwarded(profile.insert("database"@, database)) =~= profile);
}

/// A client that matches sends every parameter of the profile with its value,
/// and no other but the database.
pub proof fn lemma_match_is_exact(
    profile: Map<Seq<char>, Seq<char>>,
    client: Map<Seq<char>, Seq<char>>,
    name: Seq<char>,
)
    requires
        profile_matches(profile, client),
        name != "database"@,
    ensures
        client.dom().contains(name) == profile.dom().contains(name),
        client.dom().contains(name) ==> client[name] == profile[name],
{
}

/// A warm connection carries exactly what a cold connection for the same client
/// would carry.
pub proof fn lemma_warm_connection_equals_cold(
    profile: Map<Seq<char>, Seq<char>>,
    client: Map<Seq<char>, Seq<char>>,
    database: Seq<char>,
)
    requires
        profile_matches(profile, client),
    ensures
        postgres_upstream::upstream_parameters(profile, database)
            == postgres_upstream::upstream_parameters(client, database),
{
    postgres_upstream::lemma_forwarding_is_idempotent(client);
}

/// A client matches a profile exactly when it asks for no replication and both
/// give the same values to the same names, the database left aside.
pub proof fn lemma_matching_is_agreement(
    profile: Map<Seq<char>, Seq<char>>,
    client: Map<Seq<char>, Seq<char>>,
)
    requires
        !names_owned_parameter(profile),
    ensures
        profile_matches(profile, client) <==> {
            &&& !client.dom().contains("replication"@)
            &&& forall|name: Seq<char>|
                name != "database"@ ==> (#[trigger] client.dom().contains(name)
                    <==> profile.dom().contains(name))
            &&& forall|name: Seq<char>|
                name != "database"@ && #[trigger] client.dom().contains(name) ==> client[name]
                    == profile[name]
        },
{
    let kept = postgres_upstream::forwarded(client);
    if profile_matches(profile, client) {
        assert forall|name: Seq<char>| name != "database"@ implies (
        #[trigger] client.dom().contains(name) <==> profile.dom().contains(name)) by {
            assert(kept.dom().contains(name) == profile.dom().contains(name));
        }
        assert forall|name: Seq<char>|
            name != "database"@ && #[trigger] client.dom().contains(name) implies client[name]
            == profile[name] by {
            assert(kept.dom().contains(name));
            assert(kept[name] == client[name]);
        }
    } else if !client.dom().contains("replication"@) && (forall|name: Seq<char>|
        name != "database"@ ==> (#[trigger] client.dom().contains(name) <==> profile.dom().contains(
            name,
        ))) && (forall|name: Seq<char>|
        name != "database"@ && #[trigger] client.dom().contains(name) ==> client[name]
            == profile[name]) {
        assert forall|name: Seq<char>| #[trigger]
            kept.dom().contains(name) == profile.dom().contains(name) by {
            assert(client.dom().contains(name) || !client.dom().contains(name));
        }
        assert(kept =~= profile);
    }
}

/// The profile of warm connections is what was configured, with the default
/// user where no user was. A user that was configured is kept, even an empty
/// one.
pub proof fn lemma_profile_keeps_what_was_configured(
    config: ConnectionWarmConfig,
    default_user: &str,
    profile: WarmStartupProfile,
    name: Seq<char>,
)
    requires
        call_ensures(ConnectionWarmConfig::resolve_profile, (&config, default_user), profile),
    ensures
        ({
            let params = config@.startup_params;
            &&& params.dom().contains(name) ==> profile@.dom().contains(name) && profile@[name]
                == params[name]
            &&& profile@.dom().contains(name) ==> params.dom().contains(name) || name == "user"@
            &&& profile@.dom().contains("user"@)
            &&& !params.dom().contains("user"@) ==> profile@["user"@] == default_user@
        }),
{
}

/// A client matches a profile exactly when it asks for no replication and both
/// give the same values to the same names, the database left aside.
pub proof fn lemma_matching_profiles(
    profile: WarmStartupProfile,
    client: StartupParams,
    same: bool,
)
    requires
        !names_owned_parameter(profile@),
        call_ensures(WarmStartupProfile::matches, (&profile, &client), same),
    ensures
        same <==> {
            &&& !client@.dom().contains("replication"@)
            &&& forall|name: Seq<char>|
                name != "database"@ ==> (#[trigger] client@.dom().contains(name)
                    <==> profile@.dom().contains(name))
            &&& forall|name: Seq<char>|
                name != "database"@ && #[trigger] client@.dom().contains(name) ==> client@[name]
                    == profile@[name]
        },
{
    lemma_matching_is_agreement(profile@, client@);
}

/// Settings can be worked with unless the cap or the concurrency is zero or a
/// parameter is one that the proxy decides on.
pub proof fn lemma_workable_settings(config: WarmConfigView)
    ensures
        valid_config(config) <==> config.max_total >= 1 && config.concurrency >= 1
            && !config.startup_params.dom().contains("database"@)
            && !config.startup_params.dom().contains("replication"@),
{
}

/// Settings are refused exactly where they cannot be worked with, whatever the
/// target and the wait: for a cap of zero first, for a concurrency of zero next,
/// and for a parameter that the proxy decides on last. All others are kept as
/// they are.
pub proof fn lemma_refused_settings(
    per_database: u16,
    max_total: usize,
    concurrency: usize,
    startup_wait: Duration,
    startup_params: StartupParams,
    r: Result<ConnectionWarmConfig, ConnectionWarmConfigError>,
)
    requires
        call_ensures(
            ConnectionWarmConfig::try_new,
            (per_database, max_total, concurrency, startup_wait, startup_params),
            r,
        ),
    ensures
        ({
            let owned = startup_params@.dom().contains("database"@)
                || startup_params@.dom().contains("replication"@);
            &&& r is Ok <==> max_total >= 1 && concurrency >= 1 && !owned
            &&& r is Ok ==> {
                &&& r->Ok_0@.per_database == per_database
                &&& r->Ok_0@.max_total == max_total
                &&& r->Ok_0@.concurrency == concurrency
                &&& r->Ok_0@.startup_wait == startup_wait
                &&& r->Ok_0@.startup_params == startup_params@
            }
            &&& max_total == 0 ==> r->Err_0
                == ConnectionWarmConfigError::ConnectionWarmPoolSizeCanNotBeZero
            &&& max_total >= 1 && concurrency == 0 ==> r->Err_0
                == ConnectionWarmConfigError::ConnectionWarmConcurrencyCanNotBeZero
            &&& max_total >= 1 && concurrency >= 1 && owned ==> r->Err_0
                == ConnectionWarmConfigError::ConnectionWarmInvalidConnectionParams
        }),
{
}

/// What was configured is what the configuration says. Warming is enabled where a
/// target was set, and clients wait for it where a wait was.
pub proof fn lemma_settings_are_kept(
    config: ConnectionWarmConfig,
    enabled: bool,
    background: bool,
    target: u16,
    cap: usize,
    attempts: usize,
    limit: usize,
)
    requires
        call_ensures(ConnectionWarmConfig::is_enabled, (&config,), enabled),
        call_ensures(ConnectionWarmConfig::is_background_only, (&config,), background),
        call_ensures(ConnectionWarmConfig::per_database, (&config,), target),
        call_ensures(ConnectionWarmConfig::max_total, (&config,), cap),
        call_ensures(ConnectionWarmConfig::concurrency, (&config,), attempts),
        call_ensures(ConnectionWarmConfig::attempt_limit, (&config,), limit),
    ensures
        enabled <==> config@.per_database > 0,
        background <==> nanoseconds(config@.startup_wait) == 0,
        target == config@.per_database,
        cap == config@.max_total,
        attempts == config@.concurrency,
        limit <= attempts,
        limit <= cap,
        limit == attempts || limit == cap || limit == usize::MAX as int / 8,
{
}

} // verus!
