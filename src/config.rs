use vstd::prelude::*;
use vstd::string::*;

verus! {

/// Process-wide options.
#[derive(Debug, Copy, Clone, PartialEq, Eq, Structural)]
pub struct Basic {
    /// Worker arbiters; `None` means one per logical CPU.
    pub workers: Option<usize>,
}

impl Basic {
    /// Reads the `workers` option: an unset or zero value means "not set".
    pub fn new(workers: Option<usize>) -> (r: Basic)
        ensures
            r.workers == (match workers {
                Some(n) => if n == 0 {
                    None
                } else {
                    Some(n)
                },
                None => None,
            }),
    {
        let workers = match workers {
            Some(n) => if n == 0 {
                None
            } else {
                Some(n)
            },
            None => None,
        };
        Basic { workers }
    }

    /// How many worker arbiters to start, given the logical CPU count.
    pub fn worker_count(&self, cpus: usize) -> (r: usize)
        ensures
            r == (match self.workers {
                Some(n) => n,
                None => cpus,
            }),
    {
        match self.workers {
            Some(n) => n,
            None => cpus,
        }
    }
}

impl Default for Basic {
    fn default() -> (r: Basic)
        ensures
            r.workers is None,
    {
        Basic { workers: None }
    }
}

/// Scheduler timing, in milliseconds.
#[derive(Debug, Copy, Clone, PartialEq, Eq, Structural)]
pub struct Schedule {
    /// Period of the takeover timer.
    pub schedule_interval_ms: u64,
    /// Period of the rebalance timer.
    pub balance_interval_ms: u64,
    /// Staleness after which a task is an orphan.
    pub max_interval_ms: u64,
}

impl Default for Schedule {
    fn default() -> (r: Schedule)
        ensures
            r.schedule_interval_ms == 5000,
            r.balance_interval_ms == 30000,
            r.max_interval_ms == 60000,
    {
        Schedule { schedule_interval_ms: 5000, balance_interval_ms: 30000, max_interval_ms: 60000 }
    }
}

impl Schedule {
    pub fn new(schedule_interval_ms: u64, balance_interval_ms: u64, max_interval_ms: u64) -> (r:
        Schedule)
        ensures
            r.schedule_interval_ms == schedule_interval_ms,
            r.balance_interval_ms == balance_interval_ms,
            r.max_interval_ms == max_interval_ms,
    {
        Schedule { schedule_interval_ms, balance_interval_ms, max_interval_ms }
    }

    pub fn schedule_interval(&self) -> (r: u64)
        ensures
            r == self.schedule_interval_ms,
    {
        self.schedule_interval_ms
    }

    pub fn balance_interval(&self) -> (r: u64)
        ensures
            r == self.balance_interval_ms,
    {
        self.balance_interval_ms
    }

    pub fn max_interval(&self) -> (r: u64)
        ensures
            r == self.max_interval_ms,
    {
        self.max_interval_ms
    }

    /// Period of heartbeats and of reaping: half the staleness bound.
    pub fn heartbeat_interval(&self) -> (r: u64)
        ensures
            r == self.max_interval_ms / 2,
    {
        self.max_interval_ms / 2
    }
}

/// Store connection parameters.
#[derive(Debug, Clone, PartialEq, Eq)]
pub struct MongoDB {
    pub uri: String,
    pub database: String,
}

impl MongoDB {
    pub fn uri(&self) -> (r: &str)
        ensures
            r@ == self.uri@,
    {
        self.uri.as_str()
    }

    pub fn database(&self) -> (r: &str)
        ensures
            r@ == self.database@,
    {
        self.database.as_str()
    }
}

impl Default for MongoDB {
    fn default() -> (r: MongoDB)
        ensures
            r.uri@ == "mongodb://localhost"@,
            r.database@ == "stargazer"@,
    {
        MongoDB { uri: String::from_str("mongodb://localhost"), database: String::from_str("stargazer") }
    }
}

/// The message-broker destination.
#[derive(Debug, Clone, PartialEq, Eq)]
pub enum AMQP {
    Disabled,
    Enabled { uri: String, exchange: String },
}

impl Default for AMQP {
    fn default() -> (r: AMQP)
        ensures
            (r matches AMQP::Enabled { uri, exchange } && uri@ == "amqp://127.0.0.1"@ && exchange@
                == "stargazer"@),
    {
        AMQP::Enabled { uri: String::from_str("amqp://127.0.0.1"), exchange: String::from_str("stargazer") }
    }
}

/// The local log destination.
#[derive(Debug, Copy, Clone, PartialEq, Eq, Structural)]
pub struct DebugCollector {
    pub enabled: bool,
}

impl Default for DebugCollector {
    fn default() -> (r: DebugCollector)
        ensures
            !r.enabled,
    {
        DebugCollector { enabled: false }
    }
}

/// Destinations of the collector.
#[derive(Debug, Clone, PartialEq, Eq)]
pub struct Collector {
    pub amqp: AMQP,
    pub debug: DebugCollector,
}

impl Default for Collector {
    fn default() -> (r: Collector)
        ensures
            r.amqp matches AMQP::Enabled { .. },
            !r.debug.enabled,
    {
        Collector { amqp: AMQP::default(), debug: DebugCollector::default() }
    }
}

/// The twitter task kind, with its auth token when enabled.
#[derive(Debug, Clone, PartialEq, Eq)]
pub enum Twitter {
    Enabled { token: String },
    Disabled,
}

impl Default for Twitter {
    fn default() -> (r: Twitter)
        ensures
            r is Disabled,
    {
        Twitter::Disabled
    }
}

/// The live-stream task kind.
#[derive(Debug, Copy, Clone, PartialEq, Eq, Structural)]
pub struct Bililive {
    pub enabled: bool,
}

impl Default for Bililive {
    fn default() -> (r: Bililive)
        ensures
            r.enabled,
    {
        Bililive { enabled: true }
    }
}

/// The debug task kind.
#[derive(Debug, Copy, Clone, PartialEq, Eq, Structural)]
pub struct DebugSource {
    pub enabled: bool,
}

impl Default for DebugSource {
    fn default() -> (r: DebugSource)
        ensures
            !r.enabled,
    {
        DebugSource { enabled: false }
    }
}

/// Per-kind toggles.
#[derive(Debug, Clone, PartialEq, Eq)]
pub struct Source {
    pub twitter: Twitter,
    pub bililive: Bililive,
    pub debug: DebugSource,
}

impl Default for Source {
    fn default() -> (r: Source)
        ensures
            r.twitter is Disabled,
            r.bililive.enabled,
            !r.debug.enabled,
    {
        Source { twitter: Twitter::default(), bililive: Bililive::default(), debug: DebugSource::default() }
    }
}

/// Everything a process needs to run, but its admin listener.
#[derive(Debug, Clone, PartialEq, Eq)]
pub struct Config {
    pub basic: Basic,
    pub schedule: Schedule,
    pub mongodb: MongoDB,
    pub collector: Collector,
    pub source: Source,
}

impl Default for Config {
    fn default() -> (r: Config)
        ensures
            r.basic.workers is None,
            r.schedule.max_interval_ms == 60000,
            r.mongodb.database@ == "stargazer"@,
    {
        Config {
            basic: Basic::default(),
            schedule: Schedule::default(),
            mongodb: MongoDB::default(),
            collector: Collector::default(),
            source: Source::default(),
        }
    }
}

/// A configuration section that cannot be read.
#[derive(Debug, Clone, PartialEq, Eq)]
pub enum ConfigError {
    /// A required key is absent.
    MissingField(String),
}

pub open spec fn missing(e: ConfigError, key: Seq<char>) -> bool {
    match e {
        ConfigError::MissingField(k) => k@ == key,
    }
}

impl AMQP {
    /// Reads the tagged form `{ enabled, uri, exchange }`; `uri` and
    /// `exchange` are needed only when enabled.
    pub fn from_tagged(enabled: Option<bool>, uri: Option<String>, exchange: Option<String>) -> (r:
        Result<AMQP, ConfigError>)
        ensures
            enabled is None ==> (r matches Err(e) && missing(e, "enabled"@)),
            enabled == Some(false) ==> r == Ok::<AMQP, ConfigError>(AMQP::Disabled),
            enabled == Some(true) && uri is None ==> (r matches Err(e) && missing(e, "uri"@)),
            enabled == Some(true) && uri is Some && exchange is None ==> (r matches Err(e) && missing(
                e,
                "exchange"@,
            )),
            enabled == Some(true) && uri is Some && exchange is Some ==> r == Ok::<AMQP, ConfigError>(
                AMQP::Enabled { uri: uri->Some_0, exchange: exchange->Some_0 },
            ),
    {
        match enabled {
            None => Err(ConfigError::MissingField(String::from_str("enabled"))),
            Some(false) => Ok(AMQP::Disabled),
            Some(true) => match uri {
                None => Err(ConfigError::MissingField(String::from_str("uri"))),
                Some(uri) => match exchange {
                    None => Err(ConfigError::MissingField(String::from_str("exchange"))),
                    Some(exchange) => Ok(AMQP::Enabled { uri, exchange }),
                },
            },
        }
    }

    pub fn enabled(&self) -> (r: bool)
        ensures
            r == self is Enabled,
    {
        match self {
            AMQP::Enabled { .. } => true,
            AMQP::Disabled => false,
        }
    }
}

impl Twitter {
    /// Reads the tagged form `{ enabled, token }`; `token` is needed only when
    /// enabled.
    pub fn from_tagged(enabled: Option<bool>, token: Option<String>) -> (r: Result<Twitter, ConfigError>)
        ensures
            enabled is None ==> (r matches Err(e) && missing(e, "enabled"@)),
            enabled == Some(false) ==> r == Ok::<Twitter, ConfigError>(Twitter::Disabled),
            enabled == Some(true) && token is None ==> (r matches Err(e) && missing(e, "token"@)),
            enabled == Some(true) && token is Some ==> r == Ok::<Twitter, ConfigError>(
                Twitter::Enabled { token: token->Some_0 },
            ),
    {
        match enabled {
            None => Err(ConfigError::MissingField(String::from_str("enabled"))),
            Some(false) => Ok(Twitter::Disabled),
            Some(true) => match token {
                None => Err(ConfigError::MissingField(String::from_str("token"))),
                Some(token) => Ok(Twitter::Enabled { token }),
            },
        }
    }

    pub fn enabled(&self) -> (r: bool)
        ensures
            r == self is Enabled,
    {
        match self {
            Twitter::Enabled { .. } => true,
            Twitter::Disabled => false,
        }
    }
}

/// Formats a configuration file may have.
#[derive(Debug, Copy, Clone, PartialEq, Eq, Structural)]
pub enum ConfigFormat {
    Toml,
    Json,
}

pub open spec fn format_of(ext: Seq<char>) -> Option<ConfigFormat> {
    if ext == "toml"@ {
        Some(ConfigFormat::Toml)
    } else if ext == "json"@ {
        Some(ConfigFormat::Json)
    } else {
        None
    }
}

/// The format named by a (lower-case) file extension.
pub fn format_of_extension(ext: &str) -> (r: Option<ConfigFormat>)
    ensures
        r == format_of(ext@),
{
    let e = String::from_str(ext);
    if e == String::from_str("toml") {
        Some(ConfigFormat::Toml)
    } else if e == String::from_str("json") {
        Some(ConfigFormat::Json)
    } else {
        None
    }
}

/// The files a configuration path stands for, in the order they are tried:
/// the path itself when its (lower-case) extension names a format; then,
/// unless the path is a directory, the path with `.toml` and with `.json`
/// appended.
pub fn config_candidates(path: &str, ext: Option<&str>, is_dir: bool) -> (r: Vec<(String, ConfigFormat)>)
    ensures
        ({
            let head: Seq<(Seq<char>, ConfigFormat)> = match ext {
                Some(e) => match format_of(e@) {
                    Some(f) => seq![(path@, f)],
                    None => seq![],
                },
                None => seq![],
            };
            let tail: Seq<(Seq<char>, ConfigFormat)> = if is_dir {
                seq![]
            } else {
                seq![(path@ + ".toml"@, ConfigFormat::Toml), (path@ + ".json"@, ConfigFormat::Json)]
            };
            &&& r@.len() == head.len() + tail.len()
            &&& forall|k: int|
                0 <= k < r@.len() ==> (#[trigger] r@[k]).0@ == (head + tail)[k].0 && r@[k].1 == (head
                    + tail)[k].1
        }),
{
    let mut out: Vec<(String, ConfigFormat)> = Vec::new();
    match ext {
        Some(e) => match format_of_extension(e) {
            Some(f) => out.push((String::from_str(path), f)),
            None => {},
        },
        None => {},
    }
    if !is_dir {
        let mut toml = String::from_str(path);
        toml.append(".toml");
        let mut json = String::from_str(path);
        json.append(".json");
        out.push((toml, ConfigFormat::Toml));
        out.push((json, ConfigFormat::Json));
    }
    out
}

} // verus!
