//! Broker configuration: server, store, queue defaults, metrics and
//! retention, with the validation rules the broker enforces, and the
//! per-queue configuration record.

use vstd::prelude::*;
use vstd::string::StrSliceExecFns;
use crate::strutil::is_fifo_name;
use crate::strutil::str_is_fifo_name;

verus! {

/// What the retention sweep does with aged rows.
#[derive(Debug, Clone, Copy, PartialEq, Eq, Structural)]
pub enum RetentionMode {
    /// Keep every row; only flip expired `processing` leases back to
    /// `active`.
    KeepForever,
    /// Physically delete rows older than the configured age.
    Delete,
}

#[derive(Debug, Clone)]
pub enum ConfigError {
    Io(String),
    Parse(String),
    Validation(String),
}

#[derive(Debug, Clone)]
pub struct ServerConfig {
    pub port: u16,
    pub host: String,
    pub enable_ui: bool,
    pub base_url: Option<String>,
    pub max_connections: usize,
}

#[derive(Debug, Clone)]
pub struct DatabaseConfig {
    pub path: String,
    pub connection_pool_size: usize,
    pub busy_timeout_ms: u32,
}

#[derive(Debug, Clone)]
pub struct QueueDefaults {
    pub visibility_timeout_seconds: u32,
    pub message_retention_seconds: u32,
    pub max_receive_count: u32,
    pub receive_message_wait_time_seconds: u32,
    pub fifo_throughput_limit: u32,
}

#[derive(Debug, Clone)]
pub struct MetricsConfig {
    pub enabled: bool,
    pub endpoint: String,
    pub collection_interval_seconds: u32,
}

#[derive(Debug, Clone)]
pub struct RetentionConfig {
    pub cleanup_interval_seconds: u32,
    pub batch_size: u32,
    pub mode: RetentionMode,
    pub delete_after_days: Option<u32>,
}

#[derive(Debug, Clone)]
pub struct Config {
    pub server: ServerConfig,
    pub database: DatabaseConfig,
    pub queues: QueueDefaults,
    pub metrics: MetricsConfig,
    pub retention: RetentionConfig,
}

impl Config {
    /// The rules `validate` enforces.
    pub open spec fn valid(self) -> bool {
        &&& self.server.port != 0
        &&& self.server.host@.len() > 0
        &&& self.database.path@.len() > 0
        &&& self.queues.visibility_timeout_seconds > 0
        &&& self.queues.message_retention_seconds >= 60
        &&& self.queues.message_retention_seconds <= 1209600
        &&& self.queues.max_receive_count > 0
    }

    pub fn validate(&self) -> (r: Result<(), ConfigError>)
        ensures
            r matches Ok(_) <==> self.valid(),
            r matches Err(e) ==> e matches ConfigError::Validation(_),
    {
        if self.server.port == 0 {
            return Err(ConfigError::Validation("Server port cannot be 0".to_owned()));
        }
        if self.server.host.as_str().unicode_len() == 0 {
            return Err(ConfigError::Validation("Server host cannot be empty".to_owned()));
        }
        if self.database.path.as_str().unicode_len() == 0 {
            return Err(ConfigError::Validation("Database path cannot be empty".to_owned()));
        }
        if self.queues.visibility_timeout_seconds == 0 {
            return Err(ConfigError::Validation("Visibility timeout must be > 0".to_owned()));
        }
        if self.queues.message_retention_seconds < 60 {
            return Err(
                ConfigError::Validation("Message retention must be >= 60 seconds".to_owned()),
            );
        }
        if self.queues.message_retention_seconds > 1209600 {
            return Err(
                ConfigError::Validation("Message retention cannot exceed 14 days".to_owned()),
            );
        }
        if self.queues.max_receive_count == 0 {
            return Err(ConfigError::Validation("Max receive count must be > 0".to_owned()));
        }
        Ok(())
    }

    /// Replaces each field for which an override was supplied; every other
    /// field keeps its value. The caller gathers the overrides (from the
    /// environment or the command line) and hands them in as plain values.
    pub fn apply_overrides(
        &mut self,
        port: Option<u16>,
        host: Option<String>,
        db_path: Option<String>,
        enable_ui: Option<bool>,
        base_url: Option<String>,
        metrics_enabled: Option<bool>,
    )
        ensures
            final(self).server.port == (match port { Some(p) => p, None => old(self).server.port }),
            final(self).server.host == (match host { Some(h) => h, None => old(self).server.host }),
            final(self).database.path == (match db_path {
                Some(p) => p,
                None => old(self).database.path,
            }),
            final(self).server.enable_ui == (match enable_ui {
                Some(b) => b,
                None => old(self).server.enable_ui,
            }),
            final(self).server.base_url == (match base_url {
                Some(u) => Some(u),
                None => old(self).server.base_url,
            }),
            final(self).metrics.enabled == (match metrics_enabled {
                Some(b) => b,
                None => old(self).metrics.enabled,
            }),
            final(self).server.max_connections == old(self).server.max_connections,
            final(self).database.connection_pool_size == old(self).database.connection_pool_size,
            final(self).database.busy_timeout_ms == old(self).database.busy_timeout_ms,
            final(self).queues == old(self).queues,
            final(self).metrics.endpoint == old(self).metrics.endpoint,
            final(self).metrics.collection_interval_seconds == old(
                self,
            ).metrics.collection_interval_seconds,
            final(self).retention == old(self).retention,
    {
        if let Some(p) = port {
            self.server.port = p;
        }
        if let Some(h) = host {
            self.server.host = h;
        }
        if let Some(p) = db_path {
            self.database.path = p;
        }
        if let Some(b) = enable_ui {
            self.server.enable_ui = b;
        }
        if let Some(u) = base_url {
            self.server.base_url = Some(u);
        }
        if let Some(b) = metrics_enabled {
            self.metrics.enabled = b;
        }
    }
}

impl Default for Config {
    /// The broker's defaults: port 3000, store file `qlite.db`, 30 s
    /// visibility, 14 day retention, hourly keep-forever cleanup.
    fn default() -> (r: Self)
        ensures
            r.server.port == 3000,
            r.server.host@ == "0.0.0.0"@,
            r.server.enable_ui == false,
            r.server.base_url matches None,
            r.server.max_connections == 1000,
            r.database.path@ == "qlite.db"@,
            r.database.connection_pool_size == 10,
            r.database.busy_timeout_ms == 5000,
            r.queues.visibility_timeout_seconds == 30,
            r.queues.message_retention_seconds == 1209600,
            r.queues.max_receive_count == 10,
            r.queues.receive_message_wait_time_seconds == 0,
            r.queues.fifo_throughput_limit == 300,
            r.metrics.enabled == true,
            r.metrics.endpoint@ == "/metrics"@,
            r.metrics.collection_interval_seconds == 60,
            r.retention.cleanup_interval_seconds == 3600,
            r.retention.batch_size == 1000,
            r.retention.mode == RetentionMode::KeepForever,
            r.retention.delete_after_days == Some(14u32),
            r.valid(),
    {
        proof {
            reveal_strlit("0.0.0.0");
            reveal_strlit("qlite.db");
        }
        Config {
            server: ServerConfig {
                port: 3000,
                host: "0.0.0.0".to_owned(),
                enable_ui: false,
                base_url: None,
                max_connections: 1000,
            },
            database: DatabaseConfig {
                path: "qlite.db".to_owned(),
                connection_pool_size: 10,
                busy_timeout_ms: 5000,
            },
            queues: QueueDefaults {
                visibility_timeout_seconds: 30,
                message_retention_seconds: 1209600,
                max_receive_count: 10,
                receive_message_wait_time_seconds: 0,
                fifo_throughput_limit: 300,
            },
            metrics: MetricsConfig {
                enabled: true,
                endpoint: "/metrics".to_owned(),
                collection_interval_seconds: 60,
            },
            retention: RetentionConfig {
                cleanup_interval_seconds: 3600,
                batch_size: 1000,
                mode: RetentionMode::KeepForever,
                delete_after_days: Some(14),
            },
        }
    }
}

/// Per-queue configuration: FIFO flag, dedup mode, visibility and retention
/// windows, dead-letter routing and delivery delays.
#[derive(Debug, Clone)]
pub struct QueueConfig {
    pub name: String,
    pub is_fifo: bool,
    pub content_based_deduplication: bool,
    pub visibility_timeout_seconds: u32,
    pub message_retention_period_seconds: u32,
    pub max_receive_count: Option<u32>,
    pub dead_letter_target_arn: Option<String>,
    pub delay_seconds: u32,
    pub receive_message_wait_time_seconds: u32,
}

impl Default for QueueConfig {
    /// A standard queue with the broker's queue defaults and an empty name.
    fn default() -> (r: Self)
        ensures
            r.name@.len() == 0,
            r.is_fifo == false,
            r.content_based_deduplication == false,
            r.visibility_timeout_seconds == 30,
            r.message_retention_period_seconds == 1209600,
            r.max_receive_count == Some(10u32),
            r.dead_letter_target_arn matches None,
            r.delay_seconds == 0,
            r.receive_message_wait_time_seconds == 0,
    {
        QueueConfig {
            name: String::new(),
            is_fifo: false,
            content_based_deduplication: false,
            visibility_timeout_seconds: 30,
            message_retention_period_seconds: 1209600,
            max_receive_count: Some(10),
            dead_letter_target_arn: None,
            delay_seconds: 0,
            receive_message_wait_time_seconds: 0,
        }
    }
}

impl QueueConfig {
    /// A configuration for the named queue; FIFO queues start with
    /// content-based deduplication on.
    pub fn new(name: String, is_fifo: bool) -> (r: Self)
        ensures
            r.name == name,
            r.is_fifo == is_fifo,
            r.content_based_deduplication == is_fifo,
            r.visibility_timeout_seconds == 30,
            r.message_retention_period_seconds == 1209600,
            r.max_receive_count == Some(10u32),
            r.dead_letter_target_arn matches None,
            r.delay_seconds == 0,
            r.receive_message_wait_time_seconds == 0,
    {
        let mut c = Self::default();
        c.name = name;
        c.is_fifo = is_fifo;
        c.content_based_deduplication = is_fifo;
        c
    }

    /// The rules `validate` enforces: the name is non-empty and agrees with
    /// the FIFO flag, windows are in range, and a configured receive limit is
    /// positive.
    pub open spec fn valid(self) -> bool {
        &&& self.name@.len() > 0
        &&& self.is_fifo == is_fifo_name(self.name@)
        &&& self.visibility_timeout_seconds > 0
        &&& self.message_retention_period_seconds >= 60
        &&& self.message_retention_period_seconds <= 1209600
        &&& !(self.max_receive_count matches Some(m) && m == 0)
    }

    pub fn validate(&self) -> (r: Result<(), ConfigError>)
        ensures
            r matches Ok(_) <==> self.valid(),
            r matches Err(e) ==> e matches ConfigError::Validation(_),
    {
        if self.name.as_str().unicode_len() == 0 {
            return Err(ConfigError::Validation("Queue name cannot be empty".to_owned()));
        }
        let fifo_suffix = str_is_fifo_name(self.name.as_str());
        if self.is_fifo {
            if !fifo_suffix {
                return Err(
                    ConfigError::Validation("FIFO queue names must end with .fifo".to_owned()),
                );
            }
        } else if fifo_suffix {
            return Err(
                ConfigError::Validation("Standard queue names cannot end with .fifo".to_owned()),
            );
        }
        if self.visibility_timeout_seconds == 0 {
            return Err(ConfigError::Validation("Visibility timeout must be > 0".to_owned()));
        }
        if self.message_retention_period_seconds < 60 {
            return Err(
                ConfigError::Validation("Message retention must be >= 60 seconds".to_owned()),
            );
        }
        if self.message_retention_period_seconds > 1209600 {
            return Err(
                ConfigError::Validation("Message retention cannot exceed 14 days".to_owned()),
            );
        }
        if let Some(max_count) = self.max_receive_count {
            if max_count == 0 {
                return Err(ConfigError::Validation("Max receive count must be > 0".to_owned()));
            }
        }
        Ok(())
    }
}

} // verus!

verus! {

impl QueueConfig {
    /// A copy of the configuration, equal to the original.
    pub fn duplicate(&self) -> (r: Self)
        ensures
            r == *self,
    {
        QueueConfig {
            name: self.name.clone(),
            is_fifo: self.is_fifo,
            content_based_deduplication: self.content_based_deduplication,
            visibility_timeout_seconds: self.visibility_timeout_seconds,
            message_retention_period_seconds: self.message_retention_period_seconds,
            max_receive_count: self.max_receive_count,
            dead_letter_target_arn: crate::strutil::clone_opt_string(&self.dead_letter_target_arn),
            delay_seconds: self.delay_seconds,
            receive_message_wait_time_seconds: self.receive_message_wait_time_seconds,
        }
    }
}

} // verus!
