//! Service configuration.  Reading the process environment happens outside
//! this crate; the defaulting and parsing decisions live here.

use vstd::prelude::*;
use vstd::string::StringExecFns;
use vstd::arithmetic::power2::pow2;
use crate::strutil::{parse_u64_dec, spec_parse_u64};

verus! {

#[derive(Clone, Debug)]
pub struct ServerConfig {
    pub host: String,
    pub port: u16,
    pub workers: Option<usize>,
    pub max_connections: usize,
    pub timeout_seconds: u64,
}

#[derive(Clone, Debug)]
pub struct DatabaseConfig {
    pub url: String,
    pub max_connections: u32,
    pub min_connections: u32,
    pub acquire_timeout_seconds: u64,
    pub idle_timeout_seconds: u64,
}

#[derive(Clone, Debug)]
pub struct RedisConfig {
    pub url: String,
    pub pool_size: usize,
    pub timeout_seconds: u64,
    pub ttl_seconds: u64,
}

#[derive(Clone, Debug)]
pub struct S3Config {
    pub bucket: String,
    pub region: String,
    pub endpoint: Option<String>,
}

#[derive(Clone, Debug)]
pub struct StorageConfig {
    pub base_path: String,
    pub temp_path: String,
    pub cdn_base_url: Option<String>,
}

#[derive(Clone, Debug)]
pub struct MetricsConfig {
    pub enabled: bool,
    pub endpoint: String,
}

#[derive(Clone, Copy, Debug, PartialEq, Eq, Structural)]
pub struct CacheHeaders {
    pub max_age: u32,
    pub stale_while_revalidate: u32,
}

/// Tile-pipeline settings shared by the generators.
#[derive(Clone, Debug)]
pub struct TileConfig {
    pub tile_size: u32,
    pub max_zoom: u8,
    pub min_zoom: u8,
    pub cache_ttl: u64,
    pub quality: u8,
    pub enable_webp: bool,
    pub cache_headers: CacheHeaders,
}

impl TileConfig {
    /// A usable pipeline configuration: a positive tile size that still
    /// yields a 32-bit image side at the deepest zoom, a JPEG-scale
    /// quality, and an ordered zoom range.
    pub open spec fn wf(self) -> bool {
        &&& self.tile_size >= 1
        &&& 1 <= self.quality <= 100
        &&& self.min_zoom <= self.max_zoom
        &&& self.max_zoom <= 20
        &&& pow2(self.max_zoom as nat) * self.tile_size <= u32::MAX
    }
}

#[derive(Clone, Debug)]
pub struct Config {
    pub server: ServerConfig,
    pub redis: RedisConfig,
    pub s3: S3Config,
    pub tile: TileConfig,
}

/// The port named by an environment string: a plain decimal that fits a
/// 16-bit port, else the default 8080.
pub open spec fn spec_port_of(s: Option<Seq<char>>) -> u16 {
    match s {
        Some(t) => match spec_parse_u64(t) {
            Some(v) => if v <= u16::MAX {
                v as u16
            } else {
                8080
            },
            None => 8080,
        },
        None => 8080,
    }
}

impl Config {
    /// Builds the configuration from whatever environment values are
    /// present, filling documented defaults for the rest.  The tile
    /// pipeline settings are fixed: 256-pixel tiles, zooms 0 to 20, an
    /// hour of cache lifetime, and quality 85.
    pub fn from_env_values(
        host: Option<String>,
        port: Option<String>,
        redis_url: Option<String>,
        bucket: Option<String>,
        region: Option<String>,
        endpoint: Option<String>,
    ) -> (r: Config)
        ensures
            r.server.host@ == (match host {
                Some(h) => h@,
                None => "0.0.0.0"@,
            }),
            r.server.port == spec_port_of(match port {
                Some(p) => Some(p@),
                None => None,
            }),
            r.redis.url@ == (match redis_url {
                Some(u) => u@,
                None => "redis://127.0.0.1/"@,
            }),
            r.s3.bucket@ == (match bucket {
                Some(b) => b@,
                None => "map-tiles"@,
            }),
            r.s3.region@ == (match region {
                Some(g) => g@,
                None => "us-west-1"@,
            }),
            r.s3.endpoint == endpoint,
            r.tile.tile_size == 256 && r.tile.max_zoom == 20 && r.tile.min_zoom == 0
                && r.tile.cache_ttl == 3600 && r.tile.quality == 85 && r.tile.enable_webp,
    {
        let port_num: u16 = match &port {
            Some(p) => match parse_u64_dec(p.as_str()) {
                Some(v) => if v <= 65535 {
                    v as u16
                } else {
                    8080
                },
                None => 8080,
            },
            None => 8080,
        };
        Config {
            server: ServerConfig {
                host: match host {
                    Some(h) => h,
                    None => String::from_str("0.0.0.0"),
                },
                port: port_num,
                workers: None,
                max_connections: 25000,
                timeout_seconds: 60,
            },
            redis: RedisConfig {
                url: match redis_url {
                    Some(u) => u,
                    None => String::from_str("redis://127.0.0.1/"),
                },
                pool_size: 16,
                timeout_seconds: 5,
                ttl_seconds: 3600,
            },
            s3: S3Config {
                bucket: match bucket {
                    Some(b) => b,
                    None => String::from_str("map-tiles"),
                },
                region: match region {
                    Some(g) => g,
                    None => String::from_str("us-west-1"),
                },
                endpoint,
            },
            tile: TileConfig {
                tile_size: 256,
                max_zoom: 20,
                min_zoom: 0,
                cache_ttl: 3600,
                quality: 85,
                enable_webp: true,
                cache_headers: CacheHeaders { max_age: 86400, stale_while_revalidate: 60 },
            },
        }
    }
}

} // verus!
