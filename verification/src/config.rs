//! The configuration of an offload and of its cloud mirror.

use crate::paths::{join_path, path_join};
use crate::text::{opt_view, or_text};
use vstd::prelude::*;

verus! {

/// How the destination folder is laid out.
#[derive(Debug, Clone, Copy, PartialEq, Eq, Structural)]
pub enum Layout {
    /// Every file directly below the destination root.
    Flat,
}

/// Which cloud backend a destination is on.
#[derive(Debug, Clone, Copy, PartialEq, Eq, Structural)]
pub enum CloudKind {
    Nextcloud,
}

/// When the cloud mirror runs.
#[derive(Debug, Clone, Copy, PartialEq, Eq, Structural)]
pub enum MirrorMode {
    /// Never.
    Off,
    /// After every offload.
    Auto,
    /// Jobs are queued, and uploaded on demand.
    Manual,
}

impl MirrorMode {
    /// True of the modes in which a copied file is queued for upload.
    pub open spec fn queues(self) -> bool {
        self == MirrorMode::Auto || self == MirrorMode::Manual
    }

    /// True of the modes in which a copied file is queued for upload.
    pub fn is_queueing(self) -> (r: bool)
        ensures
            r == self.queues(),
    {
        match self {
            MirrorMode::Auto | MirrorMode::Manual => true,
            MirrorMode::Off => false,
        }
    }
}

/// The mirror mode of a destination that names none.
pub fn default_mirror_mode() -> (r: MirrorMode)
    ensures
        r == MirrorMode::Off,
{
    MirrorMode::Off
}

/// The size from which a file is uploaded in chunks, where none is named: 50 MiB.
pub fn default_chunk_threshold() -> (r: u64)
    ensures
        r == 52_428_800,
{
    50 * 1024 * 1024
}

/// The number of concurrent uploads, where none is named.
pub fn default_max_concurrency() -> (r: usize)
    ensures
        r == 2,
{
    2
}

/// The number of attempts at an upload, where none is named.
pub fn default_max_attempts() -> (r: u32)
    ensures
        r == 8,
{
    8
}

/// The value of a switch that is on where it is not named.
pub fn default_true() -> (r: bool)
    ensures
        r,
{
    true
}

/// A cloud destination, the `[cloud]` table of `gpbeam.toml`.
#[derive(Debug, PartialEq, Eq)]
pub struct CloudConfig<S = String> {
    pub kind: CloudKind,
    pub destination_id: S,
    pub base_url: S,
    pub username: S,
    pub remote_root: S,
    pub mirror_mode: MirrorMode,
    pub chunk_threshold: u64,
    pub tls_ca_pem: Option<S>,
    pub max_concurrency: usize,
    pub max_attempts: u32,
}

impl View for CloudConfig<String> {
    type V = CloudConfig<Seq<char>>;

    open spec fn view(&self) -> CloudConfig<Seq<char>> {
        CloudConfig {
            kind: self.kind,
            destination_id: self.destination_id@,
            base_url: self.base_url@,
            username: self.username@,
            remote_root: self.remote_root@,
            mirror_mode: self.mirror_mode,
            chunk_threshold: self.chunk_threshold,
            tls_ca_pem: opt_view(self.tls_ca_pem),
            max_concurrency: self.max_concurrency,
            max_attempts: self.max_attempts,
        }
    }
}

impl Clone for CloudConfig<String> {
    fn clone(&self) -> (r: Self)
        ensures
            r@ == self@,
    {
        CloudConfig {
            kind: self.kind,
            destination_id: self.destination_id.clone(),
            base_url: self.base_url.clone(),
            username: self.username.clone(),
            remote_root: self.remote_root.clone(),
            mirror_mode: self.mirror_mode,
            chunk_threshold: self.chunk_threshold,
            tls_ca_pem: clone_opt(&self.tls_ca_pem),
            max_concurrency: self.max_concurrency,
            max_attempts: self.max_attempts,
        }
    }
}

/// A copy of an optional string.
pub fn clone_opt(o: &Option<String>) -> (r: Option<String>)
    ensures
        opt_view(r) == opt_view(*o),
{
    match o {
        Some(s) => Some(s.clone()),
        None => None,
    }
}

/// The whole configuration, `gpbeam.toml`.
#[derive(Debug, PartialEq, Eq)]
pub struct Config<S = String> {
    pub dest_root: S,
    pub filename_template: S,
    pub include_proxies: bool,
    pub include_thumbnails: bool,
    pub layout: Layout,
    pub verify: bool,
    pub space_headroom: u64,
    pub cloud: Option<CloudConfig<S>>,
    pub delete_after_verify: bool,
    pub auto_eject: bool,
    /// Offload a USB-connected GoPro over its HTTP API.
    pub wired_ingest: bool,
}

/// The view of an optional cloud destination.
pub open spec fn cloud_view(c: Option<CloudConfig>) -> Option<CloudConfig<Seq<char>>> {
    match c {
        Some(c) => Some(c@),
        None => None,
    }
}

/// The mirror mode of an optional cloud destination; none is `Off`.
pub open spec fn mirror_of(c: Option<CloudConfig<Seq<char>>>) -> MirrorMode {
    match c {
        Some(c) => c.mirror_mode,
        None => MirrorMode::Off,
    }
}

impl View for Config<String> {
    type V = Config<Seq<char>>;

    open spec fn view(&self) -> Config<Seq<char>> {
        Config {
            dest_root: self.dest_root@,
            filename_template: self.filename_template@,
            include_proxies: self.include_proxies,
            include_thumbnails: self.include_thumbnails,
            layout: self.layout,
            verify: self.verify,
            space_headroom: self.space_headroom,
            cloud: cloud_view(self.cloud),
            delete_after_verify: self.delete_after_verify,
            auto_eject: self.auto_eject,
            wired_ingest: self.wired_ingest,
        }
    }
}

/// A copy of an optional cloud destination.
pub fn clone_cloud(c: &Option<CloudConfig>) -> (r: Option<CloudConfig>)
    ensures
        cloud_view(r) == cloud_view(*c),
{
    match c {
        Some(c) => Some(c.clone()),
        None => None,
    }
}

impl Clone for Config<String> {
    fn clone(&self) -> (r: Self)
        ensures
            r@ == self@,
    {
        Config {
            dest_root: self.dest_root.clone(),
            filename_template: self.filename_template.clone(),
            include_proxies: self.include_proxies,
            include_thumbnails: self.include_thumbnails,
            layout: self.layout,
            verify: self.verify,
            space_headroom: self.space_headroom,
            cloud: clone_cloud(&self.cloud),
            delete_after_verify: self.delete_after_verify,
            auto_eject: self.auto_eject,
            wired_ingest: self.wired_ingest,
        }
    }
}

/// The configuration of an installation without a `gpbeam.toml`, offloading
/// into `dest_root`.
pub open spec fn default_config(dest_root: Seq<char>) -> Config<Seq<char>> {
    Config {
        dest_root,
        filename_template: "{date}_{original}"@,
        include_proxies: false,
        include_thumbnails: false,
        layout: Layout::Flat,
        verify: true,
        space_headroom: 1_073_741_824,
        cloud: None,
        delete_after_verify: false,
        auto_eject: false,
        wired_ingest: true,
    }
}

impl Config<String> {
    /// The defaults, rooted at `dest_root`.
    pub fn new(dest_root: String) -> (r: Self)
        ensures
            r@ == default_config(dest_root@),
    {
        Config {
            dest_root,
            filename_template: "{date}_{original}".to_owned(),
            include_proxies: false,
            include_thumbnails: false,
            layout: Layout::Flat,
            verify: true,
            space_headroom: 1024 * 1024 * 1024,
            cloud: None,
            delete_after_verify: false,
            auto_eject: false,
            wired_ingest: true,
        }
    }

    /// The mirror mode of the configured cloud, `Off` without one.
    pub fn mirror(&self) -> (r: MirrorMode)
        ensures
            r == mirror_of(self@.cloud),
    {
        match &self.cloud {
            Some(c) => c.mirror_mode,
            None => MirrorMode::Off,
        }
    }
}

/// Which `gpbeam.toml` is meant by the value `env` of the configuration variable
/// and the destination root: `env` itself unless it is missing or empty.
pub open spec fn config_path_of(env: Option<Seq<char>>, dest_root: Seq<char>) -> Seq<char> {
    if or_text(env, seq![]).len() > 0 {
        env->0
    } else {
        path_join(dest_root, "gpbeam.toml"@)
    }
}

/// Resolves which `gpbeam.toml` to load.
pub fn config_path(env: Option<String>, dest_root: &str) -> (r: String)
    ensures
        r@ == config_path_of(opt_view(env), dest_root@),
{
    match env {
        Some(p) => {
            if p.as_str().is_empty() {
                join_path(dest_root, "gpbeam.toml")
            } else {
                p
            }
        },
        None => join_path(dest_root, "gpbeam.toml"),
    }
}

} // verus!
