//! What the upload loop of the application goes by.

use crate::config::{clone_cloud, cloud_view, CloudConfig, Config, MirrorMode};
use crate::text::{opt_view, same_text};
use vstd::prelude::*;

verus! {

/// How often the upload loop looks for work, in seconds.
pub const CLOUD_TICK_SECS: u64 = 5;

/// The settings that the upload loop reads anew each time. Without a destination
/// it idles.
#[derive(Debug)]
pub struct CloudRuntime<S = String> {
    pub config: Option<CloudConfig<S>>,
    pub delete_after_verify: bool,
}

impl View for CloudRuntime<String> {
    type V = CloudRuntime<Seq<char>>;

    open spec fn view(&self) -> CloudRuntime<Seq<char>> {
        CloudRuntime {
            config: cloud_view(self.config),
            delete_after_verify: self.delete_after_verify,
        }
    }
}

impl Clone for CloudRuntime<String> {
    fn clone(&self) -> (r: Self)
        ensures
            r@ == self@,
    {
        CloudRuntime {
            config: clone_cloud(&self.config),
            delete_after_verify: self.delete_after_verify,
        }
    }
}

impl Default for CloudRuntime<String> {
    fn default() -> (r: Self)
        ensures
            r.config is None,
            !r.delete_after_verify,
    {
        CloudRuntime { config: None, delete_after_verify: false }
    }
}

/// The settings that a configuration asks for.
pub open spec fn runtime_of(cfg: Config<Seq<char>>) -> CloudRuntime<Seq<char>> {
    CloudRuntime { config: cfg.cloud, delete_after_verify: cfg.delete_after_verify }
}

impl CloudRuntime<String> {
    /// The settings that a configuration asks for.
    pub fn from_config(cfg: &Config) -> (r: Self)
        ensures
            r@ == runtime_of(cfg@),
    {
        CloudRuntime {
            config: clone_cloud(&cfg.cloud),
            delete_after_verify: cfg.delete_after_verify,
        }
    }
}

impl CloudRuntime<Seq<char>> {
    /// True if there is a destination that files are mirrored to.
    pub open spec fn mirrors(self) -> bool {
        self.config matches Some(c) && c.mirror_mode != MirrorMode::Off
    }
}

/// True if the upload loop works at all: it is not paused, and there is a
/// destination that files are mirrored to.
pub fn should_drain(paused: bool, runtime: &CloudRuntime) -> (r: bool)
    ensures
        r == (!paused && runtime@.mirrors()),
{
    if paused {
        return false;
    }
    match &runtime.config {
        Some(c) => c.mirror_mode != MirrorMode::Off,
        None => false,
    }
}

/// True if the upload loop sets up an uploader and drains the queue now. `pending`
/// is how many jobs the ledger holds; where that is not known there may be some.
pub fn should_start_drain(paused: bool, runtime: &CloudRuntime, pending: Option<usize>) -> (r:
    bool)
    ensures
        r == (!paused && runtime@.mirrors() && pending != Some(0usize)),
{
    should_drain(paused, runtime) && match pending {
        Some(n) => n > 0,
        None => true,
    }
}

/// True if an error in setting up the uploader is shown: once for as long as it
/// stays the same. `last` is the one that was shown last.
pub fn should_surface_build_error(last: &mut Option<String>, message: &str) -> (r: bool)
    ensures
        r == (opt_view(*old(last)) != Some(message@)),
        opt_view(*final(last)) == Some(message@),
{
    let shown = match &*last {
        Some(m) => same_text(m.as_str(), message),
        None => false,
    };
    if shown {
        false
    } else {
        *last = Some(message.to_owned());
        true
    }
}

// ---- the clock --------------------------------------------------------------

/// The time as a signed number of seconds: a clock before the epoch counts as the
/// epoch, and a number that is too large wraps around.
pub open spec fn signed_seconds(since_epoch: Option<u64>) -> i64 {
    match since_epoch {
        None => 0,
        Some(s) => if s <= i64::MAX {
            s as i64
        } else {
            (s - 0x1_0000_0000_0000_0000) as i64
        },
    }
}

/// The time as a signed number of seconds.
pub fn to_signed_seconds(since_epoch: Option<u64>) -> (r: i64)
    ensures
        r == signed_seconds(since_epoch),
{
    match since_epoch {
        None => 0,
        Some(s) => if s <= i64::MAX as u64 {
            s as i64
        } else {
            (s as i128 - 0x1_0000_0000_0000_0000i128) as i64
        },
    }
}

/// `std::time::SystemTime::now` as whole seconds since the Unix epoch, or `None` if
/// the clock stands before it. Nothing is claimed of the time.
#[verifier::external_body]
fn system_seconds() -> (r: Option<u64>)
{
    std::time::SystemTime::now()
        .duration_since(std::time::UNIX_EPOCH)
        .ok()
        .map(|d| d.as_secs())
}

/// True of seconds since the Unix epoch that the clock of the machine gave: they are what
/// `system_seconds` returned. Nothing else makes this true, so a time that was not read off
/// the clock is none.
pub closed spec fn clock_read(since_epoch: Option<u64>) -> bool {
    call_ensures(system_seconds, (), since_epoch)
}

/// A time that was read off the clock is one that `system_seconds` returned.
proof fn a_time_that_was_read_was_returned(since_epoch: Option<u64>)
    requires
        clock_read(since_epoch),
    ensures
        call_ensures(system_seconds, (), since_epoch),
{
}

/// Reads a clock.
fn read_clock<C: Fn() -> Option<u64>>(clock: C) -> (r: Option<u64>)
    requires
        call_requires(clock, ()),
    ensures
        call_ensures(clock, (), r),
{
    clock()
}

/// The time now, in seconds since the Unix epoch, as the clock of the machine gives it.
pub fn now_unix() -> (r: i64)
    ensures
        exists|since_epoch: Option<u64>|
            clock_read(since_epoch) && r == #[trigger] signed_seconds(since_epoch),
{
    let now = read_clock(system_seconds);
    assert(clock_read(now));
    to_signed_seconds(now)
}

// ---- laws -------------------------------------------------------------------

/// The loop mirrors exactly if the configuration has a destination whose mode is
/// not off.
pub proof fn the_configuration_decides(cfg: Config<Seq<char>>)
    ensures
        cfg.cloud is None ==> !runtime_of(cfg).mirrors(),
        cfg.cloud matches Some(c) ==> (runtime_of(cfg).mirrors() <==> c.mirror_mode
            != MirrorMode::Off),
{
}

/// A clock that stands between the epoch and the largest signed number of seconds
/// is read as it is.
pub proof fn an_ordinary_clock_is_read_as_it_is(seconds: u64)
    requires
        seconds <= i64::MAX,
    ensures
        signed_seconds(Some(seconds)) == seconds,
        signed_seconds(Some(seconds)) >= signed_seconds(None),
{
}

} // verus!
