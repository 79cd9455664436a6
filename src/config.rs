//! The back end's settings and the layout of its cache directory.
use vstd::prelude::*;

use crate::text::{chars_of, decimal, decimal_chars, string_of};

verus! {

/// The back end's settings.
#[derive(Debug, Clone)]
pub struct BackendConfig {
    pub host: String,
    pub port: u16,
    pub log_level: String,
    /// Host of the media server whose `/health` must answer before an
    /// image is returned; none means no media server.
    pub media_server_url: Option<String>,
}

pub fn default_host() -> (r: String)
    ensures
        r@ == "127.0.0.1"@,
{
    String::from_str("127.0.0.1")
}

pub fn default_port() -> (r: u16)
    ensures
        r == 50051,
{
    50051
}

pub fn default_log_level() -> (r: String)
    ensures
        r@ == "info"@,
{
    String::from_str("info")
}

pub fn default_media_server_url() -> (r: Option<String>)
    ensures
        r is None,
{
    None
}

fn append(buf: &mut Vec<char>, v: &[char])
    ensures
        final(buf)@ == old(buf)@ + v@,
{
    let ghost start = buf@;
    let mut i: usize = 0;
    while i < v.len()
        invariant
            i <= v@.len(),
            buf@ == start + v@.subrange(0, i as int),
        decreases v.len() - i,
    {
        buf.push(v[i]);
        i = i + 1;
        assert(buf@ =~= start + v@.subrange(0, i as int));
    }
    assert(v@.subrange(0, v@.len() as int) =~= v@);
}

impl BackendConfig {
    /// The settings used where the file gives none.
    pub fn defaults() -> (r: BackendConfig)
        ensures
            r.host@ == "127.0.0.1"@,
            r.port == 50051,
            r.log_level@ == "info"@,
            r.media_server_url is None,
    {
        BackendConfig {
            host: default_host(),
            port: default_port(),
            log_level: default_log_level(),
            media_server_url: default_media_server_url(),
        }
    }

    /// `host:port`.
    pub fn server_address(&self) -> (r: String)
        ensures
            r@ == self.host@ + seq![':'] + decimal(self.port as nat),
    {
        let mut buf = chars_of(self.host.as_str());
        buf.push(':');
        let p = decimal_chars(self.port as u64);
        append(&mut buf, &p);
        string_of(&buf)
    }

    /// The health URL of the media server, where one is set.
    pub fn media_health_url(&self) -> (r: Option<String>)
        ensures
            match &self.media_server_url {
                Some(h) => r matches Some(u) && u@ == "https://"@ + h@ + "/health"@,
                None => r is None,
            },
    {
        match &self.media_server_url {
            Some(h) => {
                let mut buf = chars_of("https://");
                let hv = chars_of(h.as_str());
                append(&mut buf, &hv);
                let tail = chars_of("/health");
                append(&mut buf, &tail);
                Some(string_of(&buf))
            },
            None => None,
        }
    }
}

/// `dir` joined with a relative `name`, as `Path::join` does on Unix.
pub open spec fn joined_path(dir: Seq<char>, name: Seq<char>) -> Seq<char> {
    if dir.len() == 0 {
        name
    } else if dir.last() == '/' {
        dir + name
    } else {
        dir + seq!['/'] + name
    }
}

/// A relative `name` inside directory `dir`.
pub fn join_path(dir: &str, name: &str) -> (r: String)
    ensures
        r@ == joined_path(dir@, name@),
{
    let mut buf = chars_of(dir);
    let n = chars_of(name);
    if buf.len() > 0 && buf[buf.len() - 1] != '/' {
        buf.push('/');
    }
    append(&mut buf, &n);
    string_of(&buf)
}

/// The directory of rendered images inside the cache directory.
pub fn get_images_dir(cache_dir: &str) -> (r: String)
    ensures
        r@ == joined_path(cache_dir@, "image_cache"@),
{
    join_path(cache_dir, "image_cache")
}

/// The file that holds the persisted entry map.
pub fn amsat_cache_path(cache_dir: &str) -> (r: String)
    ensures
        r@ == joined_path(cache_dir@, "satellite_cache/amsat_cache.json"@),
{
    join_path(cache_dir, "satellite_cache/amsat_cache.json")
}

/// The file that holds the readable metadata snapshot.
pub fn metadata_snapshot_path(cache_dir: &str) -> (r: String)
    ensures
        r@ == joined_path(cache_dir@, "satellite_cache/metadata_snapshot.json"@),
{
    join_path(cache_dir, "satellite_cache/metadata_snapshot.json")
}

/// The downloaded frequency CSV.
pub fn frequency_csv_path(cache_dir: &str) -> (r: String)
    ensures
        r@ == joined_path(cache_dir@, "satellite_cache/amsat-active-frequencies.csv"@),
{
    join_path(cache_dir, "satellite_cache/amsat-active-frequencies.csv")
}

/// Settings of the periodic workers.
#[derive(Debug, Clone)]
pub struct ScheduledTaskConfig {
    pub satellite_update_interval_minutes: u64,
    pub image_cleanup_interval_hours: u64,
    /// How many days rendered images are kept.
    pub image_retention_days: u32,
    pub cache_dir: String,
    /// Run the AMSAT update at start instead of waiting for its first slot.
    pub perform_initial_update: bool,
}

impl ScheduledTaskConfig {
    pub fn defaults() -> (r: ScheduledTaskConfig)
        ensures
            r.satellite_update_interval_minutes == 10,
            r.image_cleanup_interval_hours == 24,
            r.image_retention_days == 7,
            r.cache_dir@ == "data/satellite_cache"@,
            r.perform_initial_update,
    {
        ScheduledTaskConfig {
            satellite_update_interval_minutes: 10,
            image_cleanup_interval_hours: 24,
            image_retention_days: 7,
            cache_dir: String::from_str("data/satellite_cache"),
            perform_initial_update: true,
        }
    }
}

/// A file of the image cache that the clean-up removes: a `.png` last
/// modified before `now` less the retention.
pub open spec fn expired(name: Seq<char>, modified: int, now: int, retention_days: int) -> bool {
    name.len() >= 4 && name.subrange(name.len() - 4, name.len() as int) == ".png"@ && modified < now
        - retention_days * 86400
}

/// The files of the image cache (name and modification time, Unix
/// seconds) that the clean-up at `now` removes, in order.
pub fn expired_images(files: &Vec<(String, i64)>, now: i64, retention_days: u32) -> (r: Vec<usize>)
    requires
        now >= i64::MIN + u32::MAX as int * 86400,
    ensures
        forall|k: int| 0 <= k < r@.len() ==> #[trigger] r@[k] < files@.len() && expired(
            files@[r@[k] as int].0@,
            files@[r@[k] as int].1 as int,
            now as int,
            retention_days as int,
        ),
        forall|i: int| 0 <= i < files@.len() && expired(#[trigger] files@[i].0@, files@[i].1 as int, now as int, retention_days as int)
            ==> r@.contains(i as usize),
{
    let cutoff = now - (retention_days as i64) * 86400;
    let png = chars_of(".png");
    let mut out: Vec<usize> = Vec::new();
    let mut i: usize = 0;
    while i < files.len()
        invariant
            i <= files@.len(),
            cutoff == now - retention_days * 86400,
            png@ == ".png"@,
            forall|k: int| 0 <= k < out@.len() ==> #[trigger] out@[k] < i && expired(
                files@[out@[k] as int].0@,
                files@[out@[k] as int].1 as int,
                now as int,
                retention_days as int,
            ),
            forall|j: int| 0 <= j < i && expired(#[trigger] files@[j].0@, files@[j].1 as int, now as int, retention_days as int)
                ==> out@.contains(j as usize),
        decreases files.len() - i,
    {
        let name = chars_of(files[i].0.as_str());
        let n = name.len();
        let is_png = n >= 4 && {
            let tail = crate::text::slice_chars(&name, n - 4, n);
            crate::text::same_chars(&tail, &png)
        };
        let ghost before = out@;
        if is_png && files[i].1 < cutoff {
            out.push(i);
            assert(out@[before.len() as int] == i);
        }
        assert forall|j: int| 0 <= j < i + 1 && expired(#[trigger] files@[j].0@, files@[j].1 as int, now as int, retention_days as int)
            implies out@.contains(j as usize) by {
            if j < i {
                let w = choose|w: int| 0 <= w < before.len() && before[w] == j as usize;
                assert(out@[w] == before[w]);
            } else {
                assert(out@[out@.len() - 1] == j as usize);
            }
        }
        i = i + 1;
    }
    out
}

} // verus!
