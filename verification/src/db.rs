//! Where the package cache database lives, and the time stamps written into it.

use vstd::prelude::*;
use crate::config::{app_dir, cache_dir, join_path_bytes, path_join_bytes};
use vstd::string::StringSliceAdditionalSpecFns;
use crate::clock::{since_epoch, system_now};

verus! {

/// The package cache database file, as the bytes of the path.
pub fn db_path() -> (r: Vec<u8>)
    ensures
        exists|home: Option<Seq<u8>>| r@ == path_join_bytes(app_dir(home, ".cache".spec_bytes()), "pkgdb.sqlite".spec_bytes()),
{
    let d = cache_dir();
    let r = join_path_bytes(d.as_slice(), "pkgdb.sqlite".as_bytes());
    let ghost home = choose|home: Option<Seq<u8>>| d@ == app_dir(home, ".cache".spec_bytes());
    assert(r@ == path_join_bytes(app_dir(home, ".cache".spec_bytes()), "pkgdb.sqlite".spec_bytes()));
    r
}

/// The time stamp of a clock reading: its seconds since the epoch (wrapping
/// into `i64` as a cast does), or 0 for a reading before the epoch.
pub fn timestamp_of(secs: Option<u64>) -> (r: i64)
    ensures
        r == match secs {
            Some(s) => s as i64,
            None => 0,
        },
{
    match secs {
        Some(s) => s as i64,
        None => 0,
    }
}

/// The current time stamp, in seconds since the epoch: `timestamp_of` the
/// clock's reading, which every `i64` may be.
pub fn now_ts() -> i64 {
    let t = system_now();
    let secs = match since_epoch(&t) {
        Some(d) => Some(d.as_secs()),
        None => None,
    };
    timestamp_of(secs)
}

} // verus!
