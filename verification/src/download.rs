//! Where downloads go and how `aria2c` is asked to fetch one.

use vstd::prelude::*;
use vstd::string::*;

verus! {

/// A download that was handed to the downloader.
pub struct Download {
    pub path: String,
}

/// The directory for downloads: `Descargas/anime` in the home directory, or
/// in `/tmp` where no home directory is known.
pub open spec fn download_dir_of(home: Option<Seq<char>>) -> Seq<char> {
    let base = match home {
        Some(h) => h,
        None => "/tmp"@,
    };
    base + "/Descargas/anime"@
}

/// The directory for downloads, given the `HOME` variable if it is set.
pub fn download_dir(home: Option<String>) -> (r: String)
    ensures
        r@ == download_dir_of(match home {
            Some(h) => Some(h@),
            None => None,
        }),
{
    let mut dir = match home {
        Some(h) => h,
        None => String::from_str("/tmp"),
    };
    dir.append("/Descargas/anime");
    dir
}

/// The arguments `aria2c` is started with to fetch `magnet` into `dir`:
/// no seeding afterwards, sixteen connections, and quiet output.
pub open spec fn aria2c_args_of(dir: Seq<char>, magnet: Seq<char>) -> Seq<Seq<char>> {
    seq![
        "--dir"@,
        dir,
        "--seed-time=0"@,
        "--max-connection-per-server=16"@,
        "--split=16"@,
        "--console-log-level=error"@,
        "--summary-interval=0"@,
        magnet,
    ]
}

/// The arguments `aria2c` is started with to fetch `magnet` into `dir`.
pub fn aria2c_args(dir: &str, magnet: &str) -> (r: Vec<String>)
    ensures
        r@.map_values(|s: String| s@) == aria2c_args_of(dir@, magnet@),
{
    let mut args: Vec<String> = Vec::new();
    args.push(String::from_str("--dir"));
    args.push(String::from_str(dir));
    args.push(String::from_str("--seed-time=0"));
    args.push(String::from_str("--max-connection-per-server=16"));
    args.push(String::from_str("--split=16"));
    args.push(String::from_str("--console-log-level=error"));
    args.push(String::from_str("--summary-interval=0"));
    args.push(String::from_str(magnet));
    assert(args@.map_values(|s: String| s@) =~= aria2c_args_of(dir@, magnet@));
    args
}

} // verus!
