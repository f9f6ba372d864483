//! Settings of the program: where the library is, and how to reach the
//! cataloging services.

use vstd::prelude::*;
use crate::text::{chars_of, push_char};

verus! {

/// Settings of the metadata-fetching service.
#[derive(Debug)]
pub struct KomfConfig {
    pub url: String,
}

/// Settings of the cataloging server.
#[derive(Debug)]
pub struct KomgaConfig {
    pub url: String,
    pub api_key: String,
    pub oneshots_dir: String,
}

/// All settings.
#[derive(Debug)]
pub struct Config {
    pub manga_dir: String,
    pub komga: KomgaConfig,
    pub komf: KomfConfig,
}

/// The default address of the metadata-fetching service.
pub fn komf_url() -> (r: String)
    ensures
        r@ == "http://127.0.0.1:8085"@,
{
    String::from_str("http://127.0.0.1:8085")
}

/// The default address of the cataloging server.
pub fn komga_url() -> (r: String)
    ensures
        r@ == "http://127.0.0.1:25600"@,
{
    String::from_str("http://127.0.0.1:25600")
}

/// The default directory of one-shot books.
pub fn oneshots_dir() -> (r: String)
    ensures
        r@ == "_oneshots"@,
{
    String::from_str("_oneshots")
}

impl Default for KomfConfig {
    fn default() -> (r: Self)
        ensures
            r.url@ == "http://127.0.0.1:8085"@,
    {
        KomfConfig { url: komf_url() }
    }
}

impl Default for KomgaConfig {
    fn default() -> (r: Self)
        ensures
            r.url@ == "http://127.0.0.1:25600"@,
            r.api_key@ == Seq::<char>::empty(),
            r.oneshots_dir@ == "_oneshots"@,
    {
        KomgaConfig { url: komga_url(), api_key: String::new(), oneshots_dir: oneshots_dir() }
    }
}

/// `dir` followed by the relative path `name`, with one `/` between them, as
/// `Path::join` puts it.
pub open spec fn joined(dir: Seq<char>, name: Seq<char>) -> Seq<char> {
    if dir.len() == 0 || dir.last() == '/' {
        dir + name
    } else {
        dir + seq!['/'] + name
    }
}

/// `dir` joined with the relative path `name`.
pub fn join_path(dir: &str, name: &str) -> (r: String)
    ensures
        r@ == joined(dir@, name@),
{
    let d = chars_of(dir);
    let n = chars_of(name);
    let mut r = String::new();
    let mut i: usize = 0;
    while i < d.len()
        invariant
            i <= d@.len(),
            r@ == d@.subrange(0, i as int),
        decreases d@.len() - i,
    {
        push_char(&mut r, d[i]);
        i += 1;
        assert(r@ =~= d@.subrange(0, i as int));
    }
    assert(d@.subrange(0, i as int) =~= d@);
    if d.len() > 0 && d[d.len() - 1] != '/' {
        push_char(&mut r, '/');
    }
    let ghost head = r@;
    let mut k: usize = 0;
    while k < n.len()
        invariant
            k <= n@.len(),
            r@ == head + n@.subrange(0, k as int),
        decreases n@.len() - k,
    {
        push_char(&mut r, n[k]);
        k += 1;
        assert(r@ =~= head + n@.subrange(0, k as int));
    }
    assert(n@.subrange(0, k as int) =~= n@);
    r
}

/// The library directory when none is configured: `Mangas` in the user's
/// documents directory, or `./Mangas` when there is none.
pub fn default_manga_dir(documents: Option<String>) -> (r: String)
    ensures
        documents matches Some(d) ==> r@ == joined(d@, "Mangas"@),
        documents is None ==> r@ == "./Mangas"@,
{
    match documents {
        Some(d) => join_path(d.as_str(), "Mangas"),
        None => String::from_str("./Mangas"),
    }
}

/// Relies on `dirs::document_dir`: the user's documents directory, if the
/// platform names one.
#[verifier::external_body]
fn document_dir() -> Option<String> {
    dirs::document_dir().map(|p| p.display().to_string())
}

impl Default for Config {
    fn default() -> (r: Self)
        ensures
            r.manga_dir@ == "./Mangas"@ || exists|d: Seq<char>| r.manga_dir@ == joined(d, "Mangas"@),
            r.komga.url@ == "http://127.0.0.1:25600"@,
            r.komga.api_key@ == Seq::<char>::empty(),
            r.komga.oneshots_dir@ == "_oneshots"@,
            r.komf.url@ == "http://127.0.0.1:8085"@,
    {
        Config { manga_dir: default_manga_dir(document_dir()), komga: KomgaConfig::default(), komf: KomfConfig::default() }
    }
}

impl Config {
    /// The settings file in the program's configuration directory `app_dir`.
    pub fn get_config_path(app_dir: &str) -> (r: String)
        ensures
            r@ == joined(app_dir@, "config.toml"@),
    {
        join_path(app_dir, "config.toml")
    }

    /// The log file in the program's configuration directory `app_dir`.
    pub fn get_log_path(app_dir: &str) -> (r: String)
        ensures
            r@ == joined(app_dir@, "cbz.log"@),
    {
        join_path(app_dir, "cbz.log")
    }
}

} // verus!
