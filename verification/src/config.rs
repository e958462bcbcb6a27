use vstd::prelude::*;
use vstd::string::StringExecFns;
use crate::error::{Error, ErrorView};
use crate::text::{opt_text, string_of};
use crate::utils::{digest_of, join_of, path_digest, path_join};

verus! {

/// Runtime configuration: where the store lives.
#[derive(Debug)]
pub struct Config {
    pub db_path: String,
}

/// What the process environment says about where the store may live.
#[derive(Debug)]
pub struct Environment {
    /// The explicit override of the store path, if it is set.
    pub db_path_override: Option<String>,
    /// The working directory, if it can be told.
    pub cwd: Option<String>,
    /// Whether a home directory or a data home is known.
    pub home_known: bool,
    /// The platform's data directory for this program, if it can be told.
    pub data_dir: Option<String>,
}

/// Which rule gives the store its place.
#[derive(Debug, Clone, Copy, PartialEq, Eq, Structural)]
pub enum StoreHome {
    /// The explicit override: the store's parent directory has to be there.
    Override,
    /// The platform's data directory, which has to be there.
    DataDir,
    /// The working directory.
    WorkingDir,
}

/// The lower-case hexadecimal digit for a value below 16.
pub open spec fn hex_digit(n: nat) -> char {
    if n == 0 {
        '0'
    } else if n == 1 {
        '1'
    } else if n == 2 {
        '2'
    } else if n == 3 {
        '3'
    } else if n == 4 {
        '4'
    } else if n == 5 {
        '5'
    } else if n == 6 {
        '6'
    } else if n == 7 {
        '7'
    } else if n == 8 {
        '8'
    } else if n == 9 {
        '9'
    } else if n == 10 {
        'a'
    } else if n == 11 {
        'b'
    } else if n == 12 {
        'c'
    } else if n == 13 {
        'd'
    } else if n == 14 {
        'e'
    } else {
        'f'
    }
}

/// The last `width` hexadecimal digits of `value`, most significant first, with
/// leading zeros.
pub open spec fn hex_digits(value: nat, width: nat) -> Seq<char>
    decreases width,
{
    if width == 0 {
        Seq::empty()
    } else {
        hex_digits(value / 16, (width - 1) as nat).push(hex_digit(value % 16))
    }
}

fn hex_char(n: u64) -> (c: char)
    requires
        n < 16,
    ensures
        c == hex_digit(n as nat),
{
    if n == 0 {
        '0'
    } else if n == 1 {
        '1'
    } else if n == 2 {
        '2'
    } else if n == 3 {
        '3'
    } else if n == 4 {
        '4'
    } else if n == 5 {
        '5'
    } else if n == 6 {
        '6'
    } else if n == 7 {
        '7'
    } else if n == 8 {
        '8'
    } else if n == 9 {
        '9'
    } else if n == 10 {
        'a'
    } else if n == 11 {
        'b'
    } else if n == 12 {
        'c'
    } else if n == 13 {
        'd'
    } else if n == 14 {
        'e'
    } else {
        'f'
    }
}

fn hex_of(value: u64, width: usize) -> (out: Vec<char>)
    ensures
        out@ == hex_digits(value as nat, width as nat),
    decreases width,
{
    if width == 0 {
        Vec::new()
    } else {
        let mut out = hex_of(value / 16, width - 1);
        out.push(hex_char(value % 16));
        out
    }
}

/// Name of the store file of a working directory: `index_`, the 16 hexadecimal
/// digits of the directory's digest, `.db`.
pub open spec fn index_name(digest: u64) -> Seq<char> {
    "index_"@ + hex_digits(digest as nat, 16) + ".db"@
}

/// Name of the store file for the working directory with the digest `digest`.
pub fn index_file_name(digest: u64) -> (name: String)
    ensures
        name@ == index_name(digest),
{
    let digits = hex_of(digest, 16);
    let mut name = "index_".to_owned();
    let d = string_of(&digits);
    name.append(d.as_str());
    name.append(".db");
    name
}

/// Which rule gives the store its place: the explicit override if there is one;
/// else the platform's data directory, if a home is known and the data directory
/// can be told; else the working directory.
pub open spec fn store_home(
    db_path_override: Option<Seq<char>>,
    home_known: bool,
    data_dir: Option<Seq<char>>,
) -> StoreHome {
    if db_path_override is Some {
        StoreHome::Override
    } else if home_known && data_dir is Some {
        StoreHome::DataDir
    } else {
        StoreHome::WorkingDir
    }
}

/// Where the store lives, given the digest of the working directory: the override
/// as it is, or the per-directory file in the data directory or in the working
/// directory.
pub open spec fn resolved_path(
    db_path_override: Option<Seq<char>>,
    digest: u64,
    home_known: bool,
    data_dir: Option<Seq<char>>,
) -> Seq<char> {
    match store_home(db_path_override, home_known, data_dir) {
        StoreHome::Override => db_path_override->0,
        StoreHome::DataDir => path_join(data_dir->0, index_name(digest)),
        StoreHome::WorkingDir => index_name(digest),
    }
}

/// The error of a working directory that cannot be told.
pub open spec fn no_cwd() -> ErrorView {
    ErrorView::Io("cannot determine the working directory"@)
}

impl Config {
    /// Which rule gives the store its place.
    pub fn home(env: &Environment) -> (h: StoreHome)
        ensures
            h == store_home(opt_text(env.db_path_override), env.home_known, opt_text(env.data_dir)),
    {
        if env.db_path_override.is_some() {
            StoreHome::Override
        } else if env.home_known && env.data_dir.is_some() {
            StoreHome::DataDir
        } else {
            StoreHome::WorkingDir
        }
    }

    /// The store's place, given the digest of the working directory.
    pub fn resolve(env: &Environment, digest: u64) -> (cfg: Config)
        ensures
            cfg.db_path@ == resolved_path(
                opt_text(env.db_path_override),
                digest,
                env.home_known,
                opt_text(env.data_dir),
            ),
    {
        match (&env.db_path_override, &env.data_dir) {
            (Some(p), _) => Config { db_path: p.clone() },
            (None, Some(dir)) => {
                let name = index_file_name(digest);
                if env.home_known {
                    Config { db_path: join_of(dir.as_str(), name.as_str()) }
                } else {
                    Config { db_path: name }
                }
            },
            (None, None) => Config { db_path: index_file_name(digest) },
        }
    }

    /// Resolves the configuration from what the environment says. An override
    /// needs nothing else. Without one the working directory names the store, and
    /// has to be known.
    pub fn load(env: &Environment) -> (r: Result<Config, Error>)
        ensures
            env.db_path_override is Some ==> r is Ok && (r->Ok_0).db_path@
                == env.db_path_override->0@,
            env.db_path_override is None && env.cwd is Some ==> r is Ok && (r->Ok_0).db_path@
                == resolved_path(
                None,
                path_digest(env.cwd->0@),
                env.home_known,
                opt_text(env.data_dir),
            ),
            env.db_path_override is None && env.cwd is None ==> r is Err && (r->Err_0)@
                == no_cwd(),
    {
        if env.db_path_override.is_some() {
            return Ok(Self::resolve(env, 0));
        }
        match &env.cwd {
            Some(cwd) => Ok(Self::resolve(env, digest_of(cwd.as_str()))),
            None => Err(Error::Io("cannot determine the working directory".to_owned())),
        }
    }
}

} // verus!
