//! Where the state is stored: the file's path, the older files that are read
//! when it is missing, and the name a file that cannot be parsed is moved to.
//! Paths are held as strings; the path operations are those of `std::path`
//! on the platform that the library is built for.
use vstd::prelude::*;

use crate::state;
use crate::state::BotfatherState;

verus! {

/// The name of the state file in a directory.
pub const DEFAULT_FILE_NAME: &'static str = "botfather_state.v2.json";

/// The name of the file that earlier versions wrote.
pub const LEGACY_FILE_NAME: &'static str = "botfather_state.v1.json";

/// `Path::join` of `base` and `name`, as a string.
pub uninterp spec fn path_join(base: Seq<char>, name: Seq<char>) -> Seq<char>;

/// `Path::parent` of `path`, as a string.
pub uninterp spec fn path_parent(path: Seq<char>) -> Option<Seq<char>>;

/// Whether `Path::eq` holds of two paths (it compares their components).
pub uninterp spec fn paths_equal(a: Seq<char>, b: Seq<char>) -> bool;

/// `Path::file_stem` of `path`, as a string.
pub uninterp spec fn path_file_stem(path: Seq<char>) -> Option<Seq<char>>;

/// `Path::extension` of `path`, as a string.
pub uninterp spec fn path_extension(path: Seq<char>) -> Option<Seq<char>>;

/// `Path::with_file_name` of `path` and `name`, as a string.
pub uninterp spec fn path_with_file_name(path: Seq<char>, name: Seq<char>) -> Seq<char>;

/// Wraps `std::path::Path::join`: the result is named `path_join` of the
/// two strings.
#[verifier::external_body]
fn join_path(base: &str, name: &str) -> (r: String)
    ensures
        r@ == path_join(base@, name@),
{
    std::path::Path::new(base).join(name).to_string_lossy().into_owned()
}

/// Wraps `std::path::Path::parent`: the result is named `path_parent` of the
/// string.
#[verifier::external_body]
fn parent_path(path: &str) -> (r: Option<String>)
    ensures
        crate::text::opt_view(r) == path_parent(path@),
{
    match std::path::Path::new(path).parent() {
        Some(dir) => Some(dir.to_string_lossy().into_owned()),
        None => None,
    }
}

/// Wraps `Path::eq`: the result is named `paths_equal` of the two strings.
#[verifier::external_body]
fn same_path(a: &str, b: &str) -> (r: bool)
    ensures
        r == paths_equal(a@, b@),
{
    std::path::Path::new(a) == std::path::Path::new(b)
}

/// Wraps `std::path::Path::file_stem` with `OsStr::to_str`: the result is
/// named `path_file_stem` of the string.
#[verifier::external_body]
fn file_stem(path: &str) -> (r: Option<String>)
    ensures
        crate::text::opt_view(r) == path_file_stem(path@),
{
    match std::path::Path::new(path).file_stem() {
        Some(stem) => stem.to_str().map(String::from),
        None => None,
    }
}

/// Wraps `std::path::Path::extension` with `OsStr::to_str`: the result is
/// named `path_extension` of the string.
#[verifier::external_body]
fn file_extension(path: &str) -> (r: Option<String>)
    ensures
        crate::text::opt_view(r) == path_extension(path@),
{
    match std::path::Path::new(path).extension() {
        Some(ext) => ext.to_str().map(String::from),
        None => None,
    }
}

/// Wraps `std::path::Path::with_file_name`: the result is named
/// `path_with_file_name` of the two strings.
#[verifier::external_body]
fn replace_file_name(path: &str, name: &str) -> (r: String)
    ensures
        r@ == path_with_file_name(path@, name@),
{
    std::path::Path::new(path).with_file_name(name).to_string_lossy().into_owned()
}

/// The decimal digit `d`.
pub open spec fn digit_char(d: nat) -> char {
    if d == 0 {
        '0'
    } else if d == 1 {
        '1'
    } else if d == 2 {
        '2'
    } else if d == 3 {
        '3'
    } else if d == 4 {
        '4'
    } else if d == 5 {
        '5'
    } else if d == 6 {
        '6'
    } else if d == 7 {
        '7'
    } else if d == 8 {
        '8'
    } else {
        '9'
    }
}

/// The decimal numeral of `n`, without leading zeros.
pub open spec fn decimal(n: nat) -> Seq<char>
    decreases n,
{
    if n < 10 {
        seq![digit_char(n)]
    } else {
        decimal(n / 10).push(digit_char(n % 10))
    }
}

/// The numeral of the decimal digit `d`.
fn digit_str(d: u64) -> (s: &'static str)
    requires
        d < 10,
    ensures
        s@ == seq![digit_char(d as nat)],
{
    if d == 0 {
        proof {
            reveal_strlit("0");
        }
        "0"
    } else if d == 1 {
        proof {
            reveal_strlit("1");
        }
        "1"
    } else if d == 2 {
        proof {
            reveal_strlit("2");
        }
        "2"
    } else if d == 3 {
        proof {
            reveal_strlit("3");
        }
        "3"
    } else if d == 4 {
        proof {
            reveal_strlit("4");
        }
        "4"
    } else if d == 5 {
        proof {
            reveal_strlit("5");
        }
        "5"
    } else if d == 6 {
        proof {
            reveal_strlit("6");
        }
        "6"
    } else if d == 7 {
        proof {
            reveal_strlit("7");
        }
        "7"
    } else if d == 8 {
        proof {
            reveal_strlit("8");
        }
        "8"
    } else {
        proof {
            reveal_strlit("9");
        }
        "9"
    }
}

/// The decimal numeral of `n`, without leading zeros, as `to_string` writes
/// it.
fn decimal_string(n: u64) -> (r: String)
    ensures
        r@ == decimal(n as nat),
    decreases n,
{
    if n < 10 {
        String::from_str(digit_str(n))
    } else {
        let mut r = decimal_string(n / 10);
        r.append(digit_str(n % 10));
        assert(r@ =~= decimal((n / 10) as nat).push(digit_char((n % 10) as nat)));
        r
    }
}

/// Where the state is stored.
#[derive(Debug)]
pub struct StateStore {
    path: String,
}

impl View for StateStore {
    type V = Seq<char>;

    closed spec fn view(&self) -> Seq<char> {
        self.path@
    }
}

impl Clone for StateStore {
    fn clone(&self) -> (r: Self)
        ensures
            r@ == self@,
    {
        StateStore { path: self.path.clone() }
    }
}

/// The files read, in order, to load a state stored at `path`: the path
/// itself, then the earlier version's file in the same directory unless it
/// is the same path.
pub open spec fn load_candidates_for(path: Seq<char>) -> Seq<Seq<char>> {
    match path_parent(path) {
        None => seq![path],
        Some(dir) => {
            let legacy = path_join(dir, LEGACY_FILE_NAME@);
            if paths_equal(legacy, path) {
                seq![path]
            } else {
                seq![path, legacy]
            }
        },
    }
}

/// The name that an unparsable state file is moved aside to:
/// `<stem>.invalid-<timestamp>.<extension>` in the same directory, the stem
/// `state` and the extension `json` standing in for missing ones.
pub open spec fn backup_path_for(path: Seq<char>, timestamp_secs: nat) -> Seq<char> {
    let stem = match path_file_stem(path) {
        Some(s) => s,
        None => "state"@,
    };
    let extension = match path_extension(path) {
        Some(e) => e,
        None => "json"@,
    };
    path_with_file_name(path, stem + ".invalid-"@ + decimal(timestamp_secs) + "."@ + extension)
}

impl StateStore {
    /// A store at `path`.
    pub fn new(path: &str) -> (s: Self)
        ensures
            s@ == path@,
    {
        StateStore { path: path.to_owned() }
    }

    /// A store at the default file name in `dir`.
    pub fn in_dir(dir: &str) -> (s: Self)
        ensures
            s@ == path_join(dir@, DEFAULT_FILE_NAME@),
    {
        StateStore { path: join_path(dir, DEFAULT_FILE_NAME) }
    }

    /// The path of the state file.
    pub fn path(&self) -> (p: &str)
        ensures
            p@ == self@,
    {
        self.path.as_str()
    }

    /// The files to read when loading, in order.
    pub fn load_candidates(&self) -> (r: Vec<String>)
        ensures
            crate::text::strings_view(r@) == load_candidates_for(self@),
    {
        let mut candidates: Vec<String> = Vec::new();
        candidates.push(self.path.clone());
        match parent_path(self.path.as_str()) {
            None => {},
            Some(dir) => {
                let legacy = join_path(dir.as_str(), LEGACY_FILE_NAME);
                if !same_path(legacy.as_str(), self.path.as_str()) {
                    candidates.push(legacy);
                }
            },
        }
        assert(crate::text::strings_view(candidates@) =~= load_candidates_for(self@));
        candidates
    }
}

/// The path that an unparsable state file at `path` is moved aside to, for
/// a clock reading of `timestamp_secs` seconds since the Unix epoch.
pub fn invalid_backup_path(path: &str, timestamp_secs: u64) -> (r: String)
    ensures
        r@ == backup_path_for(path@, timestamp_secs as nat),
{
    let stem = match file_stem(path) {
        Some(s) => s,
        None => String::from_str("state"),
    };
    let extension = match file_extension(path) {
        Some(e) => e,
        None => String::from_str("json"),
    };
    let mut name = stem;
    name.append(".invalid-");
    name.append(decimal_string(timestamp_secs).as_str());
    name.append(".");
    name.append(extension.as_str());
    replace_file_name(path, name.as_str())
}

/// What reading one candidate file gave.
#[derive(Debug)]
pub enum CandidateRead {
    /// There is no file at that path.
    Missing,
    /// The file is there but could not be read.
    Unreadable,
    /// The file was read and parsed into a state.
    Parsed(BotfatherState),
    /// The file was read but does not hold a state.
    Unparsable,
}

/// What loading does after reading one candidate file.
#[derive(Debug)]
pub enum LoadStep {
    /// Try the next candidate; after the last one, start from the default
    /// state.
    NextCandidate,
    /// Give up with the read error.
    Fail,
    /// Use this state.
    Done(BotfatherState),
    /// Copy the unparsable file to `backup` and use `state`.
    BackUpAndReset { backup: String, state: BotfatherState },
}

/// The decision that loading makes on reading the candidate at `path`, with
/// the clock at `now_secs` seconds since the Unix epoch: a missing file
/// passes to the next candidate, an unreadable one fails, a parsed state is
/// brought up to date, and an unparsable file is backed up and replaced by
/// the default state.
pub fn load_step(path: &str, read: CandidateRead, now_secs: u64) -> (r: LoadStep)
    ensures
        match read {
            CandidateRead::Missing => r is NextCandidate,
            CandidateRead::Unreadable => r is Fail,
            CandidateRead::Parsed(s) => r matches LoadStep::Done(t) && state::normalized_from(
                s,
                t,
            ),
            CandidateRead::Unparsable => r matches LoadStep::BackUpAndReset { backup, state } && backup@
                == backup_path_for(path@, now_secs as nat) && state::is_default_state(state),
        },
{
    match read {
        CandidateRead::Missing => LoadStep::NextCandidate,
        CandidateRead::Unreadable => LoadStep::Fail,
        CandidateRead::Parsed(s) => {
            let mut s = s;
            s.normalize();
            LoadStep::Done(s)
        },
        CandidateRead::Unparsable => LoadStep::BackUpAndReset {
            backup: invalid_backup_path(path, now_secs),
            state: BotfatherState::default(),
        },
    }
}

} // verus!
