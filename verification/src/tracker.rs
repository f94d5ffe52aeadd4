//! Where the application tracker lives on disk, and its store errors. Paths are held
//! as `/`-separated strings; joining follows `PathBuf::push` for a relative component
//! (no separator after an empty base or a base that already ends in `/`).

use crate::text::{decimal, decimal_chars, decimal_chars_u128, push_all, strs};
use vstd::prelude::*;

verus! {

/// The errors of the tracker store.
#[derive(Debug)]
pub enum StoreError {
    Io(String),
    Serde(String),
}

/// The display text of a store error.
pub open spec fn store_error_message(e: StoreError) -> Seq<char> {
    match e {
        StoreError::Io(d) => "tracker store io: "@ + d@,
        StoreError::Serde(d) => "tracker store serialize/parse: "@ + d@,
    }
}

impl StoreError {
    /// The human-readable message of this error.
    pub fn message(&self) -> (r: String)
        ensures
            r@ == store_error_message(*self),
    {
        match self {
            StoreError::Io(d) => {
                let mut s = String::from_str("tracker store io: ");
                s.append(d.as_str());
                s
            },
            StoreError::Serde(d) => {
                let mut s = String::from_str("tracker store serialize/parse: ");
                s.append(d.as_str());
                s
            },
        }
    }
}

/// `base` joined with a relative component.
pub open spec fn join_spec(base: Seq<char>, comp: Seq<char>) -> Seq<char> {
    if base.len() == 0 || base.last() == '/' {
        base + comp
    } else {
        base + "/"@ + comp
    }
}

/// Joins a relative component onto a path.
pub fn join_path(base: &String, comp: &str) -> (r: String)
    ensures
        r@ == join_spec(base@, comp@),
{
    let mut s = base.clone();
    let v = crate::text::chars_of(base.as_str());
    if v.len() > 0 && v[v.len() - 1] != '/' {
        s.append("/");
    }
    s.append(comp);
    s
}

/// The tag of the current user: `USER` if set and non-empty, else `USERNAME` if set
/// and non-empty, else `shared`.
pub open spec fn user_tag_spec(user: Option<Seq<char>>, username: Option<Seq<char>>) -> Seq<char> {
    match user {
        Some(u) if u.len() > 0 => u,
        _ => match username {
            Some(u) if u.len() > 0 => u,
            _ => "shared"@,
        },
    }
}

pub open spec fn ostr(o: Option<String>) -> Option<Seq<char>> {
    match o {
        Some(s) => Some(s@),
        None => None,
    }
}

/// The user tag from the `USER` and `USERNAME` values.
pub fn user_tag_from(user: Option<String>, username: Option<String>) -> (r: String)
    ensures
        r@ == user_tag_spec(ostr(user), ostr(username)),
{
    match user {
        Some(u) => {
            if !u.as_str().is_empty() {
                return u;
            }
        },
        None => {},
    }
    match username {
        Some(u) => {
            if !u.as_str().is_empty() {
                return u;
            }
        },
        None => {},
    }
    String::from_str("shared")
}

/// The data directory: a non-empty `XDG_DATA_HOME`, else a non-empty `HOME` with
/// `.local/share`, else a per-user directory under the temp dir.
pub open spec fn data_dir_spec(xdg: Option<Seq<char>>, home: Option<Seq<char>>, temp: Seq<char>, tag: Seq<char>) -> Seq<char> {
    match xdg {
        Some(x) if x.len() > 0 => x,
        _ => match home {
            Some(h) if h.len() > 0 => join_spec(join_spec(h, ".local"@), "share"@),
            _ => join_spec(temp, "aa-tracker-"@ + tag),
        },
    }
}

/// The default tracker file: `<data dir>/job-hunter/tracker.json`.
pub open spec fn default_path_spec(xdg: Option<Seq<char>>, home: Option<Seq<char>>, temp: Seq<char>, tag: Seq<char>) -> Seq<char> {
    join_spec(join_spec(data_dir_spec(xdg, home, temp, tag), "job-hunter"@), "tracker.json"@)
}

/// The default tracker path from the environment's values.
pub fn resolve_default_path(xdg_data_home: Option<String>, home: Option<String>, temp_dir: String, user_tag: String) -> (r: String)
    ensures
        r@ == default_path_spec(ostr(xdg_data_home), ostr(home), temp_dir@, user_tag@),
{
    let data_dir = match xdg_data_home {
        Some(x) if !x.as_str().is_empty() => x,
        _ => match home {
            Some(h) if !h.as_str().is_empty() => {
                let l = join_path(&h, ".local");
                join_path(&l, "share")
            },
            _ => {
                let mut name = String::from_str("aa-tracker-");
                name.append(user_tag.as_str());
                join_path(&temp_dir, name.as_str())
            },
        },
    };
    let d = join_path(&data_dir, "job-hunter");
    join_path(&d, "tracker.json")
}

/// The name of the temporary file a save writes before its atomic rename:
/// `.<file name>.<pid>.<nanos>.tmp`, or `.tracker.<pid>.<nanos>.tmp` when the path has
/// no file name.
pub open spec fn tmp_name_spec(file_name: Option<Seq<char>>, pid: nat, nanos: nat) -> Seq<char> {
    let base = match file_name {
        Some(b) => b,
        None => "tracker"@,
    };
    "."@ + base + "."@ + decimal(pid) + "."@ + decimal(nanos) + ".tmp"@
}

/// The temporary file name for a save.
pub fn tmp_file_name(file_name: Option<&str>, pid: u32, nanos: u128) -> (r: String)
    ensures
        r@ == tmp_name_spec(
            match file_name {
                Some(b) => Some(b@),
                None => None,
            },
            pid as nat,
            nanos as nat,
        ),
{
    let mut s = String::from_str(".");
    match file_name {
        Some(b) => s.append(b),
        None => s.append("tracker"),
    }
    s.append(".");
    let p = decimal_chars(pid as u64);
    push_all(&mut s, &p);
    s.append(".");
    let n = decimal_chars_u128(nanos);
    push_all(&mut s, &n);
    s.append(".tmp");
    s
}

} // verus!
