//! The app-private files directory on Android: recorded once at start-up,
//! then used to place the configuration file and the database.

use vstd::prelude::*;

use crate::text::{chars_of, push_text, string_of};

verus! {

/// The files directory, once it has been recorded.
#[derive(Debug)]
pub struct FilesDir {
    dir: Option<String>,
}

/// `dir` joined with the relative file name `name` as `Path::join` does on
/// Unix: a `/` between them unless `dir` is empty or already ends in one.
pub open spec fn path_join(dir: Seq<char>, name: Seq<char>) -> Seq<char> {
    if dir.len() > 0 && dir.last() != '/' {
        dir + seq!['/'] + name
    } else {
        dir + name
    }
}

impl FilesDir {
    pub closed spec fn recorded(&self) -> Option<Seq<char>> {
        match self.dir {
            Some(d) => Some(d@),
            None => None,
        }
    }

    /// Nothing recorded yet.
    pub fn new() -> (r: FilesDir)
        ensures
            r.recorded() is None,
    {
        FilesDir { dir: None }
    }

    /// Records the directory. The first call wins; later ones change nothing.
    pub fn set(&mut self, path: String)
        ensures
            final(self).recorded() == match old(self).recorded() {
                Some(d) => Some(d),
                None => Some(path@),
            },
    {
        if self.dir.is_none() {
            self.dir = Some(path);
        }
    }

    /// The recorded directory.
    pub fn get(&self) -> (r: String)
        requires
            self.recorded() is Some,
        ensures
            Some(r@) == self.recorded(),
    {
        match &self.dir {
            Some(d) => string_of(&chars_of(d.as_str())),
            None => string_of(&Vec::new()),
        }
    }

    /// Where the configuration file lives.
    pub fn config_path(&self) -> (r: String)
        requires
            self.recorded() is Some,
        ensures
            r@ == path_join(self.recorded()->Some_0, "config.toml"@),
    {
        join_file(self.get().as_str(), "config.toml")
    }

    /// Where the database lives unless configured otherwise.
    pub fn default_db_path(&self) -> (r: String)
        requires
            self.recorded() is Some,
        ensures
            r@ == path_join(self.recorded()->Some_0, "db.sqlite"@),
    {
        join_file(self.get().as_str(), "db.sqlite")
    }
}

/// `dir` joined with a relative file name.
pub fn join_file(dir: &str, name: &str) -> (r: String)
    ensures
        r@ == path_join(dir@, name@),
{
    let mut v = chars_of(dir);
    if v.len() > 0 && v[v.len() - 1] != '/' {
        v.push('/');
    }
    push_text(&mut v, name);
    string_of(&v)
}

} // verus!
