//! Process configuration: where the persisted snapshot lives.  Creating the
//! file and reading it belong to the caller; the library only carries the
//! path.

use vstd::prelude::*;

verus! {

/// The fixed default location of the persisted snapshot.
pub open spec fn default_storage_path() -> Seq<char> {
    "local_storage.json"@
}

/// The store's configuration: the path of the persisted snapshot file.
pub struct Config {
    local_storage: String,
}

impl Config {
    /// The default configuration: the snapshot lives beside the process.
    pub fn new() -> (c: Config)
        ensures
            c@ == default_storage_path(),
    {
        Config { local_storage: "local_storage.json".to_owned() }
    }

    /// The path of the persisted snapshot file.
    pub fn return_local_storage_path(&self) -> (r: Result<String, String>)
        ensures
            r matches Ok(p) && p@ == self@,
    {
        Ok(self.local_storage.clone())
    }
}

impl View for Config {
    type V = Seq<char>;

    closed spec fn view(&self) -> Seq<char> {
        self.local_storage@
    }
}

} // verus!
