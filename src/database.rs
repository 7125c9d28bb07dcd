//! The server's job database, as held in memory. Reading and writing the
//! save file is left to the caller: [`PackRatDatabase::save_to_disk`] names
//! the file and the state to store in it.
use crate::common::Job;
use vstd::prelude::*;

verus! {

/// Everything the database persists.
pub struct PackRatSaveData {
    pub queue: Vec<PackRatJobState>,
}

/// A queued job and whether it has finished.
pub struct PackRatJobState {
    pub job: Job,
    pub is_complete: bool,
}

impl Default for PackRatSaveData {
    fn default() -> (r: Self)
        ensures
            r.queue@.len() == 0,
    {
        PackRatSaveData { queue: Vec::new() }
    }
}

/// The database of a server: its state and where it lives on disk.
pub struct PackRatDatabase {
    save: PackRatSaveData,
    base_path: String,
    archive_path: String,
    save_data_path: String,
}

impl PackRatDatabase {
    /// The state held in memory.
    pub closed spec fn spec_save(&self) -> PackRatSaveData {
        self.save
    }

    /// The database directory, its archive directory and its save file.
    pub closed spec fn spec_paths(&self) -> (Seq<char>, Seq<char>, Seq<char>) {
        (self.base_path@, self.archive_path@, self.save_data_path@)
    }

    /// A database with the given state, rooted at `base_path`, archiving to
    /// `archive_path` and saving to `save_data_path`.
    pub fn from_parts(save: PackRatSaveData, base_path: String, archive_path: String, save_data_path: String) -> (r: Self)
        ensures
            r.spec_save() == save,
            r.spec_paths() == (base_path@, archive_path@, save_data_path@),
    {
        PackRatDatabase { save, base_path, archive_path, save_data_path }
    }

    /// What an atomic save of the current state writes: the save file's
    /// path and the state to store there.
    pub fn save_to_disk(&self) -> (r: (&str, &PackRatSaveData))
        ensures
            r.0@ == self.spec_paths().2,
            *r.1 == self.spec_save(),
    {
        (self.save_data_path.as_str(), &self.save)
    }

    pub fn savedata(&self) -> (r: &PackRatSaveData)
        ensures
            *r == self.spec_save(),
    {
        &self.save
    }

    pub fn savedata_mut(&mut self) -> (r: &mut PackRatSaveData)
        ensures
            *r == old(self).spec_save(),
            final(self).spec_save() == *final(r),
            final(self).spec_paths() == old(self).spec_paths(),
    {
        &mut self.save
    }

    /// The database directory.
    pub fn base_path(&self) -> (r: &str)
        ensures
            r@ == self.spec_paths().0,
    {
        self.base_path.as_str()
    }

    /// The archive directory.
    pub fn archive_path(&self) -> (r: &str)
        ensures
            r@ == self.spec_paths().1,
    {
        self.archive_path.as_str()
    }
}

} // verus!
