use crate::convert::{row_views, rows_of, skipped_of, transform, Conversion};
use crate::hierarchy::{fully_classified, HierarchyError, TimeOwnersHierarchy};
use crate::jiffy::{TimeEntry, TimeOwner};
use vstd::prelude::*;

pub mod convert;
pub mod hierarchy;
pub mod jiffy;
pub mod text;
pub mod toggl;
pub mod zone;

verus! {

/// The parameters of a run: the backup to read, the identity written in the
/// user and email columns, and how many rows to skip and to keep at most.
#[derive(Clone, Debug)]
pub struct Cli {
    pub backup: String,
    pub email: String,
    pub skip: Option<usize>,
    pub take: usize,
}

/// The rows kept at most when no limit is given.
pub const DEFAULT_TAKE: usize = 5000;

impl Cli {
    /// Arranges the owners and turns the entries into rows. Fails, with no
    /// rows, when the owners do not form a three-level hierarchy.
    pub fn convert(&self, time_owners: Vec<TimeOwner>, time_entries: &Vec<TimeEntry>) -> (r: Result<
        Conversion,
        HierarchyError,
    >)
        ensures
            r is Ok <==> fully_classified(time_owners@),
            r matches Err(e) ==> e == HierarchyError::IncompleteClassification,
            r matches Ok(c) ==> row_views(c.rows@) == rows_of(
                time_owners@,
                time_entries@,
                self.email@,
                match self.skip {
                    Some(s) => s as int,
                    None => 0,
                },
                self.take as int,
            ) && c.skipped@ == skipped_of(time_owners@, time_entries@, self.email@),
    {
        let hierarchy = match TimeOwnersHierarchy::new(time_owners) {
            Ok(h) => h,
            Err(e) => {
                return Err(e);
            },
        };
        let skip = match self.skip {
            Some(s) => s,
            None => 0,
        };
        Ok(transform(&hierarchy, time_entries, self.email.as_str(), skip, self.take))
    }
}

} // verus!
