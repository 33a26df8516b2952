//! Configuration for a scan operation.
use vstd::prelude::*;

verus! {

/// Configuration for a scan operation
#[derive(Debug, Clone)]
pub struct ScanConfig {
    /// Path to pg_hba.conf
    pub hba_file: Option<String>,
    /// Path to postgresql.conf
    pub config_file: Option<String>,
    /// PostgreSQL data directory
    pub data_directory: Option<String>,
    /// Enable verbose output
    pub verbose: bool,
    /// Checks to run (None = all)
    pub include_checks: Option<Vec<String>>,
    /// Checks to exclude
    pub exclude_checks: Option<Vec<String>>,
}

impl Default for ScanConfig {
    fn default() -> (c: Self)
        ensures
            c.hba_file is None,
            c.config_file is None,
            c.data_directory is None,
            !c.verbose,
            c.include_checks is None,
            c.exclude_checks is None,
    {
        ScanConfig {
            hba_file: None,
            config_file: None,
            data_directory: None,
            verbose: false,
            include_checks: None,
            exclude_checks: None,
        }
    }
}

/// Whether one of the strings is `id`.
pub open spec fn lists(v: Seq<String>, id: Seq<char>) -> bool {
    exists|i: int| 0 <= i < v.len() && #[trigger] v[i]@ == id
}

/// Whether a check runs: an excluded check never does; with an include list
/// only the listed checks do; otherwise every check does.
pub open spec fn runs_check(
    wanted: Option<Vec<String>>,
    unwanted: Option<Vec<String>>,
    id: Seq<char>,
) -> bool {
    match unwanted {
        Some(ex) if lists(ex@, id) => false,
        _ => match wanted {
            Some(inc) => lists(inc@, id),
            None => true,
        },
    }
}

/// An excluded check never runs, whatever the include list says; with an
/// include list exactly the listed checks that are not excluded run; without
/// an include list every check that is not excluded runs.
pub proof fn law_check_selection(
    wanted: Option<Vec<String>>,
    unwanted: Option<Vec<String>>,
    id: Seq<char>,
)
    ensures
        unwanted matches Some(ex) ==> (lists(ex@, id) ==> !runs_check(wanted, unwanted, id)),
        wanted matches Some(inc) ==> (runs_check(wanted, unwanted, id) ==> lists(inc@, id)),
        wanted is None && unwanted is None ==> runs_check(wanted, unwanted, id),
        wanted is None ==> (runs_check(wanted, unwanted, id) <==> match unwanted {
            Some(ex) => !exists|i: int| 0 <= i < ex@.len() && #[trigger] ex@[i]@ == id,
            None => true,
        }),
        wanted matches Some(inc) ==> (runs_check(wanted, unwanted, id) <==> {
            &&& exists|i: int| 0 <= i < inc@.len() && #[trigger] inc@[i]@ == id
            &&& match unwanted {
                Some(ex) => !exists|i: int| 0 <= i < ex@.len() && #[trigger] ex@[i]@ == id,
                None => true,
            }
        }),
{
}

fn any_equal(v: &Vec<String>, id: &String) -> (b: bool)
    ensures
        b == lists(v@, id@),
{
    let mut i: usize = 0;
    while i < v.len()
        invariant
            i <= v.len(),
            forall|k: int| 0 <= k < i ==> v@[k]@ != id@,
        decreases v.len() - i,
    {
        if v[i] == *id {
            return true;
        }
        i = i + 1;
    }
    false
}

impl ScanConfig {
    pub fn should_run_check(&self, check_id: &str) -> (b: bool)
        ensures
            b == runs_check(self.include_checks, self.exclude_checks, check_id@),
    {
        let id = String::from_str(check_id);
        // If exclude list contains this check, skip it
        if let Some(exclude) = &self.exclude_checks {
            if any_equal(exclude, &id) {
                return false;
            }
        }
        // If include list is specified, only run those
        if let Some(wanted) = &self.include_checks {
            return any_equal(wanted, &id);
        }
        // Default: run all checks
        true
    }
}

} // verus!
