//! Where the account store is found.

use vstd::prelude::*;

verus! {

/// The data directory of a user without one of the platform's own, below the home
/// directory.
pub const HOME_DATA_DIR: &'static str = ".local/share";

/// The file of the account store below the data directory, as the names to descend
/// through.
pub const DB_PATH: [&'static str; 2] = ["notecli", "notecli.db"];

/// Where a user's data is kept. `P` is how the platform names a directory.
#[derive(Debug)]
pub enum DataDir<P> {
    /// The directory that the platform names.
    Platform(P),
    /// [`HOME_DATA_DIR`] below this directory.
    BelowHome(String),
}

/// The directory of a user's data: the platform's own where it names one, else
/// [`HOME_DATA_DIR`] below `home`, or below the current directory where there is no
/// home.
pub fn data_dir<P>(platform: Option<P>, home: Option<String>) -> (dir: DataDir<P>)
    ensures
        match platform {
            Some(p) => dir == DataDir::Platform(p),
            None => {
                &&& dir is BelowHome
                &&& dir->BelowHome_0@ == (match home {
                    Some(h) => h@,
                    None => "."@,
                })
            },
        },
{
    match platform {
        Some(p) => DataDir::Platform(p),
        None => match home {
            Some(h) => DataDir::BelowHome(h),
            None => DataDir::BelowHome(".".to_owned()),
        },
    }
}

} // verus!
