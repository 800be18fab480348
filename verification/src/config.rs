//! The settings of one run.

use vstd::prelude::*;
use vstd::string::*;
use crate::status::Status;

verus! {

/// What one run is told: the year and the least stage of the projects to seed, the
/// root under which the project directories stand, the seed directory, and how to
/// reach the database.
#[derive(Debug)]
pub struct Cli {
    /// The year of the projects to look for.
    pub year: i32,
    /// The name of the least stage a project must have reached.
    pub min_status: String,
    /// The directory under which the project directories stand.
    pub root_dir: String,
    /// The directory that is copied to make a new project directory.
    pub seed_dir: String,
    /// The host of the database.
    pub db_host: String,
    /// The port of the database.
    pub db_port: String,
    /// The name of the database.
    pub db_name: String,
    /// The user to connect as.
    pub db_user: String,
    /// The password of that user.
    pub db_pass: String,
}

impl Cli {
    /// The text that tells the database driver where to connect: the five
    /// settings under their keys, with one space between them.
    pub open spec fn connection_text(&self) -> Seq<char> {
        "host="@ + self.db_host@ + " port="@ + self.db_port@ + " dbname="@ + self.db_name@
            + " user="@ + self.db_user@ + " password="@ + self.db_pass@
    }

    /// The text that tells the database driver where to connect.
    pub fn connection_string(&self) -> (text: String)
        ensures
            text@ == self.connection_text(),
    {
        let mut text = String::from_str("host=");
        text.append(self.db_host.as_str());
        text.append(" port=");
        text.append(self.db_port.as_str());
        text.append(" dbname=");
        text.append(self.db_name.as_str());
        text.append(" user=");
        text.append(self.db_user.as_str());
        text.append(" password=");
        text.append(self.db_pass.as_str());
        text
    }

    /// The least stage that a project must have reached, read from `min_status`
    /// whatever the case of its letters; `None` where `min_status` names no stage.
    pub fn min_status_level(&self) -> (level: Option<Status>)
        ensures
            level == Status::named(self.min_status@),
    {
        Status::parse(self.min_status.as_str())
    }
}

} // verus!
