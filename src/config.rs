use vstd::prelude::*;

use crate::reconcile::Outcome;

verus! {

/// Where to reach the remote catalog, and with which key.
pub struct Config {
    /// Key for the catalog's admin API.
    pub shopify_access_token: String,
    /// The admin host of the business, without scheme.
    pub business_url: String,
    /// The public host of the storefront, without scheme.
    pub storefront_url: String,
    /// The version of the admin API to use, such as "2024-10".
    pub api_version: String,
}

impl Config {
    /// The address of the admin GraphQL endpoint.
    pub fn graphql_url(&self) -> (r: String)
        ensures
            r@ == "https://"@ + self.business_url@ + "/admin/api/"@ + self.api_version@
                + "/graphql.json"@,
    {
        let mut url = String::from_str("https://");
        url.append(self.business_url.as_str());
        url.append("/admin/api/");
        url.append(self.api_version.as_str());
        url.append("/graphql.json");
        url
    }
}

/// The options of one run.
pub struct Cli {
    /// Write the logs to files beside the program instead of to standard output.
    pub write_logs: bool,
    /// The path of the item report.
    pub item_data: String,
    /// The path of the posted report.
    pub posted_data: String,
    /// The path of the configuration file.
    pub config: String,
    /// Decide and log everything, but send no change to the catalog.
    pub dry_run: bool,
}

/// The logs that outcomes and errors go to.
#[derive(Debug, Clone, Copy, PartialEq, Eq, Structural)]
pub enum Log {
    /// Errors.
    Error,
    /// Listings whose price was raised.
    Adjusted,
    /// Listings whose price already agrees.
    Equal,
    /// Listings whose price is above the local one and was left alone.
    Greater,
    /// Listings with no local product.
    NotFound,
    /// Listings whose barcode belongs to more than one local product.
    DuplicateAbcUpcs,
}

/// The file, beside the program, that a log is written to.
pub open spec fn log_file_name(log: Log) -> Seq<char> {
    match log {
        Log::Error => "logs/error.txt"@,
        Log::Adjusted => "logs/adjusted.txt"@,
        Log::Equal => "logs/not_adjusted_equal.txt"@,
        Log::Greater => "logs/not_adjusted_greater.txt"@,
        Log::NotFound => "logs/not_found.txt"@,
        Log::DuplicateAbcUpcs => "logs/duplicate_abc_upcs.txt"@,
    }
}

impl Log {
    /// The file, beside the program, that this log is written to.
    pub fn file_name(&self) -> (r: &'static str)
        ensures
            r@ == log_file_name(*self),
    {
        match self {
            Log::Error => "logs/error.txt",
            Log::Adjusted => "logs/adjusted.txt",
            Log::Equal => "logs/not_adjusted_equal.txt",
            Log::Greater => "logs/not_adjusted_greater.txt",
            Log::NotFound => "logs/not_found.txt",
            Log::DuplicateAbcUpcs => "logs/duplicate_abc_upcs.txt",
        }
    }
}

/// The log an outcome belongs in.
pub open spec fn outcome_log(o: Outcome) -> Log {
    match o {
        Outcome::Adjusted(_) => Log::Adjusted,
        Outcome::Equal(_) => Log::Equal,
        Outcome::Greater(_) => Log::Greater,
        Outcome::NotFound { .. } => Log::NotFound,
        Outcome::DuplicateUpc { .. } => Log::DuplicateAbcUpcs,
        Outcome::MalformedListing(_) => Log::Error,
    }
}

impl Outcome {
    /// The log this outcome belongs in.
    pub fn log(&self) -> (r: Log)
        ensures
            r == outcome_log(*self),
    {
        match self {
            Outcome::Adjusted(_) => Log::Adjusted,
            Outcome::Equal(_) => Log::Equal,
            Outcome::Greater(_) => Log::Greater,
            Outcome::NotFound { .. } => Log::NotFound,
            Outcome::DuplicateUpc { .. } => Log::DuplicateAbcUpcs,
            Outcome::MalformedListing(_) => Log::Error,
        }
    }
}

} // verus!
