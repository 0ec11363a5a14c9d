use vstd::prelude::*;

verus! {

/// The command line: one action and a verbosity switch.
#[derive(Debug)]
pub struct ArgsParser {
    pub action_type: EntityType,
    /// Verbose output.
    pub verbose: bool,
}

/// The actions.
#[derive(Debug)]
pub enum EntityType {
    /// Sort the source by any combination of patient identifier, patient name and modality.
    Sort(SortCommand),
    /// Anonymize the source: each subject gets a generated identity.
    Anon(AnonCommand),
    /// Deidentify the source against a mapping table.
    Deid(DeidCommand),
    /// Report on a sorted dataset (not provided).
    Report(ReportCommand),
}

/// Arguments of the sort action.
#[derive(Debug)]
pub struct SortCommand {
    /// Any combination of `I` (patient identifier), `N` (patient name) and `M` (modality).
    pub sort_order: String,
    /// Source directory, indexed recursively.
    pub source: String,
    /// Destination directory, created as needed.
    pub destination: String,
}

/// Arguments of the anonymize action.
#[derive(Debug)]
pub struct AnonCommand {
    /// Source directory, indexed recursively.
    pub source: String,
    /// Destination directory, created as needed.
    pub destination: String,
    /// Tag put before each generated identity.
    pub prefix: String,
}

/// Arguments of the deidentify action.
#[derive(Debug)]
pub struct DeidCommand {
    /// Mapping table, one `DEID,PatientID` line per subject.
    pub mapping_table: String,
    /// Source directory, indexed recursively.
    pub source: String,
    /// Destination directory, created as needed.
    pub destination: String,
}

/// Arguments of the report action.
#[derive(Debug)]
pub struct ReportCommand {
    /// Source directory, indexed recursively.
    pub source: String,
    /// Destination of the report.
    pub destination: String,
}

} // verus!
