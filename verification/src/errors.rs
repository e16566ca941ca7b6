use vstd::prelude::*;
use vstd::string::StringExecFns;

verus! {

/// An I/O failure, always tagged with the path it concerns.
#[derive(Debug, Clone)]
pub struct PathedIoError {
    pub path: String,
    pub message: String,
}

impl PathedIoError {
    pub fn new(path: &str, message: &str) -> (r: Self)
        ensures
            r.path@ == path@,
            r.message@ == message@,
    {
        PathedIoError { path: String::from_str(path), message: String::from_str(message) }
    }

    /// The rendering used in diagnostics: the message, then the path in
    /// parentheses.
    pub fn display_string(&self) -> (r: String)
        ensures
            r@ == self.message@ + " ("@ + self.path@ + ")"@,
    {
        let mut out = self.message.clone();
        out.append(" (");
        out.append(self.path.as_str());
        out.append(")");
        out
    }
}

/// A test name holding characters unsafe for command-line filtering.
#[derive(Debug, Clone)]
pub struct InvalidTestNameError(pub String);

impl InvalidTestNameError {
    /// The rendering used in diagnostics.
    pub fn display_string(&self) -> (r: String)
        ensures
            r@ == "Invalid test name ("@ + self.0@
                + "). Use only alphanumeric and underscore characters so tests can be filtered via the command line."@,
    {
        let mut out = String::from_str("Invalid test name (");
        out.append(self.0.as_str());
        out.append(
            "). Use only alphanumeric and underscore characters so tests can be filtered via the command line.",
        );
        out
    }
}

/// Why a collection run failed, one variant per failure kind.
#[derive(Debug)]
pub enum CollectTestsError {
    /// A test name holds characters unsafe for substring filtering.
    InvalidTestName(InvalidTestNameError),
    /// A filesystem operation failed, with the offending path.
    Io(PathedIoError),
    /// The file pattern of the per-file strategy does not compile.
    InvalidPattern { pattern: String },
    /// Collection yielded a tree with no tests, before any filtering.
    NoTestsFound,
    /// A non-empty directory branch holds neither sub-directories nor the
    /// marker file the per-directory strategy looks for.
    MissingDirectoryTestFile { dir_path: String, file_name: String },
    /// A strategy-specific failure, carried as its own message.
    Other { message: String },
}

impl CollectTestsError {
    /// The rendering used in diagnostics, one fixed text per variant.
    pub fn display_string(&self) -> (r: String)
        ensures
            (match self {
                CollectTestsError::InvalidTestName(e) => r@ == "Invalid test name ("@ + e.0@
                    + "). Use only alphanumeric and underscore characters so tests can be filtered via the command line."@,
                CollectTestsError::Io(e) => r@ == e.message@ + " ("@ + e.path@ + ")"@,
                CollectTestsError::InvalidPattern { pattern } => r@ == "Invalid file pattern ("@
                    + pattern@ + ")"@,
                CollectTestsError::NoTestsFound => r@ == "No tests found"@,
                CollectTestsError::MissingDirectoryTestFile { dir_path, file_name } => r@
                    == "Could not find '"@ + file_name@ + "' in directory tree '"@ + dir_path@
                    + "'. Perhaps the file is named incorrectly."@,
                CollectTestsError::Other { message } => r@ == message@,
            }),
    {
        match self {
            CollectTestsError::InvalidTestName(e) => e.display_string(),
            CollectTestsError::Io(e) => e.display_string(),
            CollectTestsError::InvalidPattern { pattern } => {
                let mut out = String::from_str("Invalid file pattern (");
                out.append(pattern.as_str());
                out.append(")");
                out
            }
            CollectTestsError::NoTestsFound => String::from_str("No tests found"),
            CollectTestsError::MissingDirectoryTestFile { dir_path, file_name } => {
                let mut out = String::from_str("Could not find '");
                out.append(file_name.as_str());
                out.append("' in directory tree '");
                out.append(dir_path.as_str());
                out.append("'. Perhaps the file is named incorrectly.");
                out
            }
            CollectTestsError::Other { message } => message.clone(),
        }
    }
}

} // verus!
