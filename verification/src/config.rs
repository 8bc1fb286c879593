//! The build configuration: sources, counters and the template layout,
//! with the validation rules a configuration must pass before a build
//! starts. Parsing the configuration file into these types is the
//! caller's work; the rules themselves are verified here.

use vstd::prelude::*;

use crate::encodings::{encoding_known, encoding_label_known};
use crate::text::{extension_of, spec_extension, str_eq};

verus! {

/// One or several backing file names for a source.
#[derive(Debug)]
pub enum Filename {
    /// Single filename as a string
    Single(String),
    /// Multiple filenames as a list of strings
    Multiple(Vec<String>),
}

impl Default for Filename {
    fn default() -> (r: Filename)
        ensures
            r matches Filename::Single(s) && s@.len() == 0,
    {
        Filename::Single(String::new())
    }
}

/// A named auto-incrementing counter, with an optional initial value.
#[derive(Debug)]
pub struct Counter {
    /// Counter name
    pub name: String,
    /// Initial value for the counter, defaults to 0
    pub value: Option<i32>,
}

impl Default for Counter {
    fn default() -> (r: Counter)
        ensures
            r.name@.len() == 0 && r.value is None,
    {
        Counter { name: String::new(), value: None }
    }
}

/// A conditional row-selection rule.
#[derive(Debug)]
pub struct IncludeConditional {
    /// The condition to evaluate, a template-dialect expression.
    pub condition: String,
    /// Items added when the condition is true; without them, the
    /// condition is asked of every row instead.
    pub items: Option<Vec<String>>,
    /// Whether to continue evaluating further rules after this one matches.
    pub continue_: Option<bool>,
}

/// A row-selection rule: a literal key, or a conditional.
#[derive(Debug)]
pub enum Include {
    /// A single element, by name
    Element(String),
    /// A conditional rule
    Conditional(IncludeConditional),
}

/// A tabular input: its backing file(s), global row rules, and the sheet or
/// delimiter its kind calls for.
#[derive(Debug)]
pub struct Source {
    /// The filename(s) of the source data
    pub filename: Filename,
    /// Optional global row-selection rules that keep rows
    pub includes: Option<Vec<Include>>,
    /// Optional global row-selection rules that drop rows
    pub excludes: Option<Vec<Include>>,
    /// The unique identifier for this source
    pub id: String,
    /// Optional sheet name for spreadsheet files
    pub sheet: Option<String>,
    /// Optional delimiter for CSV files
    pub delimiter: Option<char>,
}

impl Default for Source {
    fn default() -> (r: Source)
        ensures
            r.filename matches Filename::Single(s) && s@.len() == 0,
            r.includes is None && r.excludes is None,
            r.id@.len() == 0,
            r.sheet is None && r.delimiter is None,
    {
        Source {
            filename: Filename::Single(String::new()),
            includes: None,
            excludes: None,
            id: String::new(),
            sheet: None,
            delimiter: None,
        }
    }
}

/// One layout entry: a template file, optionally iterated over a source.
#[derive(Debug)]
pub struct Template {
    /// The name of the template file
    pub name: String,
    /// Optional source id to iterate over for this template
    pub source: Option<String>,
    /// Optional row-selection rules that keep rows of the iterated source
    pub includes: Option<Vec<Include>>,
    /// Optional row-selection rules that drop rows of the iterated source
    pub excludes: Option<Vec<Include>>,
}

impl Default for Template {
    fn default() -> (r: Template)
        ensures
            r.name@.len() == 0,
            r.source is None && r.includes is None && r.excludes is None,
    {
        Template { name: String::new(), source: None, includes: None, excludes: None }
    }
}

/// A diagram file to process, an input the core only carries.
#[derive(Debug)]
pub struct Drawio {
    /// The diagram file to process
    pub input: String,
    /// Optional output PNG file path
    pub pngoutput: Option<String>,
    /// Optional output CSV file path for components
    pub csvoutput: Option<String>,
}

/// The whole build configuration.
#[derive(Debug)]
pub struct Config {
    /// The file that will be generated; the rendered text goes to standard
    /// output when absent.
    pub outputfile: Option<String>,
    /// The encoding for template files and the output file.
    pub encoding: String,
    /// The directory that contains all template files
    pub templatepath: String,
    /// Whether to ensure exactly one newline between rendered template files
    pub adjustspacing: bool,
    /// Whether to warn about differences from an already existing rendered
    /// file
    pub verifycontent: bool,
    /// List of global auto-incrementing counters
    pub counters: Option<Vec<Counter>>,
    /// List of source file configurations
    pub sources: Option<Vec<Source>>,
    /// List of templates in the order they should be rendered
    pub layout: Vec<Template>,
    /// List of diagram files to process
    pub drawio: Option<Vec<Drawio>>,
}

/// Which way a rule list is applied.
#[derive(Clone, Copy, Debug, PartialEq, Eq, Structural)]
pub enum IncludeExclude {
    Include,
    Exclude,
}

/// Why a configuration was rejected.
#[derive(Debug)]
pub enum ConfigError {
    /// A spreadsheet source without a sheet name.
    MissingSheet(String),
    /// A spreadsheet source with a CSV delimiter.
    InvalidDelimiter(String),
    /// A CSV source with a sheet name.
    InvalidSheet(String),
    /// A source file of an unsupported kind.
    InvalidExtension(String),
    /// A multi-file source with a file that is not CSV.
    MultiNotCsv(String),
    /// A multi-file source with a sheet name.
    MultiInvalidSheet(String),
    /// An encoding label no encoding is known under.
    UnknownEncoding(String),
}

impl ConfigError {
    /// The human-readable report of this rejection.
    pub fn message(&self) -> (r: String)
        ensures
            self matches ConfigError::MissingSheet(id) ==> r@
                == "missing field 'sheet' for .xlsx source '"@ + id@ + "'"@,
            self matches ConfigError::InvalidDelimiter(id) ==> r@
                == "field 'delimiter' invalid for .xlsx source '"@ + id@ + "'"@,
            self matches ConfigError::InvalidSheet(id) ==> r@
                == "field 'sheet' invalid for .csv source '"@ + id@ + "'"@,
            self matches ConfigError::InvalidExtension(id) ==> r@
                == "invalid file extension for source '"@ + id@ + "'"@,
            self matches ConfigError::MultiNotCsv(id) ==> r@
                == "All files in multi-file source '"@ + id@ + "' must be .csv"@,
            self matches ConfigError::MultiInvalidSheet(id) ==> r@
                == "field 'sheet' invalid for .csv sources in '"@ + id@ + "'"@,
            self matches ConfigError::UnknownEncoding(label) ==> r@ == "invalid encoding '"@
                + label@ + "'"@,
    {
        match self {
            ConfigError::MissingSheet(id) => {
                let mut m = "missing field 'sheet' for .xlsx source '".to_owned();
                m.append(id.as_str());
                m.append("'");
                m
            },
            ConfigError::InvalidDelimiter(id) => {
                let mut m = "field 'delimiter' invalid for .xlsx source '".to_owned();
                m.append(id.as_str());
                m.append("'");
                m
            },
            ConfigError::InvalidSheet(id) => {
                let mut m = "field 'sheet' invalid for .csv source '".to_owned();
                m.append(id.as_str());
                m.append("'");
                m
            },
            ConfigError::InvalidExtension(id) => {
                let mut m = "invalid file extension for source '".to_owned();
                m.append(id.as_str());
                m.append("'");
                m
            },
            ConfigError::MultiNotCsv(id) => {
                let mut m = "All files in multi-file source '".to_owned();
                m.append(id.as_str());
                m.append("' must be .csv");
                m
            },
            ConfigError::MultiInvalidSheet(id) => {
                let mut m = "field 'sheet' invalid for .csv sources in '".to_owned();
                m.append(id.as_str());
                m.append("'");
                m
            },
            ConfigError::UnknownEncoding(label) => {
                let mut m = "invalid encoding '".to_owned();
                m.append(label.as_str());
                m.append("'");
                m
            },
        }
    }
}

/// The shape a source must have: a spreadsheet file needs a sheet and
/// forbids a delimiter, a CSV file forbids a sheet, a multi-file source is
/// CSV throughout and forbids a sheet.
pub open spec fn spec_source_ok(s: &Source) -> bool {
    match s.filename {
        Filename::Single(f) => if spec_extension(f@) == Some("xlsx"@) {
            s.sheet is Some && s.delimiter is None
        } else if spec_extension(f@) == Some("csv"@) {
            s.sheet is None
        } else {
            false
        },
        Filename::Multiple(fs) => (forall|i: int|
            0 <= i < fs@.len() ==> spec_extension((#[trigger] fs@[i])@) == Some("csv"@))
            && s.sheet is None,
    }
}

/// Checks one source's shape, reporting the first broken rule with the
/// source's id.
#[verifier::loop_isolation(false)]
pub fn validate_source(source: &Source) -> (r: Result<(), ConfigError>)
    ensures
        r is Ok <==> spec_source_ok(source),
        r matches Err(e) ==> match e {
            ConfigError::MissingSheet(id) => id@ == source.id@ && (source.filename matches
                Filename::Single(f) && spec_extension(f@) == Some("xlsx"@)) && source.sheet
                is None,
            ConfigError::InvalidDelimiter(id) => id@ == source.id@ && (source.filename matches
                Filename::Single(f) && spec_extension(f@) == Some("xlsx"@)) && source.sheet
                is Some && source.delimiter is Some,
            ConfigError::InvalidSheet(id) => id@ == source.id@ && (source.filename matches
                Filename::Single(f) && spec_extension(f@) == Some("csv"@)) && source.sheet
                is Some,
            ConfigError::InvalidExtension(id) => id@ == source.id@ && (source.filename matches
                Filename::Single(f) && spec_extension(f@) != Some("xlsx"@) && spec_extension(
                f@,
            ) != Some("csv"@)),
            ConfigError::MultiNotCsv(id) => id@ == source.id@ && (source.filename matches
                Filename::Multiple(fs) && exists|i: int|
                0 <= i < fs@.len() && spec_extension((#[trigger] fs@[i])@) != Some("csv"@)),
            ConfigError::MultiInvalidSheet(id) => id@ == source.id@ && (source.filename matches
                Filename::Multiple(fs) && forall|i: int|
                0 <= i < fs@.len() ==> spec_extension((#[trigger] fs@[i])@) == Some("csv"@))
                && source.sheet is Some,
            _ => false,
        },
{
    match &source.filename {
        Filename::Single(filename) => {
            let ext = extension_of(filename.as_str());
            let is_xlsx = match &ext {
                Some(e) => str_eq(e.as_str(), "xlsx"),
                None => false,
            };
            let is_csv = match &ext {
                Some(e) => str_eq(e.as_str(), "csv"),
                None => false,
            };
            if is_xlsx {
                if source.sheet.is_none() {
                    Err(ConfigError::MissingSheet(source.id.clone()))
                } else if source.delimiter.is_some() {
                    Err(ConfigError::InvalidDelimiter(source.id.clone()))
                } else {
                    Ok(())
                }
            } else if is_csv {
                if source.sheet.is_some() {
                    Err(ConfigError::InvalidSheet(source.id.clone()))
                } else {
                    Ok(())
                }
            } else {
                Err(ConfigError::InvalidExtension(source.id.clone()))
            }
        },
        Filename::Multiple(filenames) => {
            let n = filenames.len();
            let mut i: usize = 0;
            while i < n
                invariant
                    i <= n,
                    forall|j: int|
                        0 <= j < i ==> spec_extension((#[trigger] filenames@[j])@) == Some(
                            "csv"@,
                        ),
                decreases n - i,
            {
                let ext = extension_of(filenames[i].as_str());
                let ok = match &ext {
                    Some(e) => str_eq(e.as_str(), "csv"),
                    None => false,
                };
                if !ok {
                    return Err(ConfigError::MultiNotCsv(source.id.clone()));
                }
                i = i + 1;
            }
            if source.sheet.is_some() {
                Err(ConfigError::MultiInvalidSheet(source.id.clone()))
            } else {
                Ok(())
            }
        },
    }
}

/// Checks that an encoding label names a known encoding.
pub fn validate_encoding(encoding: &str) -> (r: Result<(), ConfigError>)
    ensures
        r is Ok <==> encoding_label_known(encoding@),
        r matches Err(e) ==> e matches ConfigError::UnknownEncoding(l) && l@ == encoding@,
{
    if encoding_known(encoding) {
        Ok(())
    } else {
        Err(ConfigError::UnknownEncoding(encoding.to_owned()))
    }
}

impl Config {
    /// Checks every source's shape and the encoding label; a parsed
    /// configuration must pass before a build uses it.
    #[verifier::loop_isolation(false)]
    pub fn validate(&self) -> (r: Result<(), ConfigError>)
        ensures
            r is Ok <==> ((match self.sources {
                Some(srcs) => forall|i: int|
                    0 <= i < srcs@.len() ==> spec_source_ok(&(#[trigger] srcs@[i])),
                None => true,
            }) && encoding_label_known(self.encoding@)),
    {
        if let Some(sources) = &self.sources {
            let n = sources.len();
            let mut i: usize = 0;
            while i < n
                invariant
                    i <= n,
                    n == sources@.len(),
                    forall|j: int| 0 <= j < i ==> spec_source_ok(&(#[trigger] sources@[j])),
                decreases n - i,
            {
                if let Err(e) = validate_source(&sources[i]) {
                    return Err(e);
                }
                i = i + 1;
            }
        }
        match validate_encoding(self.encoding.as_str()) {
            Err(e) => Err(e),
            Ok(()) => Ok(()),
        }
    }
}

} // verus!
