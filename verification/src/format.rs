//! Command-line data model: the output format and the parsed invocation.
//!
//! Argument reading itself happens outside the library; it hands over the
//! plain values these types carry.

use vstd::prelude::*;

verus! {

/// How results are printed.
#[derive(Clone, Copy, Debug, PartialEq, Eq, Structural)]
pub enum OutputFormat {
    /// Human-readable table.
    Table,
    /// JSON.
    Json,
    /// Comma-separated values.
    Csv,
    /// Tab-separated values.
    Tsv,
}

/// `c` matches `d` up to ASCII case, where `d` is lower case.
pub open spec fn lower_matches(c: char, d: char) -> bool {
    ||| c == d
    ||| ('A' as u32 <= c as u32 <= 'Z' as u32 && c as u32 + 32 == d as u32)
}

/// `a` equals the lower-case word `b` up to ASCII case.
pub open spec fn lower_eq(a: Seq<char>, b: Seq<char>) -> bool {
    a.len() == b.len() && forall|i: int| 0 <= i < a.len() ==> lower_matches(#[trigger] a[i], b[i])
}

/// Which format a word names, matched without regard to ASCII case.
pub open spec fn spec_parse_format(s: Seq<char>) -> Option<OutputFormat> {
    if lower_eq(s, "table"@) {
        Some(OutputFormat::Table)
    } else if lower_eq(s, "json"@) {
        Some(OutputFormat::Json)
    } else if lower_eq(s, "csv"@) {
        Some(OutputFormat::Csv)
    } else if lower_eq(s, "tsv"@) {
        Some(OutputFormat::Tsv)
    } else {
        None
    }
}

/// Whether `a` equals the lower-case word `b` up to ASCII case.
fn eq_lower(a: &str, b: &str) -> (r: bool)
    ensures
        r == lower_eq(a@, b@),
{
    let na = a.unicode_len();
    let nb = b.unicode_len();
    if na != nb {
        return false;
    }
    let mut i: usize = 0;
    while i < na
        invariant
            i <= na,
            na == a@.len(),
            na == b@.len(),
            forall|j: int| 0 <= j < i ==> lower_matches(#[trigger] a@[j], b@[j]),
        decreases na - i,
    {
        let ca = a.get_char(i);
        let cb = b.get_char(i);
        let cau = ca as u32;
        let cbu = cb as u32;
        if !(cau == cbu || ('A' as u32 <= cau && cau <= 'Z' as u32 && cau + 32 == cbu)) {
            assert(!lower_matches(a@[i as int], b@[i as int]));
            return false;
        }
        i += 1;
    }
    true
}

/// The error text for a word that names no format.
pub open spec fn format_err_chars(s: Seq<char>) -> Seq<char> {
    "Unknown format: "@ + s + ". Valid options are: [\"table\", \"json\", \"csv\", \"tsv\"]"@
}

/// Parse a format name, without regard to ASCII case. Exactly the words
/// naming a format are accepted; anything else is refused with an
/// explanatory message.
pub fn parse_format(s: &str) -> (r: Result<OutputFormat, String>)
    ensures
        match r {
            Ok(f) => spec_parse_format(s@) == Some(f),
            Err(e) => spec_parse_format(s@) is None && e@ == format_err_chars(s@),
        },
{
    if eq_lower(s, "table") {
        Ok(OutputFormat::Table)
    } else if eq_lower(s, "json") {
        Ok(OutputFormat::Json)
    } else if eq_lower(s, "csv") {
        Ok(OutputFormat::Csv)
    } else if eq_lower(s, "tsv") {
        Ok(OutputFormat::Tsv)
    } else {
        let mut e = String::new();
        e.append("Unknown format: ");
        e.append(s);
        e.append(". Valid options are: [\"table\", \"json\", \"csv\", \"tsv\"]");
        proof {
            assert(e@ =~= format_err_chars(s@));
        }
        Err(e)
    }
}

impl OutputFormat {
    /// The words naming the formats, in their fixed order.
    pub fn names() -> (r: Vec<&'static str>)
        ensures
            r@.len() == 4,
            r@[0]@ == "table"@,
            r@[1]@ == "json"@,
            r@[2]@ == "csv"@,
            r@[3]@ == "tsv"@,
    {
        let mut r: Vec<&'static str> = Vec::new();
        r.push("table");
        r.push("json");
        r.push("csv");
        r.push("tsv");
        r
    }

    /// The word naming this format.
    pub fn format_name(&self) -> (r: String)
        ensures
            r@ == match *self {
                OutputFormat::Table => "table"@,
                OutputFormat::Json => "json"@,
                OutputFormat::Csv => "csv"@,
                OutputFormat::Tsv => "tsv"@,
            },
    {
        match self {
            OutputFormat::Table => String::from_str("table"),
            OutputFormat::Json => String::from_str("json"),
            OutputFormat::Csv => String::from_str("csv"),
            OutputFormat::Tsv => String::from_str("tsv"),
        }
    }
}

impl Default for OutputFormat {
    fn default() -> (r: Self)
        ensures
            r == OutputFormat::Table,
    {
        OutputFormat::Table
    }
}

impl core::str::FromStr for OutputFormat {
    type Err = String;

    fn from_str(s: &str) -> Result<Self, String> {
        parse_format(s)
    }
}

/// The parsed command line.
#[derive(Clone, Debug)]
pub struct Cli {
    /// Verbose logging requested.
    pub verbose: bool,
    /// Quiet mode: only errors.
    pub quiet: bool,
    /// Output format for results.
    pub format: OutputFormat,
    /// The chosen command, if any.
    pub command: Option<Commands>,
}

/// The commands the tool offers.
#[derive(Clone, Debug)]
pub enum Commands {
    /// Launch the interactive view.
    Interactive {
        /// Custom target list file.
        file: Option<String>,
    },
    /// Probe the targets and print results.
    Speed {
        /// Custom target list file.
        file: Option<String>,
        /// Echo attempts per target.
        count: usize,
        /// Per-attempt timeout in seconds.
        timeout: u64,
        /// Targets given inline, in the shape `IP#Name`.
        dns_servers: Vec<String>,
        /// Sort the results by latency, fastest first.
        sort_by_latency: bool,
    },
    /// Check a domain for pollution.
    Check {
        /// Domain to check.
        domain: String,
        /// File of further domains.
        file: Option<String>,
    },
    /// List the known targets.
    List {
        /// Custom target list file.
        file: Option<String>,
        /// Keep only IPv4 targets.
        ipv4_only: bool,
        /// Keep only IPv6 targets.
        ipv6_only: bool,
    },
    /// Fetch a fresh target list.
    Update {
        /// Source address of the list.
        url: Option<String>,
        /// Where to write it.
        output: Option<String>,
    },
    /// Write the merged target list to a file.
    Export {
        /// Where to write it.
        output: String,
        /// Include IPv6 targets.
        include_ipv6: bool,
    },
}

} // verus!
