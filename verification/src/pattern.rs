//! Names of table source files: the patterns that recognise them and the
//! metadata read from a name.

use vstd::prelude::*;
use vstd::string::StringExecFns;
use regex::Regex;
use crate::config::ConfigurablePattern;
use crate::tables::{str_text, text_of};
use crate::text::{decimal, decimal_string, parse_u32, parsed_u32, str_eq};

verus! {

// A compiled regular expression of `regex`, carried through as it is.
#[verifier::external_type_specification]
#[verifier::external_body]
pub struct ExRegex(regex::Regex);

// The pattern that a compiled expression was made from.
pub uninterp spec fn regex_source(re: Regex) -> Seq<char>;

// Whether a pattern is a valid regular expression.
pub uninterp spec fn regex_compiles(pattern: Seq<char>) -> bool;

// The capture groups of the leftmost match of a pattern in a text, group 0
// being the whole match, or `None` where the pattern does not match.
pub uninterp spec fn regex_groups(pattern: Seq<char>, text: Seq<char>) -> Option<
    Seq<Option<Seq<char>>>,
>;

/// The texts of the capture groups of a match.
pub open spec fn groups_text(groups: Option<Vec<Option<String>>>) -> Option<Seq<Option<Seq<char>>>> {
    match groups {
        Some(v) => Some(v@.map_values(|g: Option<String>| text_of(g))),
        None => None,
    }
}

/// `Regex::new` of `regex`: the compiled expression of a valid pattern,
/// `None` for an invalid one.
#[verifier::external_body]
pub(crate) fn regex_new(pattern: &str) -> (r: Option<Regex>)
    ensures
        r is Some <==> regex_compiles(pattern@),
        r is Some ==> regex_source(r->0) == pattern@,
{
    Regex::new(pattern).ok()
}

/// `Regex::captures` of `regex`: the capture groups of the leftmost match
/// in the text, each as an owned string, or `None` without a match.
#[verifier::external_body]
pub(crate) fn regex_captures(re: &Regex, text: &str) -> (r: Option<Vec<Option<String>>>)
    ensures
        groups_text(r) == regex_groups(regex_source(*re), text@),
{
    re.captures(text).map(
        |caps| caps.iter().map(|group| group.map(|m| m.as_str().to_string())).collect(),
    )
}

/// The type of a table.
#[derive(Clone, Copy, Debug, PartialEq, Eq, Structural)]
pub enum TableKind {
    B,
    D,
}

impl TableKind {
    pub fn as_str(&self) -> (r: &str)
        ensures
            r@ == (match self {
                TableKind::B => "b"@,
                TableKind::D => "d"@,
            }),
    {
        match self {
            TableKind::B => "b",
            TableKind::D => "d",
        }
    }
}

/// What the name of a table file says of the table.
#[derive(Clone, Debug, PartialEq, Eq)]
pub struct TableMetadata {
    /// Table type (B or D)
    pub kind: TableKind,
    /// Version number (35 for `BUFRCREX_TableB_en_35.csv`)
    pub version: Option<u32>,
    /// Subcenter ID (for local tables)
    pub subcenter: Option<u32>,
    /// Originating center ID (for local tables)
    pub center: Option<u32>,
    /// Language code ("en")
    pub language: Option<String>,
    /// Whether this is a local table
    pub is_local: bool,
    /// The filename as it was matched
    pub filename: String,
}

pub struct MetadataModel {
    pub kind: TableKind,
    pub version: Option<u32>,
    pub subcenter: Option<u32>,
    pub center: Option<u32>,
    pub language: Option<Seq<char>>,
    pub is_local: bool,
    pub filename: Seq<char>,
}

impl View for TableMetadata {
    type V = MetadataModel;

    open spec fn view(&self) -> MetadataModel {
        MetadataModel {
            kind: self.kind,
            version: self.version,
            subcenter: self.subcenter,
            center: self.center,
            language: text_of(self.language),
            is_local: self.is_local,
            filename: self.filename@,
        }
    }
}

/// The view of optional metadata.
pub open spec fn metadata_view(m: Option<TableMetadata>) -> Option<MetadataModel> {
    match m {
        Some(x) => Some(x@),
        None => None,
    }
}

/// The number a missing version or subcenter counts as.
pub open spec fn or_zero(v: Option<u32>) -> nat {
    match v {
        Some(n) => n as nat,
        None => 0,
    }
}

/// The name of the catalog file made from a table:
/// `BUFR_Table{B|D}_{version}`, or for a local table with a subcenter
/// `BUFR_Table{B|D}_{subcenter}_{version}`. A missing version counts as 0.
pub open spec fn output_name_of(m: MetadataModel) -> Seq<char> {
    let kind = match m.kind {
        TableKind::B => "TableB"@,
        TableKind::D => "TableD"@,
    };
    if m.is_local && m.subcenter is Some {
        "BUFR_"@ + kind + "_"@ + decimal(or_zero(m.subcenter)) + "_"@ + decimal(or_zero(m.version))
    } else {
        "BUFR_"@ + kind + "_"@ + decimal(or_zero(m.version))
    }
}

impl TableMetadata {
    /// The name of the catalog file made from this table.
    pub fn output_name(&self) -> (r: String)
        ensures
            r@ == output_name_of(self@),
    {
        let kind = match self.kind {
            TableKind::B => "TableB",
            TableKind::D => "TableD",
        };
        let version: u32 = match self.version {
            Some(v) => v,
            None => 0,
        };
        let mut name = String::from_str("BUFR_");
        name.append(kind);
        name.append("_");
        match self.subcenter {
            Some(subcenter) => {
                if self.is_local {
                    let digits = decimal_string(subcenter as u64);
                    name.append(digits.as_str());
                    name.append("_");
                }
            },
            None => {},
        }
        let digits = decimal_string(version as u64);
        name.append(digits.as_str());
        name
    }
}

/// The text of capture group `idx`, if the match has such a group and it
/// took part in the match.
pub open spec fn group_at(groups: Seq<Option<Seq<char>>>, idx: int) -> Option<Seq<char>> {
    if 0 <= idx < groups.len() {
        groups[idx]
    } else {
        None
    }
}

/// The number in capture group `idx`.
pub open spec fn number_at(groups: Seq<Option<Seq<char>>>, idx: int) -> Option<u32> {
    match group_at(groups, idx) {
        Some(text) => parsed_u32(vstd::utf8::encode_utf8(text)),
        None => None,
    }
}

/// The table kind that a letter names: `B` or `D`, in the given case or in
/// either.
pub open spec fn kind_of_letter(text: Seq<char>, upper: bool, lower: bool) -> Option<TableKind> {
    if (upper && text == "B"@) || (lower && text == "b"@) {
        Some(TableKind::B)
    } else if (upper && text == "D"@) || (lower && text == "d"@) {
        Some(TableKind::D)
    } else {
        None
    }
}

/// The table kind in capture group `idx`.
pub open spec fn kind_at(groups: Seq<Option<Seq<char>>>, idx: int, upper: bool, lower: bool)
    -> Option<TableKind> {
    match group_at(groups, idx) {
        Some(text) => kind_of_letter(text, upper, lower),
        None => None,
    }
}

pub fn group<'a>(groups: &'a Vec<Option<String>>, idx: usize) -> (r: Option<&'a str>)
    ensures
        str_text(r) == group_at(groups_text(Some(*groups))->0, idx as int),
{
    if idx < groups.len() {
        match &groups[idx] {
            Some(s) => Some(s.as_str()),
            None => None,
        }
    } else {
        None
    }
}

pub fn group_number(groups: &Vec<Option<String>>, idx: usize) -> (r: Option<u32>)
    ensures
        r == number_at(groups_text(Some(*groups))->0, idx as int),
{
    match group(groups, idx) {
        Some(text) => parse_u32(text),
        None => None,
    }
}

pub fn group_kind(groups: &Vec<Option<String>>, idx: usize, upper: bool, lower: bool) -> (r: Option<
    TableKind,
>)
    ensures
        r == kind_at(groups_text(Some(*groups))->0, idx as int, upper, lower),
{
    match group(groups, idx) {
        Some(text) => {
            if (upper && str_eq(text, "B")) || (lower && str_eq(text, "b")) {
                Some(TableKind::B)
            } else if (upper && str_eq(text, "D")) || (lower && str_eq(text, "d")) {
                Some(TableKind::D)
            } else {
                None
            }
        },
        None => None,
    }
}

/// The metadata of a WMO table name, from the groups of its match: kind,
/// language and version.
pub open spec fn wmo_metadata(groups: Seq<Option<Seq<char>>>, filename: Seq<char>) -> Option<
    MetadataModel,
> {
    match (kind_at(groups, 1, true, false), group_at(groups, 2), number_at(groups, 3)) {
        (Some(kind), Some(language), Some(version)) => Some(
            MetadataModel {
                kind,
                version: Some(version),
                subcenter: None,
                center: None,
                language: Some(language),
                is_local: false,
                filename,
            },
        ),
        _ => None,
    }
}

/// The metadata of a local table name: kind, subcenter and version.
pub open spec fn local_metadata(groups: Seq<Option<Seq<char>>>, filename: Seq<char>) -> Option<
    MetadataModel,
> {
    match (kind_at(groups, 1, false, true), number_at(groups, 2), number_at(groups, 3)) {
        (Some(kind), Some(subcenter), Some(version)) => Some(
            MetadataModel {
                kind,
                version: Some(version),
                subcenter: Some(subcenter),
                center: None,
                language: None,
                is_local: true,
                filename,
            },
        ),
        _ => None,
    }
}

/// The metadata of an old master table name: kind and version.
pub open spec fn old_master_metadata(groups: Seq<Option<Seq<char>>>, filename: Seq<char>)
    -> Option<MetadataModel> {
    match (kind_at(groups, 1, false, true), number_at(groups, 2)) {
        (Some(kind), Some(version)) => Some(
            MetadataModel {
                kind,
                version: Some(version),
                subcenter: None,
                center: None,
                language: None,
                is_local: false,
                filename,
            },
        ),
        _ => None,
    }
}

/// The metadata of a center/subcenter table name: center, subcenter, kind
/// and version.
pub open spec fn custom_metadata(groups: Seq<Option<Seq<char>>>, filename: Seq<char>) -> Option<
    MetadataModel,
> {
    match (
        number_at(groups, 1),
        number_at(groups, 2),
        kind_at(groups, 3, true, true),
        number_at(groups, 4),
    ) {
        (Some(center), Some(subcenter), Some(kind), Some(version)) => Some(
            MetadataModel {
                kind,
                version: Some(version),
                subcenter: Some(subcenter),
                center: Some(center),
                language: None,
                is_local: true,
                filename,
            },
        ),
        _ => None,
    }
}

pub fn wmo_from_groups(groups: &Vec<Option<String>>, filename: &str) -> (r: Option<TableMetadata>)
    ensures
        metadata_view(r) == wmo_metadata(groups_text(Some(*groups))->0, filename@),
{
    let kind = match group_kind(groups, 1, true, false) {
        Some(k) => k,
        None => {
            return None;
        },
    };
    let language = match group(groups, 2) {
        Some(l) => String::from_str(l),
        None => {
            return None;
        },
    };
    let version = match group_number(groups, 3) {
        Some(v) => v,
        None => {
            return None;
        },
    };
    Some(
        TableMetadata {
            kind,
            version: Some(version),
            subcenter: None,
            center: None,
            language: Some(language),
            is_local: false,
            filename: String::from_str(filename),
        },
    )
}

pub fn local_from_groups(groups: &Vec<Option<String>>, filename: &str) -> (r: Option<
    TableMetadata,
>)
    ensures
        metadata_view(r) == local_metadata(groups_text(Some(*groups))->0, filename@),
{
    let kind = match group_kind(groups, 1, false, true) {
        Some(k) => k,
        None => {
            return None;
        },
    };
    let subcenter = match group_number(groups, 2) {
        Some(v) => v,
        None => {
            return None;
        },
    };
    let version = match group_number(groups, 3) {
        Some(v) => v,
        None => {
            return None;
        },
    };
    Some(
        TableMetadata {
            kind,
            version: Some(version),
            subcenter: Some(subcenter),
            center: None,
            language: None,
            is_local: true,
            filename: String::from_str(filename),
        },
    )
}

pub fn old_master_from_groups(groups: &Vec<Option<String>>, filename: &str) -> (r: Option<
    TableMetadata,
>)
    ensures
        metadata_view(r) == old_master_metadata(groups_text(Some(*groups))->0, filename@),
{
    let kind = match group_kind(groups, 1, false, true) {
        Some(k) => k,
        None => {
            return None;
        },
    };
    let version = match group_number(groups, 2) {
        Some(v) => v,
        None => {
            return None;
        },
    };
    Some(
        TableMetadata {
            kind,
            version: Some(version),
            subcenter: None,
            center: None,
            language: None,
            is_local: false,
            filename: String::from_str(filename),
        },
    )
}

pub fn custom_from_groups(groups: &Vec<Option<String>>, filename: &str) -> (r: Option<
    TableMetadata,
>)
    ensures
        metadata_view(r) == custom_metadata(groups_text(Some(*groups))->0, filename@),
{
    let center = match group_number(groups, 1) {
        Some(v) => v,
        None => {
            return None;
        },
    };
    let subcenter = match group_number(groups, 2) {
        Some(v) => v,
        None => {
            return None;
        },
    };
    let kind = match group_kind(groups, 3, true, true) {
        Some(k) => k,
        None => {
            return None;
        },
    };
    let version = match group_number(groups, 4) {
        Some(v) => v,
        None => {
            return None;
        },
    };
    Some(
        TableMetadata {
            kind,
            version: Some(version),
            subcenter: Some(subcenter),
            center: Some(center),
            language: None,
            is_local: true,
            filename: String::from_str(filename),
        },
    )
}

/// A pattern for the names of table files.
pub trait TableFilePattern {
    /// The metadata that the pattern reads from a name it matches.
    spec fn spec_matches(&self, filename: Seq<char>) -> Option<MetadataModel>;

    /// Matches a filename and reads its metadata.
    fn matches(&self, filename: &str) -> (r: Option<TableMetadata>)
        ensures
            metadata_view(r) == self.spec_matches(filename@),
    ;

    /// The glob that finds the files the pattern is meant for.
    spec fn spec_glob(&self) -> Seq<char>;

    /// What the pattern says of itself.
    spec fn spec_description(&self) -> Seq<char>;

    /// A glob pattern for scanning directories.
    fn glob_pattern(&self) -> (r: &str)
        ensures
            r@ == self.spec_glob(),
    ;

    /// A description of this pattern.
    fn description(&self) -> (r: &str)
        ensures
            r@ == self.spec_description(),
    ;
}

/// The groups that an expression finds in a text; none where the
/// expression did not compile.
pub open spec fn groups_of(regex: Option<Regex>, text: Seq<char>) -> Option<
    Seq<Option<Seq<char>>>,
> {
    match regex {
        Some(re) => regex_groups(regex_source(re), text),
        None => None,
    }
}

/// Whether the expression of a pattern is the compiled form of `source`.
pub open spec fn compiled_from(regex: Option<Regex>, source: Seq<char>) -> bool {
    match regex {
        Some(re) => regex_source(re) == source && regex_compiles(source),
        None => !regex_compiles(source),
    }
}

pub(crate) fn captures_of(regex: &Option<Regex>, text: &str) -> (r: Option<Vec<Option<String>>>)
    ensures
        groups_text(r) == groups_of(*regex, text@),
{
    match regex {
        Some(re) => regex_captures(re, text),
        None => None,
    }
}

/// WMO standard tables: `BUFRCREX_TableB_en_35.csv`,
/// `BUFR_TableD_en_40.csv`.
pub struct WMOPattern {
    regex: Option<Regex>,
}

/// The expression of the WMO pattern.
pub open spec fn wmo_source() -> Seq<char> {
    r"^(?:BUFR(?:CREX)?)_Table([BD])_([a-z]{2})_(\d+)\.csv$"@
}

impl WMOPattern {
    pub closed spec fn regex(&self) -> Option<Regex> {
        self.regex
    }

    pub fn new() -> (r: Self)
        ensures
            compiled_from(r.regex(), wmo_source()),
    {
        WMOPattern { regex: regex_new(r"^(?:BUFR(?:CREX)?)_Table([BD])_([a-z]{2})_(\d+)\.csv$") }
    }
}

impl TableFilePattern for WMOPattern {
    open spec fn spec_matches(&self, filename: Seq<char>) -> Option<MetadataModel> {
        match groups_of(self.regex(), filename) {
            Some(groups) => wmo_metadata(groups, filename),
            None => None,
        }
    }

    fn matches(&self, filename: &str) -> (r: Option<TableMetadata>) {
        match captures_of(&self.regex, filename) {
            Some(caps) => wmo_from_groups(&caps, filename),
            None => None,
        }
    }

    open spec fn spec_glob(&self) -> Seq<char> {
        "*Table[BD]_*.csv"@
    }

    open spec fn spec_description(&self) -> Seq<char> {
        "WMO standard tables (BUFR_Table[BD]_en_*.csv)"@
    }

    fn glob_pattern(&self) -> (r: &str) {
        "*Table[BD]_*.csv"
    }

    fn description(&self) -> (r: &str) {
        "WMO standard tables (BUFR_Table[BD]_en_*.csv)"
    }
}

/// Local tables: `localtabb_85_20.csv` (subcenter 85, version 20).
pub struct LocalPattern {
    regex: Option<Regex>,
}

/// The expression of the local pattern.
pub open spec fn local_source() -> Seq<char> {
    r"^localtab([bd])_(\d+)_(\d+)\.csv$"@
}

impl LocalPattern {
    pub closed spec fn regex(&self) -> Option<Regex> {
        self.regex
    }

    pub fn new() -> (r: Self)
        ensures
            compiled_from(r.regex(), local_source()),
    {
        LocalPattern { regex: regex_new(r"^localtab([bd])_(\d+)_(\d+)\.csv$") }
    }
}

impl TableFilePattern for LocalPattern {
    open spec fn spec_matches(&self, filename: Seq<char>) -> Option<MetadataModel> {
        match groups_of(self.regex(), filename) {
            Some(groups) => local_metadata(groups, filename),
            None => None,
        }
    }

    fn matches(&self, filename: &str) -> (r: Option<TableMetadata>) {
        match captures_of(&self.regex, filename) {
            Some(caps) => local_from_groups(&caps, filename),
            None => None,
        }
    }

    open spec fn spec_glob(&self) -> Seq<char> {
        "localtab[bd]_*.csv"@
    }

    open spec fn spec_description(&self) -> Seq<char> {
        "Local tables (localtab[bd]_subcenter_version.csv)"@
    }

    fn glob_pattern(&self) -> (r: &str) {
        "localtab[bd]_*.csv"
    }

    fn description(&self) -> (r: &str) {
        "Local tables (localtab[bd]_subcenter_version.csv)"
    }
}

/// Old master tables: `bufrtabb_16.csv`.
pub struct OldMasterPattern {
    regex: Option<Regex>,
}

/// The expression of the old master pattern.
pub open spec fn old_master_source() -> Seq<char> {
    r"^bufrtab([bd])_(\d+)\.csv$"@
}

impl OldMasterPattern {
    pub closed spec fn regex(&self) -> Option<Regex> {
        self.regex
    }

    pub fn new() -> (r: Self)
        ensures
            compiled_from(r.regex(), old_master_source()),
    {
        OldMasterPattern { regex: regex_new(r"^bufrtab([bd])_(\d+)\.csv$") }
    }
}

impl TableFilePattern for OldMasterPattern {
    open spec fn spec_matches(&self, filename: Seq<char>) -> Option<MetadataModel> {
        match groups_of(self.regex(), filename) {
            Some(groups) => old_master_metadata(groups, filename),
            None => None,
        }
    }

    fn matches(&self, filename: &str) -> (r: Option<TableMetadata>) {
        match captures_of(&self.regex, filename) {
            Some(caps) => old_master_from_groups(&caps, filename),
            None => None,
        }
    }

    open spec fn spec_glob(&self) -> Seq<char> {
        "bufrtab[bd]_*.csv"@
    }

    open spec fn spec_description(&self) -> Seq<char> {
        "Old master tables (bufrtab[bd]_version.csv)"@
    }

    fn glob_pattern(&self) -> (r: &str) {
        "bufrtab[bd]_*.csv"
    }

    fn description(&self) -> (r: &str) {
        "Old master tables (bufrtab[bd]_version.csv)"
    }
}

/// Tables named by center and subcenter:
/// `center_7_subcenter_85_tableb_v20.csv`, `test_c7_sc85_tableb_v20.csv`.
pub struct CustomPattern {
    regex: Option<Regex>,
}

/// The expression of the center/subcenter pattern.
pub open spec fn custom_source() -> Seq<char> {
    r"(?i).*_?c(?:enter)?_?(\d+)_sc(?:enter)?_?(\d+)_table([bd])_v?(\d+)\.csv$"@
}

impl CustomPattern {
    pub closed spec fn regex(&self) -> Option<Regex> {
        self.regex
    }

    pub fn new() -> (r: Self)
        ensures
            compiled_from(r.regex(), custom_source()),
    {
        CustomPattern {
            regex: regex_new(
                r"(?i).*_?c(?:enter)?_?(\d+)_sc(?:enter)?_?(\d+)_table([bd])_v?(\d+)\.csv$",
            ),
        }
    }
}

impl TableFilePattern for CustomPattern {
    open spec fn spec_matches(&self, filename: Seq<char>) -> Option<MetadataModel> {
        match groups_of(self.regex(), filename) {
            Some(groups) => custom_metadata(groups, filename),
            None => None,
        }
    }

    fn matches(&self, filename: &str) -> (r: Option<TableMetadata>) {
        match captures_of(&self.regex, filename) {
            Some(caps) => custom_from_groups(&caps, filename),
            None => None,
        }
    }

    open spec fn spec_glob(&self) -> Seq<char> {
        "*_c*_sc*_table*_*.csv"@
    }

    open spec fn spec_description(&self) -> Seq<char> {
        "Custom center/subcenter tables (*_c{center}_sc{subcenter}_table[bd]_v{version}.csv)"@
    }

    fn glob_pattern(&self) -> (r: &str) {
        "*_c*_sc*_table*_*.csv"
    }

    fn description(&self) -> (r: &str) {
        "Custom center/subcenter tables (*_c{center}_sc{subcenter}_table[bd]_v{version}.csv)"
    }
}

/// One of the patterns of a scanner: a built-in one, or one made from a
/// configuration.
pub enum Pattern {
    Wmo(WMOPattern),
    OldMaster(OldMasterPattern),
    Local(LocalPattern),
    Custom(CustomPattern),
    Configured(ConfigurablePattern),
}

impl TableFilePattern for Pattern {
    open spec fn spec_matches(&self, filename: Seq<char>) -> Option<MetadataModel> {
        match self {
            Pattern::Wmo(p) => p.spec_matches(filename),
            Pattern::OldMaster(p) => p.spec_matches(filename),
            Pattern::Local(p) => p.spec_matches(filename),
            Pattern::Custom(p) => p.spec_matches(filename),
            Pattern::Configured(p) => p.spec_matches(filename),
        }
    }

    fn matches(&self, filename: &str) -> (r: Option<TableMetadata>) {
        match self {
            Pattern::Wmo(p) => p.matches(filename),
            Pattern::OldMaster(p) => p.matches(filename),
            Pattern::Local(p) => p.matches(filename),
            Pattern::Custom(p) => p.matches(filename),
            Pattern::Configured(p) => p.matches(filename),
        }
    }

    open spec fn spec_glob(&self) -> Seq<char> {
        match self {
            Pattern::Wmo(p) => p.spec_glob(),
            Pattern::OldMaster(p) => p.spec_glob(),
            Pattern::Local(p) => p.spec_glob(),
            Pattern::Custom(p) => p.spec_glob(),
            Pattern::Configured(p) => p.spec_glob(),
        }
    }

    open spec fn spec_description(&self) -> Seq<char> {
        match self {
            Pattern::Wmo(p) => p.spec_description(),
            Pattern::OldMaster(p) => p.spec_description(),
            Pattern::Local(p) => p.spec_description(),
            Pattern::Custom(p) => p.spec_description(),
            Pattern::Configured(p) => p.spec_description(),
        }
    }

    fn glob_pattern(&self) -> (r: &str) {
        match self {
            Pattern::Wmo(p) => p.glob_pattern(),
            Pattern::OldMaster(p) => p.glob_pattern(),
            Pattern::Local(p) => p.glob_pattern(),
            Pattern::Custom(p) => p.glob_pattern(),
            Pattern::Configured(p) => p.glob_pattern(),
        }
    }

    fn description(&self) -> (r: &str) {
        match self {
            Pattern::Wmo(p) => p.description(),
            Pattern::OldMaster(p) => p.description(),
            Pattern::Local(p) => p.description(),
            Pattern::Custom(p) => p.description(),
            Pattern::Configured(p) => p.description(),
        }
    }
}

/// The metadata of the first pattern, from `from` on, that matches.
pub open spec fn first_match(patterns: Seq<Pattern>, filename: Seq<char>, from: int) -> Option<
    MetadataModel,
>
    decreases patterns.len() - from,
{
    if from < 0 || from >= patterns.len() {
        None
    } else {
        match patterns[from].spec_matches(filename) {
            Some(m) => Some(m),
            None => first_match(patterns, filename, from + 1),
        }
    }
}

/// The groups that the expression `source` finds in a text; none where
/// `source` is no valid expression.
pub open spec fn source_groups(source: Seq<char>, text: Seq<char>) -> Option<
    Seq<Option<Seq<char>>>,
> {
    if regex_compiles(source) {
        regex_groups(source, text)
    } else {
        None
    }
}

/// What built-in pattern `which` reads from a filename: 0 is the WMO
/// pattern, 1 the old master, 2 the local, 3 the center/subcenter pattern.
pub open spec fn builtin_match(which: int, filename: Seq<char>) -> Option<MetadataModel> {
    if which == 0 {
        match source_groups(wmo_source(), filename) {
            Some(groups) => wmo_metadata(groups, filename),
            None => None,
        }
    } else if which == 1 {
        match source_groups(old_master_source(), filename) {
            Some(groups) => old_master_metadata(groups, filename),
            None => None,
        }
    } else if which == 2 {
        match source_groups(local_source(), filename) {
            Some(groups) => local_metadata(groups, filename),
            None => None,
        }
    } else {
        match source_groups(custom_source(), filename) {
            Some(groups) => custom_metadata(groups, filename),
            None => None,
        }
    }
}

/// A scanner that tries several patterns in turn.
pub struct TableScanner {
    patterns: Vec<Pattern>,
}

impl TableScanner {
    /// The patterns, in the order in which they are tried.
    pub closed spec fn spec_patterns(&self) -> Seq<Pattern> {
        self.patterns@
    }

    /// A scanner with the four built-in patterns: WMO, old master, local,
    /// center/subcenter.
    pub fn new() -> (r: Self)
        ensures
            r.spec_patterns().len() == 4,
            forall|f: Seq<char>, i: int|
                0 <= i < 4 ==> #[trigger] r.spec_patterns()[i].spec_matches(f) == builtin_match(
                    i,
                    f,
                ),
    {
        let mut patterns: Vec<Pattern> = Vec::new();
        patterns.push(Pattern::Wmo(WMOPattern::new()));
        patterns.push(Pattern::OldMaster(OldMasterPattern::new()));
        patterns.push(Pattern::Local(LocalPattern::new()));
        patterns.push(Pattern::Custom(CustomPattern::new()));
        TableScanner { patterns }
    }

    /// A scanner with custom patterns.
    pub fn with_patterns(patterns: Vec<Pattern>) -> (r: Self)
        ensures
            r.spec_patterns() == patterns@,
    {
        TableScanner { patterns }
    }

    /// Adds a pattern behind those already there.
    pub fn add_pattern(&mut self, pattern: Pattern)
        ensures
            final(self).spec_patterns() == old(self).spec_patterns().push(pattern),
    {
        self.patterns.push(pattern);
    }

    /// The metadata that the first matching pattern reads from a filename.
    pub fn match_filename(&self, filename: &str) -> (r: Option<TableMetadata>)
        ensures
            metadata_view(r) == first_match(self.spec_patterns(), filename@, 0),
    {
        let mut i: usize = 0;
        while i < self.patterns.len()
            invariant
                i <= self.patterns@.len(),
                first_match(self.patterns@, filename@, 0) == first_match(
                    self.patterns@,
                    filename@,
                    i as int,
                ),
            decreases self.patterns@.len() - i,
        {
            match self.patterns[i].matches(filename) {
                Some(metadata) => {
                    return Some(metadata);
                },
                None => {},
            }
            i += 1;
        }
        None
    }

    /// All registered patterns.
    pub fn patterns(&self) -> (r: &[Pattern])
        ensures
            r@ == self.spec_patterns(),
    {
        self.patterns.as_slice()
    }
}

} // verus!
