//! Patterns for table file names that a configuration adds to the
//! built-in ones.

use vstd::prelude::*;
use vstd::string::StringExecFns;
use regex::Regex;
use crate::pattern::{group, group_at, group_kind, group_number, groups_text, kind_at, metadata_view, number_at, regex_compiles, regex_new, regex_source, MetadataModel, Pattern, TableFilePattern, TableMetadata};

verus! {

/// Which capture group holds which part of the metadata.
#[derive(Clone, Copy, Debug)]
pub struct FieldMapping {
    /// Capture group index for table kind (B or D)
    pub kind_group: usize,
    /// Optional capture group index for version
    pub version_group: Option<usize>,
    /// Optional capture group index for subcenter
    pub subcenter_group: Option<usize>,
    /// Optional capture group index for center
    pub center_group: Option<usize>,
    /// Optional capture group index for language
    pub language_group: Option<usize>,
    /// Whether this pattern matches local tables
    pub is_local: bool,
}

/// A pattern as a configuration file states it.
#[derive(Clone, Debug)]
pub struct PatternConfig {
    pub name: String,
    pub regex: String,
    pub glob: String,
    pub mapping: FieldMapping,
}

/// A pattern compiled from a configuration.
pub struct ConfigurablePattern {
    name: String,
    regex: Regex,
    glob: String,
    mapping: FieldMapping,
}

/// The number in an optional capture group.
pub open spec fn optional_number(groups: Seq<Option<Seq<char>>>, idx: Option<usize>) -> Option<u32> {
    match idx {
        Some(i) => number_at(groups, i as int),
        None => None,
    }
}

/// The text of an optional capture group.
pub open spec fn optional_text(groups: Seq<Option<Seq<char>>>, idx: Option<usize>) -> Option<
    Seq<char>,
> {
    match idx {
        Some(i) => group_at(groups, i as int),
        None => None,
    }
}

/// The metadata that a mapping reads from the groups of a match: none
/// where the kind group does not name a kind; a part whose group is absent
/// or does not hold a number is left out.
pub open spec fn mapped_metadata(
    mapping: FieldMapping,
    groups: Seq<Option<Seq<char>>>,
    filename: Seq<char>,
) -> Option<MetadataModel> {
    match kind_at(groups, mapping.kind_group as int, true, true) {
        None => None,
        Some(kind) => Some(
            MetadataModel {
                kind,
                version: optional_number(groups, mapping.version_group),
                subcenter: optional_number(groups, mapping.subcenter_group),
                center: optional_number(groups, mapping.center_group),
                language: optional_text(groups, mapping.language_group),
                is_local: mapping.is_local,
                filename,
            },
        ),
    }
}

fn number_in(groups: &Vec<Option<String>>, idx: Option<usize>) -> (r: Option<u32>)
    ensures
        r == optional_number(groups_text(Some(*groups))->0, idx),
{
    match idx {
        Some(i) => group_number(groups, i),
        None => None,
    }
}

/// Reads the metadata that a mapping finds in the groups of a match.
pub fn mapped_from_groups(mapping: &FieldMapping, groups: &Vec<Option<String>>, filename: &str)
    -> (r: Option<TableMetadata>)
    ensures
        metadata_view(r) == mapped_metadata(*mapping, groups_text(Some(*groups))->0, filename@),
{
    let kind = match group_kind(groups, mapping.kind_group, true, true) {
        Some(k) => k,
        None => {
            return None;
        },
    };
    let version = number_in(groups, mapping.version_group);
    let subcenter = number_in(groups, mapping.subcenter_group);
    let center = number_in(groups, mapping.center_group);
    let language = match mapping.language_group {
        Some(i) => match group(groups, i) {
            Some(text) => Some(String::from_str(text)),
            None => None,
        },
        None => None,
    };
    Some(
        TableMetadata {
            kind,
            version,
            subcenter,
            center,
            language,
            is_local: mapping.is_local,
            filename: String::from_str(filename),
        },
    )
}

impl ConfigurablePattern {
    /// The expression the pattern matches with.
    pub closed spec fn source(&self) -> Seq<char> {
        regex_source(self.regex)
    }

    /// The mapping from capture groups to metadata.
    pub closed spec fn mapping(&self) -> FieldMapping {
        self.mapping
    }

    /// The name of the pattern.
    pub closed spec fn name(&self) -> Seq<char> {
        self.name@
    }

    /// The glob of the pattern.
    pub closed spec fn glob(&self) -> Seq<char> {
        self.glob@
    }

    /// Compiles a configured pattern. Fails exactly where its expression
    /// is no valid regular expression.
    pub fn from_config(config: &PatternConfig) -> (r: Option<Self>)
        ensures
            r is Some <==> regex_compiles(config.regex@),
            r is Some ==> r->0.source() == config.regex@ && r->0.mapping() == config.mapping
                && r->0.name() == config.name@ && r->0.glob() == config.glob@,
    {
        match regex_new(config.regex.as_str()) {
            Some(regex) => Some(
                ConfigurablePattern {
                    name: config.name.clone(),
                    regex,
                    glob: config.glob.clone(),
                    mapping: config.mapping,
                },
            ),
            None => None,
        }
    }
}

impl TableFilePattern for ConfigurablePattern {
    open spec fn spec_matches(&self, filename: Seq<char>) -> Option<MetadataModel> {
        match crate::pattern::regex_groups(self.source(), filename) {
            Some(groups) => mapped_metadata(self.mapping(), groups, filename),
            None => None,
        }
    }

    fn matches(&self, filename: &str) -> (r: Option<TableMetadata>) {
        match crate::pattern::regex_captures(&self.regex, filename) {
            Some(caps) => mapped_from_groups(&self.mapping, &caps, filename),
            None => None,
        }
    }

    open spec fn spec_glob(&self) -> Seq<char> {
        self.glob()
    }

    open spec fn spec_description(&self) -> Seq<char> {
        self.name()
    }

    fn glob_pattern(&self) -> (r: &str) {
        self.glob.as_str()
    }

    fn description(&self) -> (r: &str) {
        self.name.as_str()
    }
}

/// A configuration: the patterns it adds.
#[derive(Clone, Debug)]
pub struct ScanConfig {
    /// List of custom patterns
    pub patterns: Vec<PatternConfig>,
}

/// The first configured pattern whose expression does not compile.
pub open spec fn first_invalid(patterns: Seq<PatternConfig>, from: int) -> Option<int>
    decreases patterns.len() - from,
{
    if from < 0 || from >= patterns.len() {
        None
    } else if !regex_compiles(patterns[from].regex@) {
        Some(from)
    } else {
        first_invalid(patterns, from + 1)
    }
}

impl ScanConfig {
    /// An example configuration with two patterns for local tables.
    pub fn default_example() -> (r: Self)
        ensures
            r.patterns@.len() == 2,
            r.patterns@[0].name@ == "ECMWF local tables"@,
            r.patterns@[0].regex@ == r"^ecmwf_table([bd])_v(\d+)\.csv$"@,
            r.patterns@[0].glob@ == "ecmwf_table*.csv"@,
            r.patterns@[0].mapping.kind_group == 1,
            r.patterns@[0].mapping.version_group == Some(2usize),
            r.patterns@[1].name@ == "NCEP local tables"@,
            r.patterns@[1].regex@ == r"^ncep_bufrtab\.(\d+)\.([bd])$"@,
            r.patterns@[1].glob@ == "ncep_bufrtab.*"@,
            r.patterns@[1].mapping.kind_group == 2,
            r.patterns@[1].mapping.version_group == Some(1usize),
            forall|i: int|
                0 <= i < 2 ==> (#[trigger] r.patterns@[i]).mapping.is_local
                    && r.patterns@[i].mapping.subcenter_group is None
                    && r.patterns@[i].mapping.center_group is None
                    && r.patterns@[i].mapping.language_group is None,
    {
        let mut patterns: Vec<PatternConfig> = Vec::new();
        patterns.push(
            PatternConfig {
                name: String::from_str("ECMWF local tables"),
                regex: String::from_str(r"^ecmwf_table([bd])_v(\d+)\.csv$"),
                glob: String::from_str("ecmwf_table*.csv"),
                mapping: FieldMapping {
                    kind_group: 1,
                    version_group: Some(2),
                    subcenter_group: None,
                    center_group: None,
                    language_group: None,
                    is_local: true,
                },
            },
        );
        patterns.push(
            PatternConfig {
                name: String::from_str("NCEP local tables"),
                regex: String::from_str(r"^ncep_bufrtab\.(\d+)\.([bd])$"),
                glob: String::from_str("ncep_bufrtab.*"),
                mapping: FieldMapping {
                    kind_group: 2,
                    version_group: Some(1),
                    subcenter_group: None,
                    center_group: None,
                    language_group: None,
                    is_local: true,
                },
            },
        );
        ScanConfig { patterns }
    }

    /// Compiles all patterns of the configuration, in order. Fails with
    /// the index of the first pattern whose expression is invalid.
    pub fn compile_patterns(&self) -> (r: Result<Vec<Pattern>, usize>)
        ensures
            match r {
                Ok(compiled) => {
                    &&& first_invalid(self.patterns@, 0) is None
                    &&& compiled@.len() == self.patterns@.len()
                    &&& forall|i: int|
                        0 <= i < compiled@.len() ==> match #[trigger] compiled@[i] {
                            Pattern::Configured(p) => p.source() == self.patterns@[i].regex@
                                && p.mapping() == self.patterns@[i].mapping && p.name()
                                == self.patterns@[i].name@ && p.glob() == self.patterns@[i].glob@,
                            _ => false,
                        }
                },
                Err(at) => first_invalid(self.patterns@, 0) == Some(at as int),
            },
    {
        let mut patterns: Vec<Pattern> = Vec::new();
        let mut i: usize = 0;
        while i < self.patterns.len()
            invariant
                i <= self.patterns@.len(),
                patterns@.len() == i,
                first_invalid(self.patterns@, 0) == first_invalid(self.patterns@, i as int),
                forall|k: int|
                    0 <= k < i ==> match #[trigger] patterns@[k] {
                        Pattern::Configured(p) => p.source() == self.patterns@[k].regex@
                            && p.mapping() == self.patterns@[k].mapping && p.name()
                            == self.patterns@[k].name@ && p.glob() == self.patterns@[k].glob@,
                        _ => false,
                    },
            decreases self.patterns@.len() - i,
        {
            match ConfigurablePattern::from_config(&self.patterns[i]) {
                Some(pattern) => {
                    patterns.push(Pattern::Configured(pattern));
                },
                None => {
                    return Err(i);
                },
            }
            i += 1;
        }
        Ok(patterns)
    }
}

} // verus!
