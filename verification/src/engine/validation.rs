//! Dry-run validation: data files, sensitive environment references, and
//! the summary that reports them.

use crate::engine::env::first_sensitive;
use crate::engine::interpolation::lemma_scan_well_formed;
use crate::engine::macros::{is_sensitive_var, sensitive_name};
use crate::engine::patterns::{
    cap_name, captures_view, placeholder_regex, placeholder_regex_str, placeholder_scan,
    regex_captures, PlaceholderKind,
};
use crate::models::config::{data_source_path, Configuration, DataSourceDefinition, HTTPRequestDefinition};
use crate::strmap::StrMap;
use crate::text::{decimal, decimal_string};
use vstd::prelude::*;
use vstd::string::StringExecFns;

verus! {

/// Whether a data file was found.
#[derive(Debug, Clone, Copy, PartialEq, Eq, Structural)]
pub enum FileStatus {
    Found,
    Missing,
}

impl Default for FileStatus {
    fn default() -> (s: Self)
        ensures
            s == FileStatus::Found,
    {
        FileStatus::Found
    }
}

/// The outcome of a dry run.
#[derive(Debug)]
pub struct ValidationSummary {
    pub file_existence: StrMap<FileStatus>,
    pub syntax_valid: bool,
    pub normalization_successful: bool,
    pub translation_successful: bool,
}

impl Default for ValidationSummary {
    fn default() -> (s: Self)
        ensures
            s.file_existence@ == Map::<Seq<char>, FileStatus>::empty(),
            !s.syntax_valid,
            !s.normalization_successful,
            !s.translation_successful,
    {
        ValidationSummary {
            file_existence: StrMap::new(),
            syntax_valid: false,
            normalization_successful: false,
            translation_successful: false,
        }
    }
}

/// Every checked file was found.
pub open spec fn all_found(files: Map<Seq<char>, FileStatus>) -> bool {
    forall|k: Seq<char>| #[trigger] files.contains_key(k) ==> files[k] == FileStatus::Found
}

/// The report line for one checked file.
pub open spec fn file_line(path: Seq<char>, status: FileStatus) -> Seq<char> {
    match status {
        FileStatus::Found => "[OK] Verifying data-source: "@ + path,
        FileStatus::Missing => "[ERROR] Missing data-source: "@ + path,
    }
}

impl ValidationSummary {
    /// A dry run passes when the configuration parsed, normalized and
    /// translated, and every data file was found.
    pub fn is_valid(&self) -> (b: bool)
        ensures
            b == (self.syntax_valid && self.normalization_successful && self.translation_successful
                && all_found(self.file_existence@)),
    {
        let n = self.file_existence.len();
        let mut i: usize = 0;
        let mut ok = true;
        while i < n
            invariant
                n == self.file_existence.len_spec(),
                i <= n,
                self.file_existence.keys().len() == n,
                forall|a: int| 0 <= a < n ==> self.file_existence@.dom().contains(#[trigger] self.file_existence.keys()[a]),
                forall|k: Seq<char>| #[trigger]
                    self.file_existence@.dom().contains(k) ==> exists|a: int| 0 <= a < n && #[trigger] self.file_existence.keys()[a] == k,
                ok == forall|a: int| 0 <= a < i ==> self.file_existence@[#[trigger] self.file_existence.keys()[a]] == FileStatus::Found,
            decreases n - i,
        {
            let s = self.file_existence.value_at(i);
            if *s != FileStatus::Found {
                ok = false;
            }
            i = i + 1;
        }
        proof {
            if ok {
                assert forall|k: Seq<char>| #[trigger] self.file_existence@.contains_key(k) implies self.file_existence@[k] == FileStatus::Found by {
                    let a = choose|a: int| 0 <= a < n && #[trigger] self.file_existence.keys()[a] == k;
                    assert(self.file_existence@[self.file_existence.keys()[a]] == FileStatus::Found);
                }
            } else {
                let a = choose|a: int| 0 <= a < n && !(self.file_existence@[#[trigger] self.file_existence.keys()[a]] == FileStatus::Found);
                assert(self.file_existence@.contains_key(self.file_existence.keys()[a]));
            }
        }
        self.syntax_valid && self.normalization_successful && self.translation_successful && ok
    }

    /// The lines of the dry-run report: parsing, normalization, each data
    /// file in the order checked, translation, and the verdict.
    pub fn report_lines(&self) -> (lines: Vec<String>)
        ensures
            lines@.len() == self.file_existence.len_spec() + 4,
            lines@[0]@ == "[OK] Parsing configuration"@,
            lines@[1]@ == (if self.normalization_successful {
                "[OK] Normalizing configuration"@
            } else {
                "[ERROR] Normalizing configuration"@
            }),
            forall|a: int|
                0 <= a < self.file_existence.len_spec() ==> (#[trigger] lines@[a + 2])@ == file_line(
                    self.file_existence.keys()[a],
                    self.file_existence@[self.file_existence.keys()[a]],
                ),
            lines@[lines@.len() - 2]@ == (if self.translation_successful {
                "[OK] Translating to Goose Attack"@
            } else {
                "[ERROR] Translating to Goose Attack"@
            }),
            lines@[lines@.len() - 1]@ == (if self.syntax_valid && self.normalization_successful
                && self.translation_successful && all_found(self.file_existence@) {
                "Validation Successful."@
            } else {
                "Validation Failed."@
            }),
    {
        let mut lines: Vec<String> = Vec::new();
        lines.push(String::from_str("[OK] Parsing configuration"));
        if self.normalization_successful {
            lines.push(String::from_str("[OK] Normalizing configuration"));
        } else {
            lines.push(String::from_str("[ERROR] Normalizing configuration"));
        }
        let n = self.file_existence.len();
        let mut i: usize = 0;
        while i < n
            invariant
                n == self.file_existence.len_spec(),
                i <= n,
                self.file_existence.keys().len() == n,
                lines@.len() == i + 2,
                lines@[0]@ == "[OK] Parsing configuration"@,
                lines@[1]@ == (if self.normalization_successful {
                    "[OK] Normalizing configuration"@
                } else {
                    "[ERROR] Normalizing configuration"@
                }),
                forall|a: int|
                    0 <= a < i ==> (#[trigger] lines@[a + 2])@ == file_line(
                        self.file_existence.keys()[a],
                        self.file_existence@[self.file_existence.keys()[a]],
                    ),
            decreases n - i,
        {
            let path = self.file_existence.key_at(i);
            let status = self.file_existence.value_at(i);
            let mut line = match status {
                FileStatus::Found => String::from_str("[OK] Verifying data-source: "),
                FileStatus::Missing => String::from_str("[ERROR] Missing data-source: "),
            };
            line.append(path.as_str());
            lines.push(line);
            i = i + 1;
        }
        if self.translation_successful {
            lines.push(String::from_str("[OK] Translating to Goose Attack"));
        } else {
            lines.push(String::from_str("[ERROR] Translating to Goose Attack"));
        }
        if self.is_valid() {
            lines.push(String::from_str("Validation Successful."));
        } else {
            lines.push(String::from_str("Validation Failed."));
        }
        lines
    }
}

/// The status map of checked files: each path maps to `Found` or `Missing`
/// by the flag at its position; a repeated path keeps its last flag.
pub open spec fn file_statuses(files: Seq<Seq<char>>, exists: Seq<bool>, n: int) -> Map<
    Seq<char>,
    FileStatus,
>
    decreases n,
{
    if n <= 0 {
        Map::empty()
    } else {
        file_statuses(files, exists, n - 1).insert(
            files[n - 1],
            if exists[n - 1] {
                FileStatus::Found
            } else {
                FileStatus::Missing
            },
        )
    }
}

/// The paths of a list of data sources.
pub open spec fn source_paths(files: Seq<&DataSourceDefinition>) -> Seq<Seq<char>> {
    files.map_values(|d: &DataSourceDefinition| data_source_path(*d))
}

/// Marks each data source `Found` or `Missing` by its path, as `exists`
/// (what was found on disk, position by position) says.
pub fn validate_files(files: &[&DataSourceDefinition], exists: &[bool]) -> (m: StrMap<FileStatus>)
    requires
        exists@.len() == files@.len(),
    ensures
        m@ == file_statuses(source_paths(files@), exists@, files@.len() as int),
{
    let mut m: StrMap<FileStatus> = StrMap::new();
    let mut i: usize = 0;
    while i < files.len()
        invariant
            i <= files@.len(),
            exists@.len() == files@.len(),
            m@ == file_statuses(source_paths(files@), exists@, i as int),
        decreases files@.len() - i,
    {
        let path = files[i].path();
        let status = if exists[i] {
            FileStatus::Found
        } else {
            FileStatus::Missing
        };
        let _ = m.insert(String::from_str(path), status);
        i = i + 1;
    }
    m
}

/// The text of a request that may name environment variables: the URL, or
/// for a detailed request its URL, then its body and body file, each after
/// a space.
pub open spec fn request_text(r: HTTPRequestDefinition) -> Seq<char> {
    match r {
        HTTPRequestDefinition::Simple(u) => u@,
        HTTPRequestDefinition::Detailed(d) => d.url@ + (match d.body {
            Some(b) => seq![' '] + b@,
            None => Seq::empty(),
        }) + (match d.body_file {
            Some(f) => seq![' '] + f@,
            None => Seq::empty(),
        }),
    }
}

/// The names of the first `k` captures that are sensitive, in order.
pub open spec fn sensitive_refs(caps: Seq<(Seq<char>, Option<Seq<char>>)>, k: int) -> Seq<Seq<char>>
    decreases k,
{
    if k <= 0 {
        Seq::empty()
    } else if sensitive_name(cap_name(caps[k - 1])) {
        sensitive_refs(caps, k - 1).push(cap_name(caps[k - 1]))
    } else {
        sensitive_refs(caps, k - 1)
    }
}

/// The warning for a sensitive reference.
pub open spec fn env_warning(scenario: Seq<char>, idx: nat, var: Seq<char>) -> Seq<char> {
    "Scenario '"@ + scenario + "', request "@ + decimal(idx) + ": env var '${env."@ + var
        + "}' matches sensitive patterns"@
}

/// The warnings for request `idx` of scenario `scenario`.
pub open spec fn request_warnings(scenario: Seq<char>, idx: nat, r: HTTPRequestDefinition) -> Seq<
    Seq<char>,
> {
    let caps = placeholder_scan(PlaceholderKind::EnvPrefixed, request_text(r), 0);
    sensitive_refs(caps, caps.len() as int).map_values(|v: Seq<char>| env_warning(scenario, idx, v))
}

/// The warnings for the first `k` requests of a scenario.
pub open spec fn scenario_warnings(scenario: Seq<char>, reqs: Seq<HTTPRequestDefinition>, k: int) -> Seq<
    Seq<char>,
>
    decreases k,
{
    if k <= 0 {
        Seq::empty()
    } else {
        scenario_warnings(scenario, reqs, k - 1) + request_warnings(scenario, (k - 1) as nat, reqs[k - 1])
    }
}

/// The warnings for the first `k` scenarios, in the configuration's order.
pub open spec fn config_warnings(c: Configuration, k: int) -> Seq<Seq<char>>
    decreases k,
{
    if k <= 0 {
        Seq::empty()
    } else {
        let name = c.scenarios.keys()[k - 1];
        config_warnings(c, k - 1) + scenario_warnings(
            name,
            c.scenarios@[name].requests@,
            c.scenarios@[name].requests@.len() as int,
        )
    }
}

/// The texts of a list of strings.
pub open spec fn texts(v: Seq<String>) -> Seq<Seq<char>> {
    v.map_values(|s: String| s@)
}

fn request_text_exec(r: &HTTPRequestDefinition) -> (s: String)
    ensures
        s@ == request_text(*r),
{
    match r {
        HTTPRequestDefinition::Simple(u) => u.clone(),
        HTTPRequestDefinition::Detailed(d) => {
            let mut s = d.url.clone();
            let ghost u = s@;
            match &d.body {
                Some(b) => {
                    s.append(" ");
                    s.append(b.as_str());
                },
                None => {},
            }
            let ghost ub = s@;
            match &d.body_file {
                Some(f) => {
                    s.append(" ");
                    s.append(f.as_str());
                },
                None => {},
            }
            proof {
                reveal_strlit(" ");
                assert(ub == u + (match d.body {
                    Some(b) => seq![' '] + b@,
                    None => Seq::empty(),
                }));
            }
            s
        },
    }
}

/// Appends the warnings of one request to `out`.
fn push_request_warnings(out: &mut Vec<String>, scenario: &String, idx: usize, r: &HTTPRequestDefinition)
    ensures
        texts(final(out)@) == texts(old(out)@) + request_warnings(scenario@, idx as nat, *r),
{
    let text = request_text_exec(r);
    let pattern = placeholder_regex_str(PlaceholderKind::EnvPrefixed);
    let caps = regex_captures(pattern, text.as_str());
    assert(pattern@ == placeholder_regex(PlaceholderKind::EnvPrefixed));
    let caps = match caps {
        Some(c) => c,
        None => {
            assert(false);
            return;
        },
    };
    let ghost all = captures_view(caps@);
    let ghost start = texts(out@);
    let mut i: usize = 0;
    while i < caps.len()
        invariant
            i <= caps@.len(),
            all == captures_view(caps@),
            all == placeholder_scan(PlaceholderKind::EnvPrefixed, request_text(*r), 0),
            texts(out@) == start + sensitive_refs(all, i as int).map_values(
                |v: Seq<char>| env_warning(scenario@, idx as nat, v),
            ),
        decreases caps@.len() - i,
    {
        let ghost before = texts(out@);
        let (_, name) = &caps[i];
        let var: String = match name {
            Some(n) => n.clone(),
            None => String::new(),
        };
        assert(var@ == cap_name(all[i as int]));
        if is_sensitive_var(var.as_str()) {
            let mut w = String::from_str("Scenario '");
            w.append(scenario.as_str());
            w.append("', request ");
            w.append(decimal_string(idx as u64).as_str());
            w.append(": env var '${env.");
            w.append(var.as_str());
            w.append("}' matches sensitive patterns");
            out.push(w);
            assert(texts(out@) =~= before.push(w@));
            assert(sensitive_refs(all, i + 1) == sensitive_refs(all, i as int).push(var@));
            assert(sensitive_refs(all, i + 1).map_values(|v: Seq<char>| env_warning(scenario@, idx as nat, v))
                =~= sensitive_refs(all, i as int).map_values(|v: Seq<char>| env_warning(scenario@, idx as nat, v)).push(
                env_warning(scenario@, idx as nat, var@)));
        } else {
            assert(sensitive_refs(all, i + 1) == sensitive_refs(all, i as int));
        }
        i = i + 1;
    }
}

/// The warnings about `${env.NAME}` references to sensitive variables in
/// the requests' URLs, bodies and body files, scenario by scenario, request
/// by request, reference by reference.
pub fn validate_env_refs(config: &Configuration) -> (warnings: Vec<String>)
    ensures
        texts(warnings@) == config_warnings(*config, config.scenarios.len_spec() as int),
{
    let mut warnings: Vec<String> = Vec::new();
    let n = config.scenarios.len();
    let mut s: usize = 0;
    assert(texts(warnings@) =~= Seq::<Seq<char>>::empty());
    while s < n
        invariant
            n == config.scenarios.len_spec(),
            config.scenarios.keys().len() == n,
            s <= n,
            texts(warnings@) == config_warnings(*config, s as int),
        decreases n - s,
    {
        let name = config.scenarios.key_at(s);
        let scenario = config.scenarios.value_at(s);
        let ghost at_start = texts(warnings@);
        let mut idx: usize = 0;
        while idx < scenario.requests.len()
            invariant
                idx <= scenario.requests@.len(),
                texts(warnings@) == at_start + scenario_warnings(name@, scenario.requests@, idx as int),
            decreases scenario.requests@.len() - idx,
        {
            let ghost before = texts(warnings@);
            push_request_warnings(&mut warnings, name, idx, &scenario.requests[idx]);
            assert(texts(warnings@) =~= at_start + scenario_warnings(name@, scenario.requests@, idx + 1));
            idx = idx + 1;
        }
        s = s + 1;
    }
    warnings
}

} // verus!
