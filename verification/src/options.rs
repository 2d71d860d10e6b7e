//! Command-line decisions: `-o path=value` options, the console switch, and
//! the configuration format a file name announces.

use crate::text::{char_pos, chars_of, contains, lemma_char_pos, starts_with, str_eq, sub_string, trim, trim_bounds};
use vstd::prelude::*;

verus! {

/// The two sides of `opt` around its first `=`, each trimmed.
pub open spec fn option_sides(opt: Seq<char>) -> Option<(Seq<char>, Seq<char>)> {
    match char_pos(opt, '=') {
        Some(i) => Some((trim(opt.take(i)), trim(opt.skip(i + 1)))),
        None => None,
    }
}

/// Splits an option at its first `=` and trims both sides; none without
/// `=`.
pub fn split_option(opt: &str) -> (r: Option<(String, String)>)
    ensures
        match option_sides(opt@) {
            Some(p) => r matches Some(q) && q.0@ == p.0 && q.1@ == p.1,
            None => r is None,
        },
{
    let v = chars_of(opt);
    proof {
        lemma_char_pos(opt@, '=');
    }
    let mut i: usize = 0;
    while i < v.len() && v[i] != '='
        invariant
            i <= v@.len(),
            v@ == opt@,
            forall|j: int| 0 <= j < i ==> v@[j] != '=',
        decreases v@.len() - i,
    {
        i = i + 1;
    }
    if i == v.len() {
        assert(char_pos(opt@, '=') is None) by {
            match char_pos(opt@, '=') {
                Some(k) => {
                    assert(v@[k] == '=');
                },
                None => {},
            }
        }
        return None;
    }
    assert(char_pos(opt@, '=') == Some(i as int)) by {
        match char_pos(opt@, '=') {
            Some(k) => {
                if k < i {
                    assert(v@[k] == '=');
                } else if k > i {
                    assert(opt@[i as int] == '=');
                }
            },
            None => {
                assert(opt@[i as int] == '=');
            },
        }
    }
    let (a, b) = trim_bounds(&v, 0, i);
    let (c, d) = trim_bounds(&v, i + 1, v.len());
    assert(v@.subrange(0, i as int) =~= opt@.take(i as int));
    assert(v@.subrange(i + 1, v@.len() as int) =~= opt@.skip(i + 1));
    Some((sub_string(&v, a, b), sub_string(&v, c, d)))
}

/// Option `opt` switches the console log off: `modules.console.disable`
/// set to `true`.
pub open spec fn disables_console(opt: Seq<char>) -> bool {
    option_sides(opt) matches Some(p) && p.0 == "modules.console.disable"@ && p.1 == "true"@
}

/// Whether some option switches the console log off.
pub fn console_disabled(options: &Vec<String>) -> (b: bool)
    ensures
        b == exists|i: int| 0 <= i < options@.len() && disables_console(#[trigger] options@[i]@),
{
    let mut i: usize = 0;
    while i < options.len()
        invariant
            i <= options@.len(),
            forall|j: int| 0 <= j < i ==> !disables_console(#[trigger] options@[j]@),
        decreases options@.len() - i,
    {
        match split_option(options[i].as_str()) {
            Some((p, v)) => {
                if str_eq(p.as_str(), "modules.console.disable") && str_eq(v.as_str(), "true") {
                    assert(disables_console(options@[i as int]@));
                    return true;
                }
            },
            None => {},
        }
        i = i + 1;
    }
    false
}

/// A path that overrides the configuration: one that starts with
/// `execution`, `scenarios`, `reporting`, `services` or `api`.
pub open spec fn is_config_path(p: Seq<char>) -> bool {
    starts_with(p, "execution"@) || starts_with(p, "scenarios"@) || starts_with(p, "reporting"@)
        || starts_with(p, "services"@) || starts_with(p, "api"@)
}

/// Every top-level section of the configuration can be overridden: an
/// option whose trimmed path starts with `execution`, `scenarios`,
/// `reporting`, `services` or `api` is a configuration override, with that
/// path and value; an option whose path starts with none of them is not.
pub proof fn lemma_override_sections(opt: Seq<char>)
    ensures
        option_sides(opt) matches Some(sides) ==> {
            let p = sides.0;
            &&& starts_with(p, "execution"@) ==> is_config_path(p)
            &&& starts_with(p, "scenarios"@) ==> is_config_path(p)
            &&& starts_with(p, "reporting"@) ==> is_config_path(p)
            &&& starts_with(p, "services"@) ==> is_config_path(p)
            &&& starts_with(p, "api"@) ==> is_config_path(p)
            &&& !starts_with(p, "execution"@) && !starts_with(p, "scenarios"@) && !starts_with(
                p,
                "reporting"@,
            ) && !starts_with(p, "services"@) && !starts_with(p, "api"@) ==> !is_config_path(p)
        },
{
}

/// The configuration override an option asks for: its trimmed path and
/// value, when the path is a configuration path.
pub fn config_override(opt: &str) -> (r: Option<(String, String)>)
    ensures
        match option_sides(opt@) {
            Some(p) => if is_config_path(p.0) {
                r matches Some(q) && q.0@ == p.0 && q.1@ == p.1
            } else {
                r is None
            },
            None => r is None,
        },
{
    match split_option(opt) {
        Some((p, v)) => {
            let c = chars_of(p.as_str());
            assert(c@.subrange(0, c@.len() as int) =~= c@);
            let prefixes = vec!["execution", "scenarios", "reporting", "services", "api"];
            let mut hit = false;
            let mut k: usize = 0;
            while k < prefixes.len()
                invariant
                    k <= prefixes@.len(),
                    prefixes@ == seq!["execution", "scenarios", "reporting", "services", "api"],
                    c@ == p@,
                    c@.subrange(0, c@.len() as int) == c@,
                    hit == exists|j: int| 0 <= j < k && starts_with(c@, (#[trigger] prefixes@[j])@),
                decreases prefixes@.len() - k,
            {
                let q = chars_of(prefixes[k]);
                let h = crate::text::starts_with_in(&c, 0, c.len(), &q);
                assert(h == starts_with(c@, prefixes@[k as int]@));
                if h {
                    hit = true;
                }
                k = k + 1;
            }
            assert(hit == is_config_path(p@)) by {
                if is_config_path(p@) {
                    if starts_with(p@, "execution"@) {
                        assert(starts_with(c@, prefixes@[0]@));
                    } else if starts_with(p@, "scenarios"@) {
                        assert(starts_with(c@, prefixes@[1]@));
                    } else if starts_with(p@, "reporting"@) {
                        assert(starts_with(c@, prefixes@[2]@));
                    } else if starts_with(p@, "services"@) {
                        assert(starts_with(c@, prefixes@[3]@));
                    } else {
                        assert(starts_with(c@, prefixes@[4]@));
                    }
                }
            }
            if hit {
                Some((p, v))
            } else {
                None
            }
        },
        None => None,
    }
}

/// The formats a configuration file can have.
#[derive(Debug, Clone, Copy, PartialEq, Eq, Structural)]
pub enum ConfigFormat {
    Yaml,
    Json,
    Toml,
}

/// The extension of a path, as std's `Path::extension` gives it.
pub uninterp spec fn path_extension(path: Seq<char>) -> Option<Seq<char>>;

/// The position of the last `c` in `s`.
pub open spec fn last_pos(s: Seq<char>, c: char) -> Option<int>
    decreases s.len(),
{
    if s.len() == 0 {
        None
    } else if s.last() == c {
        Some(s.len() - 1)
    } else {
        last_pos(s.drop_last(), c)
    }
}

/// The text after the last `/` of `path` (all of it when it has none).
pub open spec fn last_component(path: Seq<char>) -> Seq<char> {
    match last_pos(path, '/') {
        Some(i) => path.skip(i + 1),
        None => path,
    }
}

/// A path whose components are plain on every platform (no `\` or `:`)
/// and whose text after the last `/` is a file name: not empty, `.` or
/// `..`.
pub open spec fn plain_file_path(path: Seq<char>) -> bool {
    &&& !contains(path, seq!['\\'])
    &&& !contains(path, seq![':'])
    &&& last_component(path).len() > 0
    &&& last_component(path) != seq!['.']
    &&& last_component(path) != seq!['.', '.']
}

/// The extension of a file name: the text after its last `.`, none when it
/// has no `.` or its only one starts it.
pub open spec fn name_extension(name: Seq<char>) -> Option<Seq<char>> {
    match last_pos(name, '.') {
        Some(i) => if i == 0 {
            None
        } else {
            Some(name.skip(i + 1))
        },
        None => None,
    }
}

/// The extension of `path` (std's `Path::extension`). The contract names
/// the result, and states it for a plain path, as std documents it: the
/// text after the last `.` of the file name, none when the name has no `.`
/// or begins with its only one.
#[verifier::external_body]
fn extension_of(path: &str) -> (r: Option<String>)
    ensures
        path_extension(path@) == match r {
            Some(e) => Some(e@),
            None => None,
        },
        plain_file_path(path@) ==> name_extension(last_component(path@)) == match r {
            Some(e) => Some(e@),
            None => None,
        },
{
    std::path::Path::new(path).extension().map(|e| e.to_string_lossy().into_owned())
}

/// A character in ASCII lower case.
pub open spec fn ascii_lower(c: char) -> char {
    if 'A' <= c && c <= 'Z' {
        ((c as u32) + 32) as char
    } else {
        c
    }
}

/// Two texts are equal ignoring ASCII case.
pub open spec fn eq_ignore_ascii_case(a: Seq<char>, b: Seq<char>) -> bool {
    a.len() == b.len() && forall|i: int| 0 <= i < a.len() ==> ascii_lower(#[trigger] a[i]) == ascii_lower(b[i])
}

fn lower_char(c: char) -> (r: char)
    ensures
        r == ascii_lower(c),
{
    if 'A' <= c && c <= 'Z' {
        ((c as u8) + 32) as char
    } else {
        c
    }
}

fn eq_ignore_ascii_case_exec(a: &str, b: &str) -> (r: bool)
    ensures
        r == eq_ignore_ascii_case(a@, b@),
{
    let x = chars_of(a);
    let y = chars_of(b);
    if x.len() != y.len() {
        return false;
    }
    let mut i: usize = 0;
    while i < x.len()
        invariant
            i <= x@.len(),
            x@ == a@,
            y@ == b@,
            x@.len() == y@.len(),
            forall|j: int| 0 <= j < i ==> ascii_lower(#[trigger] x@[j]) == ascii_lower(y@[j]),
        decreases x@.len() - i,
    {
        if lower_char(x[i]) != lower_char(y[i]) {
            return false;
        }
        i = i + 1;
    }
    true
}

/// The format an extension announces, ignoring ASCII case: `yaml` or
/// `yml`, `json`, `toml`; none for any other, or for no extension.
pub open spec fn format_of_extension(ext: Option<Seq<char>>) -> Option<ConfigFormat> {
    match ext {
        Some(e) => if eq_ignore_ascii_case(e, "yaml"@) || eq_ignore_ascii_case(e, "yml"@) {
            Some(ConfigFormat::Yaml)
        } else if eq_ignore_ascii_case(e, "json"@) {
            Some(ConfigFormat::Json)
        } else if eq_ignore_ascii_case(e, "toml"@) {
            Some(ConfigFormat::Toml)
        } else {
            None
        },
        None => None,
    }
}

/// The format a file name announces by its extension.
pub open spec fn format_of(path: Seq<char>) -> Option<ConfigFormat> {
    format_of_extension(path_extension(path))
}

/// The format of a configuration file, by its extension.
pub fn config_format(path: &str) -> (r: Option<ConfigFormat>)
    ensures
        r == format_of(path@),
        plain_file_path(path@) ==> r == format_of_extension(name_extension(last_component(path@))),
{
    match extension_of(path) {
        Some(e) => {
            let t = e.as_str();
            if eq_ignore_ascii_case_exec(t, "yaml") || eq_ignore_ascii_case_exec(t, "yml") {
                Some(ConfigFormat::Yaml)
            } else if eq_ignore_ascii_case_exec(t, "json") {
                Some(ConfigFormat::Json)
            } else if eq_ignore_ascii_case_exec(t, "toml") {
                Some(ConfigFormat::Toml)
            } else {
                None
            }
        },
        None => None,
    }
}

} // verus!
