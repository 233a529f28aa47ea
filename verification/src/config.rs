//! The workspace configuration: which files declare provider sources, and
//! the closed set of providers a source can name. Reading the directory
//! and parsing the files happens outside the library, which selects and
//! orders the file names and merges the parsed sources.

use vstd::prelude::*;
use crate::providers::{GithubProvider, GitlabProvider, Provider, RepoRecord, RepoLine};
use crate::repository::Repository;
use crate::order::{lex_cmp, strings_sorted, names_view, sort_strings};

verus! {

#[verifier::external_type_specification]
#[verifier::external_body]
pub struct ExGlobError(globset::Error);

/// Whether the glob pattern matches the file name, with the path separator
/// treated literally, as the globset crate decides it: a function of the
/// pattern and the name alone.
pub uninterp spec fn glob_match_of(pattern: Seq<char>, name: Seq<char>) -> bool;

/// The glob pattern compiles: it is well formed and its compiled form
/// stays within the matcher's limits, as the globset crate decides it --
/// a function of the pattern alone.
pub uninterp spec fn glob_pattern_ok(pattern: Seq<char>) -> bool;

/// Relies on globset::GlobBuilder and globset::GlobSetBuilder: builds the
/// pattern with a literal separator and matches the file name against it.
/// A pattern that does not compile -- malformed, or past the matcher's
/// size limit -- comes back as the error of one of the two builds, which
/// both depend on the pattern alone; no admitted input panics.
#[verifier::external_body]
fn glob_is_match(pattern: &str, name: &str) -> (r: Result<bool, globset::Error>)
    ensures
        r matches Ok(b) ==> b == glob_match_of(pattern@, name@),
        r is Err <==> !glob_pattern_ok(pattern@),
{
    let glob = match globset::GlobBuilder::new(pattern).literal_separator(true).build() {
        Ok(g) => g,
        Err(e) => {
            return Err(e);
        },
    };
    let mut builder = globset::GlobSetBuilder::new();
    builder.add(glob);
    let set = match builder.build() {
        Ok(s) => s,
        Err(e) => {
            return Err(e);
        },
    };
    Ok(set.is_match(name))
}

/// The file name declares workspace configuration: it matches the
/// workspace pattern and is not the lockfile itself.
pub open spec fn is_config_name(name: Seq<char>) -> bool {
    glob_match_of("workspace*.toml"@, name) && name != "workspace-lock.toml"@
}

/// The configuration file names among the first `i` entries of a directory
/// listing, in listing order.
pub open spec fn config_names_spec(entries: Seq<String>, i: int) -> Seq<Seq<char>>
    decreases i,
{
    if i <= 0 {
        Seq::empty()
    } else if is_config_name(entries[i - 1]@) {
        config_names_spec(entries, i - 1).push(entries[i - 1]@)
    } else {
        config_names_spec(entries, i - 1)
    }
}

/// What went wrong while selecting the configuration: no configuration
/// file in the workspace, or a glob pattern the matcher refused.
#[derive(Debug)]
pub enum ConfigError {
    NoConfigFiles,
    InvalidPattern(globset::Error),
}

/// The workspace configuration: the files that declare provider sources,
/// in the order they are processed.
pub struct Config {
    pub files: Vec<String>,
}

impl Config {
    /// A configuration over the given files.
    pub fn new(files: Vec<String>) -> (r: Config)
        ensures
            r.files == files,
    {
        Config { files }
    }

    /// Selects the configuration files from a directory listing: every
    /// name that matches the workspace pattern, except the lockfile, in
    /// sorted order.
    fn find_config_files(entries: &Vec<String>) -> (r: Result<Vec<String>, globset::Error>)
        ensures
            r matches Ok(v) ==> strings_sorted(names_view(v@)) && names_view(v@).to_multiset()
                == config_names_spec(entries@, entries@.len() as int).to_multiset(),
            r is Err ==> !glob_pattern_ok("workspace*.toml"@),
    {
        let n = entries.len();
        let mut kept: Vec<String> = Vec::new();
        let mut i: usize = 0;
        proof {
            assert(names_view(kept@) =~= config_names_spec(entries@, 0));
        }
        while i < n
            invariant
                n == entries@.len(),
                i <= n,
                names_view(kept@) == config_names_spec(entries@, i as int),
            decreases n - i,
        {
            let ghost oldkept = kept@;
            let matched = match glob_is_match("workspace*.toml", entries[i].as_str()) {
                Result::Ok(b) => b,
                Result::Err(e) => {
                    return Result::Err(e);
                },
            };
            let lock_name = crate::lockfile::lockfile_name();
            if matched && crate::order::str_compare(entries[i].as_str(), lock_name) != 0 {
                proof {
                    crate::order::lemma_lex_cmp_eq(entries@[i as int]@, lock_name@);
                }
                kept.push(entries[i].clone());
                proof {
                    assert(names_view(kept@) =~= names_view(oldkept).push(
                        entries@[i as int]@,
                    ));
                }
            } else {
                proof {
                    if !matched {
                    } else {
                        crate::order::lemma_lex_cmp_eq(entries@[i as int]@, lock_name@);
                    }
                }
            }
            i = i + 1;
        }
        Result::Ok(sort_strings(kept))
    }

    /// Builds the configuration of a workspace from its directory listing:
    /// the sorted configuration file names. A workspace without any
    /// configuration file is refused.
    pub fn from_workspace(entries: &Vec<String>) -> (r: Result<Config, ConfigError>)
        ensures
            r matches Ok(c) ==> strings_sorted(names_view(c.files@)) && names_view(
                c.files@,
            ).to_multiset() == config_names_spec(entries@, entries@.len() as int).to_multiset()
                && c.files@.len() > 0,
            r matches Err(e) ==> (e is NoConfigFiles ==> config_names_spec(
                entries@,
                entries@.len() as int,
            ).len() == 0),
            r matches Err(e) ==> (e is InvalidPattern ==> !glob_pattern_ok(
                "workspace*.toml"@,
            )),
    {
        let files = match Self::find_config_files(entries) {
            Result::Ok(v) => v,
            Result::Err(e) => {
                return Result::Err(ConfigError::InvalidPattern(e));
            },
        };
        if files.len() == 0 {
            proof {
                broadcast use vstd::seq_lib::group_to_multiset_ensures;

                let spec_names = config_names_spec(entries@, entries@.len() as int);
                assert(names_view(files@) =~= Seq::<Seq<char>>::empty());
                assert(names_view(files@).to_multiset().len() == names_view(files@).len());
                assert(spec_names.to_multiset().len() == spec_names.len());
            }
            return Result::Err(ConfigError::NoConfigFiles);
        }
        Result::Ok(Config { files })
    }

    /// Merges the sources parsed from each configuration file, in file
    /// order: the declarations of earlier files come first.
    pub fn read(&self, parsed: Vec<Vec<ProviderSource>>) -> (r: Vec<ProviderSource>)
        ensures
            r@ == flatten_parsed(parsed@),
    {
        let mut parsed = parsed;
        let ghost orig = parsed@;
        let mut out: Vec<ProviderSource> = Vec::new();
        proof {
            assert(out@ + flatten_parsed(parsed@) =~= flatten_parsed(orig));
        }
        while parsed.len() > 0
            invariant
                out@ + flatten_parsed(parsed@) == flatten_parsed(orig),
            decreases parsed@.len(),
        {
            let ghost before = parsed@;
            let mut first = parsed.remove(0);
            proof {
                assert(parsed@ =~= before.drop_first());
                assert(flatten_parsed(before) == first@ + flatten_parsed(parsed@));
            }
            while first.len() > 0
                invariant
                    out@ + (first@ + flatten_parsed(parsed@)) == flatten_parsed(orig),
                decreases first@.len(),
            {
                let ghost f0 = first@;
                let x = first.remove(0);
                out.push(x);
                proof {
                    assert(first@ =~= f0.drop_first());
                    assert(out@ + (first@ + flatten_parsed(parsed@)) =~= flatten_parsed(
                        orig,
                    ));
                }
            }
            proof {
                assert(first@ =~= Seq::<ProviderSource>::empty());
                assert(out@ + flatten_parsed(parsed@) =~= flatten_parsed(orig));
            }
        }
        proof {
            assert(flatten_parsed(parsed@) =~= Seq::<ProviderSource>::empty());
            assert(out@ =~= flatten_parsed(orig));
        }
        out
    }
}

/// The sources of all configuration files, flattened in file order.
pub open spec fn flatten_parsed(lists: Seq<Vec<ProviderSource>>) -> Seq<ProviderSource>
    decreases lists.len(),
{
    if lists.len() == 0 {
        Seq::empty()
    } else {
        lists[0]@ + flatten_parsed(lists.drop_first())
    }
}

/// One configured source: a provider kind with that provider's fields.
pub enum ProviderSource {
    Gitlab(GitlabProvider),
    Github(GithubProvider),
}

impl ProviderSource {
    /// The source accepts its configuration.
    pub open spec fn configured_spec(&self, token_present: bool) -> bool {
        match self {
            ProviderSource::Gitlab(p) => p.configured_spec(token_present),
            ProviderSource::Github(p) => p.configured_spec(token_present),
        }
    }

    /// The records the source keeps of a fetched batch, as field views.
    pub open spec fn selected_lines(&self, records: Seq<RepoRecord>) -> Seq<RepoLine> {
        match self {
            ProviderSource::Gitlab(p) => p.selected_lines(records),
            ProviderSource::Github(p) => p.selected_lines(records),
        }
    }

    /// Every filter pattern the source declares compiles.
    pub open spec fn patterns_ok(&self) -> bool {
        match self {
            ProviderSource::Gitlab(p) => p.patterns_ok(),
            ProviderSource::Github(p) => p.patterns_ok(),
        }
    }

    /// One line naming the source, in place of a display impl.
    pub fn describe(&self) -> (r: String)
        ensures
            self matches ProviderSource::Gitlab(p) ==> r@ == "Gitlab user/group "@
                + crate::utils::lower_of(p.name@) + " at "@ + p.url@ + " in directory "@
                + p.path@ + ", using the token stored in "@ + p.env_var@,
            self matches ProviderSource::Github(p) ==> r@ == "Github user/org "@
                + crate::utils::lower_of(p.name@) + " in directory "@
                + crate::utils::lower_of(p.path@) + ", using the token stored in "@
                + p.env_var@,
    {
        match self {
            ProviderSource::Gitlab(p) => p.describe(),
            ProviderSource::Github(p) => p.describe(),
        }
    }

    /// True if the source's provider should work with its configuration.
    pub fn correctly_configured(&self, token_present: bool) -> (r: bool)
        ensures
            r == self.configured_spec(token_present),
    {
        match self {
            ProviderSource::Gitlab(p) => p.correctly_configured(token_present),
            ProviderSource::Github(p) => p.correctly_configured(token_present),
        }
    }

    /// Turns one fetched batch of raw records into repository records,
    /// keeping exactly what the source's filters admit.
    pub fn fetch_repositories(&self, records: &Vec<RepoRecord>) -> (r: Result<
        Vec<Repository>,
        regex::Error,
    >)
        ensures
            r matches Ok(v) ==> v@.map_values(
                |x: Repository| crate::providers::repo_view(&x),
            ) == self.selected_lines(records@),
            r is Ok <==> self.patterns_ok(),
    {
        match self {
            ProviderSource::Gitlab(p) => p.fetch_repositories(records),
            ProviderSource::Github(p) => p.fetch_repositories(records),
        }
    }
}

} // verus!
