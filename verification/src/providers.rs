//! The provider sources: the per-provider configuration records and the
//! logic that turns what a provider's API reports into repository records
//! of the workspace. The HTTP calls and response parsing happen outside
//! the library, which receives each reported repository as plain values;
//! the include and exclude filters run here, through the regex crate.

use vstd::prelude::*;
use crate::repository::Repository;
use crate::order::{view_opt, lemma_char_cast_injective};

verus! {

#[verifier::external_type_specification]
#[verifier::external_body]
pub struct ExRegexSet(regex::RegexSet);

#[verifier::external_type_specification]
#[verifier::external_body]
pub struct ExRegexError(regex::Error);

/// The patterns a compiled regex set was built from.
pub uninterp spec fn regex_set_patterns(s: &regex::RegexSet) -> Seq<Seq<char>>;

/// Whether any of the patterns matches the text, as the regex crate
/// decides it: a function of the patterns and the text alone.
pub uninterp spec fn regex_match(patterns: Seq<Seq<char>>, text: Seq<char>) -> bool;

/// The patterns all compile, within the regex crate's limits, as that
/// crate decides it: a function of the patterns alone.
pub uninterp spec fn regex_patterns_ok(patterns: Seq<Seq<char>>) -> bool;

/// Relies on regex::RegexSet::new: compiles the given patterns into one
/// set. A pattern that is not a valid regular expression, or a set past
/// the crate's size limits, comes back as the build's error, which
/// depends on the patterns alone; no input panics.
#[verifier::external_body]
fn regex_set_new(patterns: &Vec<String>) -> (r: Result<regex::RegexSet, regex::Error>)
    ensures
        r matches Ok(s) ==> regex_set_patterns(&s) == patterns@.map_values(|p: String| p@),
        r is Err <==> !regex_patterns_ok(patterns@.map_values(|p: String| p@)),
{
    regex::RegexSet::new(patterns)
}

/// Relies on regex::RegexSet::is_match: true iff at least one pattern of
/// the set matches the haystack.
#[verifier::external_body]
fn regex_set_is_match(s: &regex::RegexSet, text: &str) -> (r: bool)
    ensures
        r == regex_match(regex_set_patterns(s), text@),
{
    s.is_match(text)
}

/// The include filter of a provider: an empty include list admits every
/// repository, a non-empty one only those a pattern matches.
pub enum IncludeFilter {
    All,
    Patterns(regex::RegexSet),
}

/// The exclude filter of a provider: an empty exclude list rejects
/// nothing, a non-empty one what a pattern matches.
pub enum ExcludeFilter {
    Nothing,
    Patterns(regex::RegexSet),
}

/// What an include list admits: everything when empty, else what its
/// patterns match.
pub open spec fn include_admits(items: Seq<Seq<char>>, text: Seq<char>) -> bool {
    items.len() == 0 || regex_match(items, text)
}

/// What an exclude list rejects: nothing when empty, else what its
/// patterns match.
pub open spec fn exclude_rejects(items: Seq<Seq<char>>, text: Seq<char>) -> bool {
    items.len() > 0 && regex_match(items, text)
}

/// The views of a batch of pattern strings.
pub open spec fn patterns_view(items: Seq<String>) -> Seq<Seq<char>> {
    items.map_values(|p: String| p@)
}

/// Builds the include filter of a source: admit everything when no
/// include pattern is declared, else exactly what the patterns match.
pub fn create_include_regex_set(items: &Vec<String>) -> (r: Result<IncludeFilter, regex::Error>)
    ensures
        r is Err <==> items@.len() > 0 && !regex_patterns_ok(patterns_view(items@)),
        r matches Ok(f) ==> match f {
            IncludeFilter::All => items@.len() == 0,
            IncludeFilter::Patterns(s) => regex_set_patterns(&s) == patterns_view(items@)
                && items@.len() > 0,
        },
{
    if items.len() == 0 {
        Result::Ok(IncludeFilter::All)
    } else {
        match regex_set_new(items) {
            Result::Ok(s) => Result::Ok(IncludeFilter::Patterns(s)),
            Result::Err(e) => Result::Err(e),
        }
    }
}

/// Builds the exclude filter of a source: reject nothing when no exclude
/// pattern is declared, else exactly what the patterns match.
pub fn create_exclude_regex_set(items: &Vec<String>) -> (r: Result<ExcludeFilter, regex::Error>)
    ensures
        r is Err <==> items@.len() > 0 && !regex_patterns_ok(patterns_view(items@)),
        r matches Ok(f) ==> match f {
            ExcludeFilter::Nothing => items@.len() == 0,
            ExcludeFilter::Patterns(s) => regex_set_patterns(&s) == patterns_view(items@)
                && items@.len() > 0,
        },
{
    if items.len() == 0 {
        Result::Ok(ExcludeFilter::Nothing)
    } else {
        match regex_set_new(items) {
            Result::Ok(s) => Result::Ok(ExcludeFilter::Patterns(s)),
            Result::Err(e) => Result::Err(e),
        }
    }
}

impl IncludeFilter {
    /// Whether the filter admits this repository name.
    pub fn admits(&self, items: &Vec<String>, text: &str) -> (r: bool)
        requires
            match self {
                IncludeFilter::All => items@.len() == 0,
                IncludeFilter::Patterns(s) => regex_set_patterns(s) == patterns_view(items@)
                    && items@.len() > 0,
            },
        ensures
            r == include_admits(patterns_view(items@), text@),
    {
        match self {
            IncludeFilter::All => true,
            IncludeFilter::Patterns(s) => regex_set_is_match(s, text),
        }
    }
}

impl ExcludeFilter {
    /// Whether the filter rejects this repository name.
    pub fn rejects(&self, items: &Vec<String>, text: &str) -> (r: bool)
        requires
            match self {
                ExcludeFilter::Nothing => items@.len() == 0,
                ExcludeFilter::Patterns(s) => regex_set_patterns(s) == patterns_view(items@)
                    && items@.len() > 0,
            },
        ensures
            r == exclude_rejects(patterns_view(items@), text@),
    {
        match self {
            ExcludeFilter::Nothing => false,
            ExcludeFilter::Patterns(s) => regex_set_is_match(s, text),
        }
    }
}

/// One repository as a provider's API reports it, reduced to plain values
/// by the caller that performed the fetch.
pub struct RepoRecord {
    pub full_name: String,
    pub ssh_url: String,
    pub clone_url: String,
    pub default_branch: Option<String>,
    pub parent_ssh_url: Option<String>,
    pub archived: bool,
    pub fork: bool,
}

/// The field views of one repository record of the workspace: path, url,
/// primary branch and upstream remote.
pub open spec fn repo_view(r: &Repository) -> (Seq<char>, Seq<char>, Option<Seq<char>>, Option<
    Seq<char>,
>) {
    (r.path@, r.url@, view_opt(&r.branch), view_opt(&r.upstream))
}

/// A source of repositories on one hosting provider.
pub trait Provider: Sized {
    /// The provider accepts its configuration.
    spec fn configured_spec(&self, token_present: bool) -> bool;

    /// The records the source keeps of a fetched batch, as field views,
    /// in batch order.
    spec fn selected_lines(&self, records: Seq<RepoRecord>) -> Seq<
        (Seq<char>, Seq<char>, Option<Seq<char>>, Option<Seq<char>>),
    >;

    /// Every filter pattern the source declares compiles.
    spec fn patterns_ok(&self) -> bool;

    /// True if the provider should work: the auth token is present in the
    /// environment and the source name is well-formed.
    fn correctly_configured(&self, token_present: bool) -> (r: bool)
        ensures
            r == self.configured_spec(token_present),
    ;

    /// Turns one fetched batch of raw records into the workspace's
    /// repository records, keeping exactly what the source's filters
    /// admit. Fails exactly when a declared filter pattern does not
    /// compile; with no declared patterns it cannot fail.
    fn fetch_repositories(&self, records: &Vec<RepoRecord>) -> (r: Result<
        Vec<Repository>,
        regex::Error,
    >)
        ensures
            r matches Ok(v) ==> v@.map_values(|x: Repository| repo_view(&x))
                == self.selected_lines(records@),
            r is Ok <==> self.patterns_ok(),
    ;
}

/// The name ends in a forward slash, which no source name may.
pub open spec fn ends_with_slash(name: Seq<char>) -> bool {
    name.len() > 0 && name[name.len() - 1] == '/'
}

/// Tells whether the source name ends in a forward slash.
pub fn name_ends_with_slash(name: &str) -> (r: bool)
    ensures
        r == ends_with_slash(name@),
{
    let n = name.unicode_len();
    if n == 0 {
        return false;
    }
    let c = name.get_char(n - 1);
    if (c as u32) == ('/' as u32) {
        proof {
            lemma_char_cast_injective(c, '/');
        }
        true
    } else {
        false
    }
}

/// A view line of one kept repository: path, url, branch, upstream.
pub type RepoLine = (Seq<char>, Seq<char>, Option<Seq<char>>, Option<Seq<char>>);

/// A Github user or organisation whose repositories the workspace tracks.
pub struct GithubProvider {
    pub name: String,
    pub path: String,
    pub env_var: String,
    pub skip_forks: bool,
    pub exclude: Vec<String>,
    pub url: String,
}

/// A Gitlab user or group whose repositories the workspace tracks.
pub struct GitlabProvider {
    pub name: String,
    pub url: String,
    pub path: String,
    pub env_var: String,
    pub includes: Vec<String>,
    pub exclude: Vec<String>,
}

/// A Gitea user or organisation whose repositories the workspace tracks.
pub struct GiteaProvider {
    pub name: String,
    pub path: String,
    pub env_var: String,
    pub skip_forks: bool,
    pub includes: Vec<String>,
    pub auth_http: bool,
    pub exclude: Vec<String>,
    pub url: String,
}

/// Whether forks are cloned when a source does not say.
pub fn default_forks() -> (r: bool)
    ensures
        r == false,
{
    false
}

/// The Github instance a source points at when it names none itself.
pub fn public_github_url() -> (r: String)
    ensures
        r@ == "https://api.github.com/graphql"@,
{
    String::from_str("https://api.github.com/graphql")
}

/// The Gitlab instance a source points at when it names none itself.
pub fn public_gitlab_url() -> (r: String)
    ensures
        r@ == "https://gitlab.com"@,
{
    String::from_str("https://gitlab.com")
}

/// The Gitea instance a source points at when it names none itself.
pub fn public_gitea_url() -> (r: String)
    ensures
        r@ == "https://gitea.com"@,
{
    String::from_str("https://gitea.com")
}

/// Joins a clone-path prefix and a reported repository name.
fn prefixed_path(prefix: &str, name: &str) -> (r: String)
    ensures
        r@ == prefix@ + seq!['/'] + name@,
{
    let mut s = String::new();
    s.append(prefix);
    s.append("/");
    proof {
        reveal_strlit("/");
        assert(s@ =~= prefix@ + seq!['/']);
    }
    s.append(name);
    s
}

/// An exact copy of an optional string.
fn clone_opt(o: &Option<String>) -> (r: Option<String>)
    ensures
        view_opt(&r) == view_opt(o),
{
    match o {
        Option::Some(x) => Option::Some(x.clone()),
        Option::None => Option::None,
    }
}

/// Whether Github keeps this record: not archived on the provider side,
/// not a fork when forks are skipped, and not excluded by the source's
/// patterns.
pub open spec fn github_keep(p: &GithubProvider, rec: &RepoRecord) -> bool {
    &&& !rec.archived
    &&& (!p.skip_forks || !rec.fork)
    &&& !exclude_rejects(patterns_view(p.exclude@), rec.full_name@)
}

/// The workspace record Github's report becomes.
pub open spec fn github_line(p: &GithubProvider, rec: &RepoRecord) -> RepoLine {
    (
        p.path@ + seq!['/'] + rec.full_name@,
        rec.ssh_url@,
        view_opt(&rec.default_branch),
        view_opt(&rec.parent_ssh_url),
    )
}

/// The records Github keeps of the first `i` reported, in order.
pub open spec fn github_lines(p: &GithubProvider, records: Seq<RepoRecord>, i: int) -> Seq<
    RepoLine,
>
    decreases i,
{
    if i <= 0 {
        Seq::empty()
    } else if github_keep(p, &records[i - 1]) {
        github_lines(p, records, i - 1).push(github_line(p, &records[i - 1]))
    } else {
        github_lines(p, records, i - 1)
    }
}

impl GithubProvider {
    /// One line naming the source, in place of a display impl: who it is,
    /// where it clones to, and which variable holds its token.
    pub fn describe(&self) -> (r: String)
        ensures
            r@ == "Github user/org "@ + crate::utils::lower_of(self.name@) + " in directory "@
                + crate::utils::lower_of(self.path@) + ", using the token stored in "@
                + self.env_var@,
    {
        let mut out = String::new();
        out.append("Github user/org ");
        out.append(crate::utils::lowercase(self.name.as_str()).as_str());
        out.append(" in directory ");
        out.append(crate::utils::lowercase(self.path.as_str()).as_str());
        out.append(", using the token stored in ");
        out.append(self.env_var.as_str());
        out
    }

    /// The environment variable the auth token is read from when a source
    /// does not name one.
    pub fn default_env_var() -> (r: String)
        ensures
            r@ == "GITHUB_TOKEN"@,
    {
        String::from_str("GITHUB_TOKEN")
    }

    /// Builds the workspace record of one reported repository: its path
    /// below the source's prefix, its ssh remote, its default branch and,
    /// for a fork, its parent as the upstream remote.
    pub fn parse_repo(&self, path: &str, rec: &RepoRecord) -> (r: Repository)
        ensures
            repo_view(&r) == (
                path@ + seq!['/'] + rec.full_name@,
                rec.ssh_url@,
                view_opt(&rec.default_branch),
                view_opt(&rec.parent_ssh_url),
            ),
    {
        Repository::new(
            prefixed_path(path, rec.full_name.as_str()),
            rec.ssh_url.clone(),
            clone_opt(&rec.default_branch),
            clone_opt(&rec.parent_ssh_url),
        )
    }
}

impl Provider for GithubProvider {
    open spec fn configured_spec(&self, token_present: bool) -> bool {
        token_present && !ends_with_slash(self.name@)
    }

    open spec fn selected_lines(&self, records: Seq<RepoRecord>) -> Seq<RepoLine> {
        github_lines(self, records, records.len() as int)
    }

    open spec fn patterns_ok(&self) -> bool {
        self.exclude@.len() == 0 || regex_patterns_ok(patterns_view(self.exclude@))
    }

    fn correctly_configured(&self, token_present: bool) -> (r: bool) {
        token_present && !name_ends_with_slash(self.name.as_str())
    }

    fn fetch_repositories(&self, records: &Vec<RepoRecord>) -> (r: Result<
        Vec<Repository>,
        regex::Error,
    >) {
        let exclude = match create_exclude_regex_set(&self.exclude) {
            Result::Ok(f) => f,
            Result::Err(e) => {
                return Result::Err(e);
            },
        };
        let n = records.len();
        let mut out: Vec<Repository> = Vec::new();
        let mut i: usize = 0;
        while i < n
            invariant
                n == records@.len(),
                i <= n,
                match exclude {
                    ExcludeFilter::Nothing => self.exclude@.len() == 0,
                    ExcludeFilter::Patterns(s) => regex_set_patterns(&s) == patterns_view(
                        self.exclude@,
                    ) && self.exclude@.len() > 0,
                },
                out@.map_values(|x: Repository| repo_view(&x)) == github_lines(
                    self,
                    records@,
                    i as int,
                ),
            decreases n - i,
        {
            let ghost oldout = out@;
            let rec = &records[i];
            if !rec.archived && (!self.skip_forks || !rec.fork) && !exclude.rejects(
                &self.exclude,
                rec.full_name.as_str(),
            ) {
                let repo = self.parse_repo(self.path.as_str(), rec);
                out.push(repo);
                proof {
                    assert(out@.map_values(|x: Repository| repo_view(&x)) =~= oldout.map_values(
                        |x: Repository| repo_view(&x),
                    ).push(github_line(self, &records@[i as int])));
                }
            }
            i = i + 1;
        }
        Result::Ok(out)
    }
}

/// Whether Gitlab keeps this record: not archived, admitted by the include
/// patterns and not rejected by the exclude patterns.
pub open spec fn gitlab_keep(p: &GitlabProvider, rec: &RepoRecord) -> bool {
    &&& !rec.archived
    &&& include_admits(patterns_view(p.includes@), rec.full_name@)
    &&& !exclude_rejects(patterns_view(p.exclude@), rec.full_name@)
}

/// The workspace record Gitlab's report becomes.
pub open spec fn gitlab_line(p: &GitlabProvider, rec: &RepoRecord) -> RepoLine {
    (
        p.path@ + seq!['/'] + rec.full_name@,
        rec.ssh_url@,
        view_opt(&rec.default_branch),
        Option::None,
    )
}

/// The records Gitlab keeps of the first `i` reported, in order.
pub open spec fn gitlab_lines(p: &GitlabProvider, records: Seq<RepoRecord>, i: int) -> Seq<
    RepoLine,
>
    decreases i,
{
    if i <= 0 {
        Seq::empty()
    } else if gitlab_keep(p, &records[i - 1]) {
        gitlab_lines(p, records, i - 1).push(gitlab_line(p, &records[i - 1]))
    } else {
        gitlab_lines(p, records, i - 1)
    }
}

impl GitlabProvider {
    /// One line naming the source, in place of a display impl.
    pub fn describe(&self) -> (r: String)
        ensures
            r@ == "Gitlab user/group "@ + crate::utils::lower_of(self.name@) + " at "@
                + self.url@ + " in directory "@ + self.path@
                + ", using the token stored in "@ + self.env_var@,
    {
        let mut out = String::new();
        out.append("Gitlab user/group ");
        out.append(crate::utils::lowercase(self.name.as_str()).as_str());
        out.append(" at ");
        out.append(self.url.as_str());
        out.append(" in directory ");
        out.append(self.path.as_str());
        out.append(", using the token stored in ");
        out.append(self.env_var.as_str());
        out
    }

    /// The environment variable the auth token is read from when a source
    /// does not name one.
    pub fn default_env_var() -> (r: String)
        ensures
            r@ == "GITHUB_TOKEN"@,
    {
        String::from_str("GITHUB_TOKEN")
    }
}

impl Provider for GitlabProvider {
    open spec fn configured_spec(&self, token_present: bool) -> bool {
        token_present && !ends_with_slash(self.name@)
    }

    open spec fn selected_lines(&self, records: Seq<RepoRecord>) -> Seq<RepoLine> {
        gitlab_lines(self, records, records.len() as int)
    }

    open spec fn patterns_ok(&self) -> bool {
        (self.includes@.len() == 0 || regex_patterns_ok(patterns_view(self.includes@)))
            && (self.exclude@.len() == 0 || regex_patterns_ok(patterns_view(self.exclude@)))
    }

    fn correctly_configured(&self, token_present: bool) -> (r: bool) {
        token_present && !name_ends_with_slash(self.name.as_str())
    }

    fn fetch_repositories(&self, records: &Vec<RepoRecord>) -> (r: Result<
        Vec<Repository>,
        regex::Error,
    >) {
        let includes = match create_include_regex_set(&self.includes) {
            Result::Ok(f) => f,
            Result::Err(e) => {
                return Result::Err(e);
            },
        };
        let exclude = match create_exclude_regex_set(&self.exclude) {
            Result::Ok(f) => f,
            Result::Err(e) => {
                return Result::Err(e);
            },
        };
        let n = records.len();
        let mut out: Vec<Repository> = Vec::new();
        let mut i: usize = 0;
        while i < n
            invariant
                n == records@.len(),
                i <= n,
                match includes {
                    IncludeFilter::All => self.includes@.len() == 0,
                    IncludeFilter::Patterns(s) => regex_set_patterns(&s) == patterns_view(
                        self.includes@,
                    ) && self.includes@.len() > 0,
                },
                match exclude {
                    ExcludeFilter::Nothing => self.exclude@.len() == 0,
                    ExcludeFilter::Patterns(s) => regex_set_patterns(&s) == patterns_view(
                        self.exclude@,
                    ) && self.exclude@.len() > 0,
                },
                out@.map_values(|x: Repository| repo_view(&x)) == gitlab_lines(
                    self,
                    records@,
                    i as int,
                ),
            decreases n - i,
        {
            let ghost oldout = out@;
            let rec = &records[i];
            if !rec.archived && includes.admits(&self.includes, rec.full_name.as_str())
                && !exclude.rejects(&self.exclude, rec.full_name.as_str()) {
                let repo = Repository::new(
                    prefixed_path(self.path.as_str(), rec.full_name.as_str()),
                    rec.ssh_url.clone(),
                    clone_opt(&rec.default_branch),
                    Option::None,
                );
                out.push(repo);
                proof {
                    assert(out@.map_values(|x: Repository| repo_view(&x)) =~= oldout.map_values(
                        |x: Repository| repo_view(&x),
                    ).push(gitlab_line(self, &records@[i as int])));
                }
            }
            i = i + 1;
        }
        Result::Ok(out)
    }
}

/// Whether Gitea keeps this record: not archived, not a fork when forks
/// are skipped, admitted by the include patterns and not rejected by the
/// exclude patterns.
pub open spec fn gitea_keep(p: &GiteaProvider, rec: &RepoRecord) -> bool {
    &&& !rec.archived
    &&& (!p.skip_forks || !rec.fork)
    &&& include_admits(patterns_view(p.includes@), rec.full_name@)
    &&& !exclude_rejects(patterns_view(p.exclude@), rec.full_name@)
}

/// The workspace record Gitea's report becomes: cloned over http when the
/// source asks for http authentication, over ssh otherwise.
pub open spec fn gitea_line(p: &GiteaProvider, rec: &RepoRecord) -> RepoLine {
    (
        p.path@ + seq!['/'] + rec.full_name@,
        if p.auth_http {
            rec.clone_url@
        } else {
            rec.ssh_url@
        },
        view_opt(&rec.default_branch),
        Option::None,
    )
}

/// The records Gitea keeps of the first `i` reported, in order.
pub open spec fn gitea_lines(p: &GiteaProvider, records: Seq<RepoRecord>, i: int) -> Seq<
    RepoLine,
>
    decreases i,
{
    if i <= 0 {
        Seq::empty()
    } else if gitea_keep(p, &records[i - 1]) {
        gitea_lines(p, records, i - 1).push(gitea_line(p, &records[i - 1]))
    } else {
        gitea_lines(p, records, i - 1)
    }
}

impl GiteaProvider {
    /// One line naming the source, in place of a display impl.
    pub fn describe(&self) -> (r: String)
        ensures
            r@ == "Gitea user/org "@ + crate::utils::lower_of(self.name@) + " at "@ + self.url@
                + " in directory "@ + self.path@ + ", using the token stored in "@
                + self.env_var@,
    {
        let mut out = String::new();
        out.append("Gitea user/org ");
        out.append(crate::utils::lowercase(self.name.as_str()).as_str());
        out.append(" at ");
        out.append(self.url.as_str());
        out.append(" in directory ");
        out.append(self.path.as_str());
        out.append(", using the token stored in ");
        out.append(self.env_var.as_str());
        out
    }

    /// The environment variable the auth token is read from when a source
    /// does not name one.
    pub fn default_env_var() -> (r: String)
        ensures
            r@ == "GITEA_TOKEN"@,
    {
        String::from_str("GITEA_TOKEN")
    }
}

impl Provider for GiteaProvider {
    open spec fn configured_spec(&self, token_present: bool) -> bool {
        token_present && !ends_with_slash(self.name@)
    }

    open spec fn selected_lines(&self, records: Seq<RepoRecord>) -> Seq<RepoLine> {
        gitea_lines(self, records, records.len() as int)
    }

    open spec fn patterns_ok(&self) -> bool {
        (self.includes@.len() == 0 || regex_patterns_ok(patterns_view(self.includes@)))
            && (self.exclude@.len() == 0 || regex_patterns_ok(patterns_view(self.exclude@)))
    }

    fn correctly_configured(&self, token_present: bool) -> (r: bool) {
        token_present && !name_ends_with_slash(self.name.as_str())
    }

    fn fetch_repositories(&self, records: &Vec<RepoRecord>) -> (r: Result<
        Vec<Repository>,
        regex::Error,
    >) {
        let includes = match create_include_regex_set(&self.includes) {
            Result::Ok(f) => f,
            Result::Err(e) => {
                return Result::Err(e);
            },
        };
        let exclude = match create_exclude_regex_set(&self.exclude) {
            Result::Ok(f) => f,
            Result::Err(e) => {
                return Result::Err(e);
            },
        };
        let n = records.len();
        let mut out: Vec<Repository> = Vec::new();
        let mut i: usize = 0;
        while i < n
            invariant
                n == records@.len(),
                i <= n,
                match includes {
                    IncludeFilter::All => self.includes@.len() == 0,
                    IncludeFilter::Patterns(s) => regex_set_patterns(&s) == patterns_view(
                        self.includes@,
                    ) && self.includes@.len() > 0,
                },
                match exclude {
                    ExcludeFilter::Nothing => self.exclude@.len() == 0,
                    ExcludeFilter::Patterns(s) => regex_set_patterns(&s) == patterns_view(
                        self.exclude@,
                    ) && self.exclude@.len() > 0,
                },
                out@.map_values(|x: Repository| repo_view(&x)) == gitea_lines(
                    self,
                    records@,
                    i as int,
                ),
            decreases n - i,
        {
            let ghost oldout = out@;
            let rec = &records[i];
            if !rec.archived && (!self.skip_forks || !rec.fork) && includes.admits(
                &self.includes,
                rec.full_name.as_str(),
            ) && !exclude.rejects(&self.exclude, rec.full_name.as_str()) {
                let url = if self.auth_http {
                    rec.clone_url.clone()
                } else {
                    rec.ssh_url.clone()
                };
                let repo = Repository::new(
                    prefixed_path(self.path.as_str(), rec.full_name.as_str()),
                    url,
                    clone_opt(&rec.default_branch),
                    Option::None,
                );
                out.push(repo);
                proof {
                    assert(out@.map_values(|x: Repository| repo_view(&x)) =~= oldout.map_values(
                        |x: Repository| repo_view(&x),
                    ).push(gitea_line(self, &records@[i as int])));
                }
            }
            i = i + 1;
        }
        Result::Ok(out)
    }
}

} // verus!
