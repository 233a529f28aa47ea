use git_workspace::commands::{execute_cmd, fetch, list, lock, pull_args, update};
use git_workspace::config::{Config, ConfigError, ProviderSource};
use git_workspace::executor::map_repositories;
use git_workspace::graphql::write_lockfile;
use git_workspace::lockfile::{lockfile_name, Lockfile};
use git_workspace::order::{sort_strings, str_compare};
use git_workspace::providers::{
    default_forks, public_gitea_url, public_github_url, public_gitlab_url, GiteaProvider,
    GithubProvider, GitlabProvider, Provider, RepoRecord,
};
use git_workspace::repository::{Repository, SwitchStep};
use git_workspace::utils::{build_prompt_text, confirm_decision};

fn repo(path: &str, url: &str) -> Repository {
    Repository::new(path.to_string(), url.to_string(), None, None)
}

fn s(x: &str) -> String {
    x.to_string()
}

#[test]
fn test_find_config_files() {
    let entries = vec![
        s("workspace.toml"),
        s("workspace-test.toml"),
        s("workspace-lock.toml"),
        s("other.toml"),
    ];
    let config = Config::from_workspace(&entries).unwrap();
    assert_eq!(config.files.len(), 2);
    assert!(config.files[0].ends_with("workspace-test.toml"));
    assert!(config.files[1].ends_with("workspace.toml"));
}

#[test]
fn from_workspace_without_config_is_refused() {
    let entries = vec![s("other.toml"), s("workspace-lock.toml")];
    match Config::from_workspace(&entries) {
        Err(ConfigError::NoConfigFiles) => {}
        _ => panic!("expected the workspace to be refused"),
    }
}

fn github_group_source() -> ProviderSource {
    ProviderSource::Github(GithubProvider {
        name: s("github-group"),
        path: s("github"),
        env_var: s("GITHUB_TOKEN"),
        skip_forks: false,
        exclude: vec![],
        url: s("https://api.github.com/graphql"),
    })
}

fn gitlab_group_source() -> ProviderSource {
    ProviderSource::Gitlab(GitlabProvider {
        name: s("gitlab-group"),
        url: s("https://gitlab.com"),
        path: s("gitlab"),
        env_var: s("GITLAB_COM_TOKEN"),
        includes: vec![],
        exclude: vec![],
    })
}

#[test]
fn test_config_read() {
    // two configuration files, each declaring a Github and a Gitlab source
    let config = Config::new(vec![s("workspace-42.toml"), s("workspace.toml")]);
    let providers = config.read(vec![
        vec![github_group_source(), gitlab_group_source()],
        vec![github_group_source(), gitlab_group_source()],
    ]);
    assert_eq!(providers.len(), 4);
    match &providers[0] {
        ProviderSource::Github(config) => assert_eq!(config.name, "github-group"),
        _ => panic!("Expected Github provider"),
    }
    match &providers[1] {
        ProviderSource::Gitlab(config) => assert_eq!(config.name, "gitlab-group"),
        _ => panic!("Expected Gitlab provider"),
    }
}

#[test]
fn lock_sorts_and_removes_duplicates() {
    let results = vec![
        Ok(vec![repo("b/y", "u2"), repo("a/x", "u1")]),
        Ok(vec![repo("a/x", "u1")]),
    ];
    let out = lock(results).unwrap();
    assert_eq!(out.len(), 2);
    assert_eq!(out[0].path, "a/x");
    assert_eq!(out[1].path, "b/y");
}

#[test]
fn lock_fails_on_first_failing_source() {
    let results = vec![
        Ok(vec![repo("a/x", "u1")]),
        Err(s("token missing")),
        Err(s("later failure")),
    ];
    let failure = lock(results).err().unwrap();
    assert_eq!(failure.index, 1);
    assert_eq!(failure.message, "token missing");
}

#[test]
fn lock_keeps_one_row_per_path() {
    // two sources report the same path with different urls: one row stays,
    // with the least record as the deterministic tie-break
    let results = vec![
        Ok(vec![repo("a/x", "url-b")]),
        Ok(vec![repo("a/x", "url-a")]),
    ];
    let out = lock(results).unwrap();
    assert_eq!(out.len(), 1);
    assert_eq!(out[0].path, "a/x");
    assert_eq!(out[0].url, "url-a");
}

#[test]
fn update_clones_only_missing_checkouts() {
    let repos = vec![repo("a/x", "u1"), repo("a/y", "u2")];
    let missing = update(&repos, &vec![true, false]);
    assert_eq!(missing.len(), 1);
    assert_eq!(missing[0].path, "a/y");
}

#[test]
fn update_twice_clones_nothing_more() {
    let repos = vec![repo("a/x", "u1"), repo("a/y", "u2")];
    let first = update(&repos, &vec![false, false]);
    assert_eq!(first.len(), 2);
    // every entry cloned by the first pass now exists
    let second = update(&repos, &vec![true, true]);
    assert_eq!(second.len(), 0);
}

#[test]
fn update_after_new_repository_clones_exactly_it() {
    // an empty lockfile updates to nothing
    let empty: Vec<Repository> = vec![];
    assert_eq!(update(&empty, &vec![]).len(), 0);
    // one new repository appears in a source; after the next lock the
    // update clones exactly it and leaves the prior checkouts untouched
    let results = vec![Ok(vec![repo("a/x", "u1"), repo("a/new", "u3")])];
    let locked = lock(results).unwrap();
    let present: Vec<bool> = locked.iter().map(|r| r.path != "a/new").collect();
    let cloned = update(&locked, &present);
    assert_eq!(cloned.len(), 1);
    assert_eq!(cloned[0].path, "a/new");
}

#[test]
fn batch_reports_each_failure_and_completes() {
    let repos = vec![repo("a/x", "u1"), repo("a/y", "u2"), repo("a/z", "u3")];
    let results = vec![Ok(()), Err(s("exit code 128")), Ok(())];
    let outcome = map_repositories(&repos, &results);
    assert_eq!(outcome.completed, 3);
    assert_eq!(outcome.failures.len(), 1);
    assert_eq!(outcome.failures[0].0.path, "a/y");
    assert_eq!(outcome.failures[0].1, "exit code 128");
}

#[test]
fn fetch_plans_git_over_existing_checkouts() {
    let repos = vec![repo("a/x", "u1"), repo("a/y", "u2")];
    let plan = fetch(&repos, &vec![true, false]);
    assert_eq!(plan.program, "git");
    assert_eq!(
        plan.args,
        vec![
            s("fetch"),
            s("--all"),
            s("--prune"),
            s("--recurse-submodules=on-demand"),
            s("--progress"),
        ]
    );
    assert_eq!(plan.repositories.len(), 1);
    assert_eq!(plan.repositories[0].path, "a/x");
}

#[test]
fn execute_cmd_keeps_command_and_filters() {
    let repos = vec![repo("a/x", "u1")];
    let plan = execute_cmd(&repos, &vec![true], s("git"), vec![s("status")]);
    assert_eq!(plan.program, "git");
    assert_eq!(plan.args, vec![s("status")]);
    assert_eq!(plan.repositories.len(), 1);
}

#[test]
fn list_names_or_full_paths() {
    let repos = vec![repo("a/x", "u1"), repo("a/y", "u2")];
    let short = list(&repos, &vec![true, true], false, "/ws");
    assert_eq!(short, vec![s("a/x"), s("a/y")]);
    let full = list(&repos, &vec![true, false], true, "/ws");
    assert_eq!(full, vec![s("/ws/a/x")]);
}

#[test]
fn pull_arguments_follow_upstream_and_branch() {
    let plain = repo("a/x", "u1");
    assert_eq!(pull_args(&plain), vec![s("pull")]);
    let forked = Repository::new(s("a/y"), s("u2"), Some(s("main")), Some(s("parent-url")));
    assert_eq!(pull_args(&forked), vec![s("pull"), s("upstream"), s("main")]);
}

#[test]
fn switch_step_protects_dirty_trees() {
    let plain = repo("a/x", "u1");
    assert!(matches!(plain.switch_step(0), SwitchStep::KeepHead));
    let branched = Repository::new(s("a/y"), s("u2"), Some(s("main")), None);
    assert!(matches!(branched.switch_step(2), SwitchStep::Dirty));
    match branched.switch_step(0) {
        SwitchStep::Checkout(b) => assert_eq!(b, "main"),
        _ => panic!("expected a checkout"),
    }
}

#[test]
fn clone_command_names_url_and_destination() {
    let r = repo("a/x", "git@example.org:owner/x.git");
    let args = r.clone_command("/ws");
    assert_eq!(
        args,
        vec![
            s("clone"),
            s("--recurse-submodules"),
            s("--progress"),
            s("git@example.org:owner/x.git"),
            s("/ws/a/x"),
        ]
    );
}

#[test]
fn upstream_commands_remove_then_add() {
    let r = Repository::new(s("a/x"), s("u1"), None, Some(s("git@example.org:up/x.git")));
    assert!(r.needs_upstream());
    let rm = r.upstream_remove_command("/ws");
    assert_eq!(rm, vec![s("-C"), s("/ws/a/x"), s("remote"), s("rm"), s("upstream")]);
    let add = r.upstream_add_command("/ws");
    assert_eq!(
        add,
        vec![
            s("-C"),
            s("/ws/a/x"),
            s("remote"),
            s("add"),
            s("upstream"),
            s("git@example.org:up/x.git"),
        ]
    );
}

#[test]
fn repository_order_is_by_path_first() {
    let a = repo("a/x", "z-url");
    let b = repo("b/y", "a-url");
    assert!(a.compare(&b) < 0);
    assert!(b.compare(&a) > 0);
    assert_eq!(a.compare(&a.clone()), 0);
    let c1 = repo("a/x", "u1");
    let c2 = Repository::new(s("a/x"), s("u1"), Some(s("main")), None);
    assert!(c1.compare(&c2) < 0);
}

#[test]
fn string_order_and_sorting() {
    assert!(str_compare("abc", "abd") < 0);
    assert!(str_compare("ab", "abc") < 0);
    assert_eq!(str_compare("same", "same"), 0);
    let sorted = sort_strings(vec![s("pear"), s("apple"), s("orange")]);
    assert_eq!(sorted, vec![s("apple"), s("orange"), s("pear")]);
}

#[test]
fn lockfile_handle_keeps_its_path() {
    let lf = Lockfile::new(s("/ws/workspace-lock.toml"));
    assert_eq!(lf.path, "/ws/workspace-lock.toml");
    assert_eq!(lockfile_name(), "workspace-lock.toml");
}

#[test]
fn prompt_text_shows_default() {
    assert_eq!(build_prompt_text("Proceed?", " ", true, Some("y/N")), "Proceed? [y/N] ");
    assert_eq!(build_prompt_text("Proceed?", " ", false, Some("y/N")), "Proceed? ");
}

#[test]
fn confirm_decision_reads_the_answer() {
    assert_eq!(confirm_decision("y", false), Some(true));
    assert_eq!(confirm_decision("yes", false), Some(true));
    assert_eq!(confirm_decision("n", true), Some(false));
    assert_eq!(confirm_decision("no", true), Some(false));
    assert_eq!(confirm_decision("", true), Some(true));
    assert_eq!(confirm_decision("", false), Some(false));
    assert_eq!(confirm_decision("maybe", true), None);
}

#[test]
fn lockfile_document_is_versioned() {
    let doc = write_lockfile(vec![]);
    assert_eq!(doc.metadata.version, 1);
    assert_eq!(doc.entries.len(), 0);
}

fn gh_record(name: &str, archived: bool) -> RepoRecord {
    RepoRecord {
        full_name: name.to_string(),
        ssh_url: format!("git@example.org:{}.git", name),
        clone_url: format!("https://example.org/{}.git", name),
        default_branch: Some(s("main")),
        parent_ssh_url: None,
        archived,
        fork: false,
    }
}

#[test]
fn github_filter_drops_archived_and_excluded() {
    let p = GithubProvider {
        name: s("owner"),
        path: s("github"),
        env_var: s("GITHUB_TOKEN"),
        skip_forks: false,
        exclude: vec![s("^owner/skip")],
        url: s("https://api.github.com/graphql"),
    };
    let records = vec![
        gh_record("owner/keep", false),
        gh_record("owner/skipme", false),
        gh_record("owner/old", true),
    ];
    let out = p.fetch_repositories(&records).unwrap();
    assert_eq!(out.len(), 1);
    assert_eq!(out[0].path, "github/owner/keep");
    assert_eq!(out[0].url, "git@example.org:owner/keep.git");
    assert_eq!(out[0].branch, Some(s("main")));
}

#[test]
fn github_skip_forks_drops_forks() {
    let p = GithubProvider {
        name: s("owner"),
        path: s("github"),
        env_var: s("GITHUB_TOKEN"),
        skip_forks: true,
        exclude: vec![],
        url: s("https://api.github.com/graphql"),
    };
    let mut forked = gh_record("owner/forked", false);
    forked.fork = true;
    forked.parent_ssh_url = Some(s("git@example.org:up/forked.git"));
    let records = vec![gh_record("owner/own", false), forked];
    let out = p.fetch_repositories(&records).unwrap();
    assert_eq!(out.len(), 1);
    assert_eq!(out[0].path, "github/owner/own");
}

#[test]
fn github_bad_pattern_is_an_error() {
    let p = GithubProvider {
        name: s("owner"),
        path: s("github"),
        env_var: s("GITHUB_TOKEN"),
        skip_forks: false,
        exclude: vec![s("(unclosed")],
        url: s("https://api.github.com/graphql"),
    };
    assert!(p.fetch_repositories(&vec![]).is_err());
}

#[test]
fn gitlab_include_narrows_the_selection() {
    let p = GitlabProvider {
        name: s("group"),
        url: s("https://gitlab.com"),
        path: s("gitlab"),
        env_var: s("GITLAB_TOKEN"),
        includes: vec![s("^group/wanted")],
        exclude: vec![],
    };
    let records = vec![gh_record("group/wanted", false), gh_record("group/other", false)];
    let out = p.fetch_repositories(&records).unwrap();
    assert_eq!(out.len(), 1);
    assert_eq!(out[0].path, "gitlab/group/wanted");
    assert_eq!(out[0].upstream, None);
}

#[test]
fn provider_configuration_check() {
    let good = ProviderSource::Github(GithubProvider {
        name: s("owner"),
        path: s("github"),
        env_var: s("GITHUB_TOKEN"),
        skip_forks: false,
        exclude: vec![],
        url: s("https://api.github.com/graphql"),
    });
    assert!(good.correctly_configured(true));
    assert!(!good.correctly_configured(false));
    let trailing = ProviderSource::Gitlab(GitlabProvider {
        name: s("group/"),
        url: s("https://gitlab.com"),
        path: s("gitlab"),
        env_var: s("GITLAB_TOKEN"),
        includes: vec![],
        exclude: vec![],
    });
    assert!(!trailing.correctly_configured(true));
}

#[test]
fn lock_of_no_sources_is_empty() {
    let out = lock(vec![]).unwrap();
    assert_eq!(out.len(), 0);
}

#[test]
fn gitea_filter_honours_forks_and_auth() {
    let p = GiteaProvider {
        name: s("org"),
        path: s("gitea"),
        env_var: GiteaProvider::default_env_var(),
        skip_forks: true,
        includes: vec![],
        auth_http: true,
        exclude: vec![],
        url: public_gitea_url(),
    };
    let mut forked = gh_record("org/forked", false);
    forked.fork = true;
    let records = vec![gh_record("org/own", false), forked];
    let out = p.fetch_repositories(&records).unwrap();
    assert_eq!(out.len(), 1);
    assert_eq!(out[0].path, "gitea/org/own");
    // http authentication picks the clone url over the ssh url
    assert_eq!(out[0].url, "https://example.org/org/own.git");
}

#[test]
fn provider_defaults_are_fixed() {
    assert!(!default_forks());
    assert_eq!(public_github_url(), "https://api.github.com/graphql");
    assert_eq!(public_gitlab_url(), "https://gitlab.com");
    assert_eq!(public_gitea_url(), "https://gitea.com");
    assert_eq!(GithubProvider::default_env_var(), "GITHUB_TOKEN");
    assert_eq!(GitlabProvider::default_env_var(), "GITHUB_TOKEN");
    assert_eq!(GiteaProvider::default_env_var(), "GITEA_TOKEN");
}

#[test]
fn source_description_names_the_provider() {
    let p = GithubProvider {
        name: s("owner"),
        path: s("github"),
        env_var: s("GITHUB_TOKEN"),
        skip_forks: false,
        exclude: vec![],
        url: s("https://api.github.com/graphql"),
    };
    assert_eq!(
        ProviderSource::Github(p).describe(),
        "Github user/org owner in directory github, using the token stored in GITHUB_TOKEN"
    );
}
