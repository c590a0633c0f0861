//! Repositories and the player's progress records.

use l1t::level::LevelInfo;
use l1t::level::LevelSource;
use l1t::repository::Repository;
use l1t::repository::RepositoryLevelInfo;
use l1t::repository::RepositoryResponse;
use l1t::userdata::UserData;
use l1t::L1t;

fn user_data() -> UserData {
    UserData {
        file: "data.json".to_string(),
        completed_core_levels: Vec::new(),
        completed_levels: Vec::new(),
        repositories: Vec::new(),
    }
}

fn repo_level(source: &str, name: &str) -> LevelInfo {
    LevelInfo {
        source: LevelSource::Url(source.to_string()),
        name: name.to_string(),
        author: "someone".to_string(),
        description: "a level".to_string(),
    }
}

#[test]
fn game_handle_exists() {
    let _game = L1t::new();
}

#[test]
fn repository_starts_empty() {
    let repo = Repository::new("My Repo".to_string(), "http://example.test".to_string());
    assert_eq!(repo.name, "My Repo");
    assert_eq!(repo.url, "http://example.test");
    assert!(repo.levels.is_empty());
}

#[test]
fn listing_entries_become_levels_under_the_repository_url() {
    let mut repo = Repository::new("My Repo".to_string(), "http://example.test".to_string());
    let response = RepositoryResponse {
        levels: vec![
            RepositoryLevelInfo {
                source: "one.l1t".to_string(),
                name: "One".to_string(),
                author: "a".to_string(),
                description: "d1".to_string(),
            },
            RepositoryLevelInfo {
                source: "two.l1t".to_string(),
                name: "Two".to_string(),
                author: "b".to_string(),
                description: "d2".to_string(),
            },
        ],
    };
    repo.apply_listing(&response);
    assert_eq!(repo.levels.len(), 2);
    match &repo.levels[0].source {
        LevelSource::Url(u) => assert_eq!(u, "http://example.test/one.l1t"),
        other => panic!("expected a url source, got {other:?}"),
    }
    assert_eq!(repo.levels[0].name, "One");
    assert_eq!(repo.levels[1].author, "b");
    match &repo.levels[1].source {
        LevelSource::Url(u) => assert_eq!(u, "http://example.test/two.l1t"),
        other => panic!("expected a url source, got {other:?}"),
    }
}

#[test]
fn completing_a_core_level_records_it_once() {
    let mut data = user_data();
    let info = LevelInfo {
        source: LevelSource::Core(2),
        name: "Level 3".to_string(),
        author: "a".to_string(),
        description: "d".to_string(),
    };
    assert!(data.complete(info).is_ok());
    assert_eq!(data.completed_core_levels, vec![2]);
    let again = LevelInfo {
        source: LevelSource::Core(2),
        name: "Level 3".to_string(),
        author: "a".to_string(),
        description: "d".to_string(),
    };
    assert!(data.complete(again).is_ok());
    assert_eq!(data.completed_core_levels, vec![2]);
}

#[test]
fn completing_a_repo_level_records_url_and_header() {
    let mut data = user_data();
    assert!(data.complete(repo_level("http://r.test/one", "One")).is_ok());
    assert_eq!(data.completed_levels.len(), 1);
    assert_eq!(data.completed_levels[0].url, "http://r.test/one");
    assert_eq!(data.completed_levels[0].name, "One");
    assert_eq!(data.completed_levels[0].author, "someone");
}

#[test]
fn repo_level_is_not_recorded_twice_by_url() {
    let mut data = user_data();
    assert!(data.complete(repo_level("http://r.test/one", "One")).is_ok());
    assert!(data.complete(repo_level("http://r.test/one", "Renamed")).is_ok());
    assert_eq!(data.completed_levels.len(), 1);
}

#[test]
fn repo_level_is_not_recorded_twice_by_name_and_author() {
    let mut data = user_data();
    assert!(data.complete(repo_level("http://r.test/one", "One")).is_ok());
    // a different URL but the same name and author counts as done
    assert!(data.complete(repo_level("http://r.test/mirror-of-one", "One")).is_ok());
    assert_eq!(data.completed_levels.len(), 1);
    // a genuinely new level is recorded
    assert!(data.complete(repo_level("http://r.test/two", "Two")).is_ok());
    assert_eq!(data.completed_levels.len(), 2);
}

#[test]
fn file_levels_are_not_tracked() {
    let mut data = user_data();
    let info = LevelInfo {
        source: LevelSource::File("local.l1t".to_string()),
        name: "Local".to_string(),
        author: "a".to_string(),
        description: "d".to_string(),
    };
    let result = data.complete(info);
    assert_eq!(result.unwrap_err(), "");
    assert!(data.completed_core_levels.is_empty());
    assert!(data.completed_levels.is_empty());
}

#[test]
fn repositories_config_lines_parse() {
    let content = "  repo one = http://a.test \n\nnot a config line\nr2=http://b.test=extra\n";
    let repos = UserData::parse_repositories(content);
    assert_eq!(repos.len(), 2);
    assert_eq!(repos[0].name, "repo one");
    assert_eq!(repos[0].url, "http://a.test");
    assert!(repos[0].levels.is_empty());
    assert_eq!(repos[1].name, "r2");
    // only what stands between the first and second equals sign counts
    assert_eq!(repos[1].url, "http://b.test");
}

#[test]
fn repositories_config_empty_text_configures_nothing() {
    assert!(UserData::parse_repositories("").is_empty());
    assert!(UserData::parse_repositories("   \n  ").is_empty());
}
