use repomuse::cache::{FavoriteProjects, FileMetadataCache, FileStamp};
use repomuse::filecount::{FileCountCache, GlobalFileCountCache, ListedFile, ProjectListing};
use repomuse::projects::{get_package_info, is_candidate_dir_name, is_project_directory, ProjectFiles};

fn listed(path: &str, modified: u64) -> ListedFile {
    ListedFile { path: path.to_string(), modified: Some(modified) }
}

#[test]
fn file_count_cache_tracks_changes() {
    let mut c = FileCountCache::new("/p".to_string());
    assert_eq!(c.count, 0);
    let listing = vec![listed("/p/a.rs", 10), listed("/p/b.rs", 20), listed("/p/logo.png", 5)];
    assert_eq!(c.incremental_update(&listing, 50, 1000), Ok(true));
    assert_eq!(c.count, 2);
    assert_eq!(c.cached_at, 1000);
    assert_eq!(c.last_modified, 50);
    assert_eq!(c.file_inventory.as_ref().unwrap().get("/p/a.rs"), Some(&10));
    assert_eq!(c.incremental_update(&listing, 50, 2000), Ok(false));
    assert_eq!(c.cached_at, 1000);
    let touched = vec![listed("/p/a.rs", 11), listed("/p/b.rs", 20), listed("/p/logo.png", 5)];
    assert_eq!(c.incremental_update(&touched, 60, 3000), Ok(true));
    assert_eq!(c.file_inventory.as_ref().unwrap().get("/p/a.rs"), Some(&11));
    let fewer = vec![listed("/p/a.rs", 11)];
    assert_eq!(c.incremental_update(&fewer, 70, 4000), Ok(true));
    assert_eq!(c.count, 1);
    assert_eq!(c.file_inventory.as_ref().unwrap().get("/p/b.rs"), None);
}

#[test]
fn file_count_cache_validity() {
    let mut c = FileCountCache::new("/p".to_string());
    c.last_modified = 100;
    c.cached_at = 1000;
    assert!(c.is_likely_valid(100, 1000 + 86_400));
    assert!(!c.is_likely_valid(101, 1000));
    assert!(!c.is_likely_valid(100, 1000 + 86_401));
    assert!(!c.is_likely_valid(100, 999));
}

#[test]
fn global_cache_updates_projects() {
    let mut g = GlobalFileCountCache::new(5000);
    let listing = vec![listed("/p/a.rs", 1), listed("/p/b.rs", 2)];
    assert_eq!(g.update_project("/p", &listing, 10, 5000), Ok((2, true)));
    assert_eq!(g.update_project("/p", &listing, 10, 5001), Ok((2, false)));
    assert_eq!(g.update_project("/p", &listing, 11, 5002), Ok((2, true)));
    let batch = vec![
        ProjectListing { path: "/q".to_string(), listing: vec![listed("/q/x.py", 3)], root_modified: 1 },
        ProjectListing { path: "/p".to_string(), listing: vec![listed("/p/a.rs", 1)], root_modified: 11 },
    ];
    let res = g.batch_update(&batch, 6000);
    assert_eq!(res.get("/q"), Some(&(1, true)));
    assert_eq!(res.get("/p"), Some(&(1, true)));
    assert_eq!(g.projects.len(), 2);
}

#[test]
fn global_cache_cleanup_is_hourly() {
    let mut g = GlobalFileCountCache::new(1000);
    g.update_project("/p", &vec![], 0, 1000).unwrap();
    g.update_project("/gone", &vec![], 0, 1000).unwrap();
    g.cleanup_if_needed(1000 + 3600, &vec![true, false]);
    assert_eq!(g.projects.len(), 2);
    assert_eq!(g.last_cleanup, 1000);
    g.cleanup_if_needed(1000 + 3601, &vec![true, false]);
    assert_eq!(g.projects.len(), 1);
    assert!(g.projects.contains_key("/p"));
    assert_eq!(g.last_cleanup, 4601);
}

#[test]
fn file_metadata_cache_validation() {
    let mut c = FileMetadataCache::new();
    assert_eq!(c.cache_version, 1);
    assert_eq!(c.insert_metadata("/p/a.rs".to_string(), "Rust".to_string(), 10, FileStamp::Modified(7), 100), Ok(()));
    assert_eq!(
        c.insert_metadata_with_hash("/p/b.rs".to_string(), "Rust".to_string(), 20, Some(42), FileStamp::NoTime, 200),
        Ok(())
    );
    assert_eq!(
        c.insert_metadata("/p/gone.rs".to_string(), "Rust".to_string(), 1, FileStamp::Missing, 100),
        Err("Cannot access file: /p/gone.rs".to_string())
    );
    assert!(c.get_valid_metadata("/p/a.rs", FileStamp::Modified(7)).is_some());
    assert!(c.get_valid_metadata("/p/a.rs", FileStamp::Modified(8)).is_none());
    assert!(c.get_valid_metadata("/p/a.rs", FileStamp::Missing).is_none());
    assert_eq!(c.get_valid_metadata("/p/b.rs", FileStamp::Modified(0)).unwrap().short_hash, Some(42));
    assert_eq!(c.get_stats(&vec![FileStamp::Modified(7), FileStamp::Modified(3)]), (2, 1, 10));
    let listing = vec![
        ListedFile { path: "/p/a.rs".to_string(), modified: Some(7) },
        ListedFile { path: "/p/b.rs".to_string(), modified: Some(9) },
        ListedFile { path: "/p/new.rs".to_string(), modified: Some(1) },
        ListedFile { path: "/p/x.dll".to_string(), modified: Some(1) },
    ];
    assert_eq!(c.incremental_scan(&listing), Ok(vec!["/p/b.rs".to_string(), "/p/new.rs".to_string()]));
    c.validate_and_clean(&vec![FileStamp::Modified(7), FileStamp::Modified(3)]);
    assert!(c.entries.contains_key("/p/a.rs"));
    assert!(!c.entries.contains_key("/p/b.rs"));
}

#[test]
fn file_metadata_cache_prunes_old_entries() {
    let mut c = FileMetadataCache::new();
    c.insert_metadata("/p/old.rs".to_string(), "Rust".to_string(), 1, FileStamp::Modified(1), 100).unwrap();
    c.insert_metadata("/p/new.rs".to_string(), "Rust".to_string(), 1, FileStamp::Modified(1), 900).unwrap();
    c.prune_old_entries(500, 1000);
    assert!(!c.entries.contains_key("/p/old.rs"));
    assert!(c.entries.contains_key("/p/new.rs"));
    assert_eq!(c.entries.len(), 1);
}

#[test]
fn favorites_lookup() {
    let f = FavoriteProjects { favorites: vec!["/a".to_string(), "/b".to_string()], last_updated: String::new() };
    assert!(f.is_favorite("/b"));
    assert!(!f.is_favorite("/c"));
}

#[test]
fn package_info_lists_missing_files() {
    let f = ProjectFiles {
        package_json: true,
        cargo_toml: false,
        requirements_txt: false,
        gemfile: false,
        go_mod: true,
        readme_md: true,
        license: false,
        gitignore: false,
    };
    let info = get_package_info(&f);
    assert!(info.has_package_json);
    assert!(info.has_go_mod);
    assert!(!info.has_cargo_toml);
    assert_eq!(info.missing_common_files, vec!["LICENSE".to_string(), ".gitignore".to_string()]);
}

#[test]
fn picker_directory_rules() {
    assert!(is_candidate_dir_name("myapp"));
    assert!(!is_candidate_dir_name(".config"));
    assert!(!is_candidate_dir_name("node_modules"));
    assert!(!is_candidate_dir_name("target"));
    assert!(is_project_directory(&vec!["src".to_string(), "Cargo.toml".to_string()]));
    assert!(is_project_directory(&vec!["App.csproj".to_string()]));
    assert!(!is_project_directory(&vec!["notes.txt".to_string(), "csproj".to_string()]));
    assert!(!is_project_directory(&vec![]));
}

#[test]
fn modified_count_of_inventory() {
    let mut c = FileCountCache::new("/p".to_string());
    let listing = vec![listed("/p/a.rs", 10), listed("/p/b.rs", 20), listed("/p/c.rs", 30)];
    c.incremental_update(&listing, 1, 2).unwrap();
    assert_eq!(c.get_modified_count(&vec![Some(10), Some(21), None]), 1);
    c.file_inventory = None;
    assert_eq!(c.get_modified_count(&vec![]), usize::MAX);
}
