use std::collections::{BTreeMap, BTreeSet};

use thundertray::path::join_path;
use thundertray::thunderbird::{
    candidate_profile_roots, candidate_profile_roots_for_command,
    detect_thunderbird_profile_from_home, detect_thunderbird_profile_from_home_for_command,
    profile_candidates_from_ini, DiscoveryAction, DiscoveryEvent, ProfileDiscovery,
    ProfileDiscoveryError,
};

const HOME: &str = "/tmp/home";

/// A file tree held in memory: the files with their contents and the directories.
#[derive(Default)]
struct Tree {
    files: BTreeMap<String, String>,
    dirs: BTreeSet<String>,
}

impl Tree {
    fn create_dir_all(&mut self, path: &str) {
        let mut current = String::new();
        for part in path.split('/').filter(|part| !part.is_empty()) {
            current.push('/');
            current.push_str(part);
            self.dirs.insert(current.clone());
        }
    }

    fn write_profiles_ini(&mut self, profile_root: &str, contents: &str) {
        self.create_dir_all(profile_root);
        self.files
            .insert(join_path(profile_root, "profiles.ini"), contents.to_string());
    }

    fn create_profile(&mut self, profile_root: &str, relative_path: &str) -> String {
        let profile_path = join_path(profile_root, relative_path);
        self.create_dir_all(&profile_path);
        profile_path
    }

    fn read_ini(&self, path: &String) -> Option<String> {
        self.files.get(path).cloned()
    }

    fn is_dir(&self, path: &String) -> bool {
        self.dirs.contains(path)
    }

    fn detect_for_command(&self, home: &str, command: &str) -> Result<String, ProfileDiscoveryError> {
        detect_thunderbird_profile_from_home_for_command(
            home,
            command,
            |path: &String| self.read_ini(path),
            |path: &String| self.is_dir(path),
        )
    }

    fn detect(&self, home: &str) -> Result<String, ProfileDiscoveryError> {
        detect_thunderbird_profile_from_home(
            home,
            |path: &String| self.read_ini(path),
            |path: &String| self.is_dir(path),
        )
    }
}

#[test]
fn candidate_roots_cover_supported_layouts_in_priority_order() {
    let home = HOME;
    assert_eq!(
        candidate_profile_roots(home),
        vec![
            join_path(home, ".thunderbird"),
            join_path(home, "snap/thunderbird/common/.thunderbird"),
            join_path(home, "snap/thunderbird/current/.thunderbird"),
            join_path(home, ".var/app/org.mozilla.Thunderbird/.thunderbird"),
            join_path(home, ".mozilla-thunderbird"),
        ]
    );
}

#[test]
fn detects_native_profile_without_real_home() {
    let mut tree = Tree::default();
    let root = join_path(HOME, ".thunderbird");
    let expected = tree.create_profile(&root, "Profiles/native.default-release");
    tree.write_profiles_ini(
        &root,
        "[Profile0]\nIsRelative=1\nPath=Profiles/native.default-release\nDefault=1\n",
    );

    assert_eq!(tree.detect(HOME).expect("detect native profile"), expected);
}

#[test]
fn falls_back_to_the_first_profile_when_none_is_marked_default() {
    let mut tree = Tree::default();
    let root = join_path(HOME, ".thunderbird");
    let expected = tree.create_profile(&root, "Profiles/first.default-release");
    tree.create_profile(&root, "Profiles/second.default-release");
    tree.write_profiles_ini(
        &root,
        "[Profile0]\nIsRelative=1\nPath=Profiles/first.default-release\n\
         [Profile1]\nIsRelative=1\nPath=Profiles/second.default-release\n",
    );

    assert_eq!(tree.detect(HOME).expect("detect fallback profile"), expected);
}

#[test]
fn snap_common_has_priority_over_native_profile() {
    let mut tree = Tree::default();
    let snap_root = join_path(HOME, "snap/thunderbird/common/.thunderbird");
    let native_root = join_path(HOME, ".thunderbird");
    let expected = tree.create_profile(&snap_root, "Profiles/snap.default-release");
    tree.create_profile(&native_root, "Profiles/native.default-release");
    tree.write_profiles_ini(
        &snap_root,
        "[Profile0]\nIsRelative=1\nPath=Profiles/snap.default-release\nDefault=1\n",
    );
    tree.write_profiles_ini(
        &native_root,
        "[Profile0]\nIsRelative=1\nPath=Profiles/native.default-release\nDefault=1\n",
    );

    assert_eq!(
        tree.detect_for_command(HOME, "snap run thunderbird")
            .expect("detect Snap profile"),
        expected
    );
}

#[test]
fn explicit_flatpak_command_wins_over_native_profile() {
    let mut tree = Tree::default();
    let native_root = join_path(HOME, ".thunderbird");
    let flatpak_root = join_path(HOME, ".var/app/org.mozilla.Thunderbird/.thunderbird");
    tree.create_profile(&native_root, "Profiles/native.default-release");
    let expected = tree.create_profile(&flatpak_root, "Profiles/flatpak.default-release");
    tree.write_profiles_ini(
        &native_root,
        "[Profile0]\nPath=Profiles/native.default-release\nDefault=1\n",
    );
    tree.write_profiles_ini(
        &flatpak_root,
        "[Profile0]\nPath=Profiles/flatpak.default-release\nDefault=1\n",
    );

    assert_eq!(
        tree.detect_for_command(HOME, "flatpak run org.mozilla.Thunderbird")
            .expect("detect Flatpak profile"),
        expected
    );
}

#[test]
fn detects_flatpak_profile() {
    let mut tree = Tree::default();
    let root = join_path(HOME, ".var/app/org.mozilla.Thunderbird/.thunderbird");
    let expected = tree.create_profile(&root, "Profiles/flatpak.default-release");
    tree.write_profiles_ini(
        &root,
        "[Profile0]\nIsRelative=1\nPath=Profiles/flatpak.default-release\nDefault=1\n",
    );

    assert_eq!(tree.detect(HOME).expect("detect Flatpak profile"), expected);
}

#[test]
fn detects_absolute_profile_path() {
    let mut tree = Tree::default();
    let root = join_path(HOME, ".thunderbird");
    let expected = join_path(HOME, "outside-thunderbird/absolute-profile");
    tree.create_dir_all(&expected);
    tree.write_profiles_ini(
        &root,
        &format!("[Profile0]\nIsRelative=0\nPath={}\nDefault=1\n", expected),
    );

    assert_eq!(tree.detect(HOME).expect("detect absolute profile"), expected);
}

#[test]
fn install_default_has_priority_over_profile_default() {
    let mut tree = Tree::default();
    let root = join_path(HOME, ".thunderbird");
    let expected = tree.create_profile(&root, "Profiles/install.default-release");
    tree.create_profile(&root, "Profiles/profile.default-release");
    tree.write_profiles_ini(
        &root,
        "[Profile0]\nIsRelative=1\nPath=Profiles/profile.default-release\nDefault=1\n\
         [InstallABCDEF]\nDefault=Profiles/install.default-release\n",
    );

    assert_eq!(tree.detect(HOME).expect("detect Install default"), expected);
}

#[test]
fn missing_profile_reports_every_tried_ini_without_contents() {
    let mut tree = Tree::default();
    let root = join_path(HOME, ".thunderbird");
    tree.write_profiles_ini(
        &root,
        "[Profile0]\nIsRelative=1\nPath=Profiles/missing.default-release\nDefault=1\nsecret-value\n",
    );

    let error = match tree.detect(HOME) {
        Ok(path) => panic!("a missing profile directory must not be accepted: {path}"),
        Err(error) => error,
    };
    let message = error.to_string();

    assert_eq!(error.tried_profiles_ini().len(), 5);
    for root in candidate_profile_roots(HOME) {
        assert!(message.contains(&join_path(&root, "profiles.ini")));
    }
    assert!(!message.contains("secret-value"));
}

#[test]
fn roots_follow_the_command_that_launches_thunderbird() {
    let roots = candidate_profile_roots(HOME);
    let snap = candidate_profile_roots_for_command(HOME, "snap run thunderbird");
    assert_eq!(snap[0], roots[1]);
    assert_eq!(snap[4], roots[0]);
    let flatpak = candidate_profile_roots_for_command(HOME, "FLATPAK run x");
    assert_eq!(flatpak[0], roots[3]);
    assert_eq!(flatpak[2], roots[0]);
    assert_eq!(candidate_profile_roots_for_command(HOME, "/usr/bin/thunderbird"), roots);
}

#[test]
fn ini_candidates_come_in_selection_order_without_repeats() {
    let ini = "; comment\n# other\n[Profile0]\nPath=a\nIsRelative=1\n[Profile1]\npath = b\nDefault=1\n\
               [General]\nPath=ignored\n[Install1]\nDefault=b\n[Install2]\nDefault=/abs\nno-equals\n";
    assert_eq!(
        profile_candidates_from_ini(ini, "/r"),
        vec!["/r/b".to_string(), "/abs".to_string(), "/r/a".to_string()]
    );
    assert_eq!(profile_candidates_from_ini("", "/r"), Vec::<String>::new());
}

#[test]
fn an_unreadable_root_moves_the_search_on() {
    let mut tree = Tree::default();
    let second = join_path(HOME, ".mozilla-thunderbird");
    let expected = tree.create_profile(&second, "p");
    tree.write_profiles_ini(&second, "[Profile0]\nPath=p\n");
    assert_eq!(tree.detect(HOME).expect("detect legacy profile"), expected);
}

#[test]
fn the_search_asks_its_questions_in_order() {
    let (search, action) = ProfileDiscovery::start(HOME, "thunderbird");
    let first_ini = join_path(&join_path(HOME, ".thunderbird"), "profiles.ini");
    assert!(matches!(&action, DiscoveryAction::ReadProfilesIni(p) if *p == first_ini));
    let (search, action) = search.step(DiscoveryEvent::ProfilesIni(Some(
        "[Profile0]\nPath=p\n".to_string(),
    )));
    let candidate = join_path(&join_path(HOME, ".thunderbird"), "p");
    assert!(matches!(&action, DiscoveryAction::CheckDirectory(p) if *p == candidate));
    // An answer to a question that was not asked changes nothing.
    let (search, action) = search.step(DiscoveryEvent::ProfilesIni(None));
    assert!(matches!(&action, DiscoveryAction::CheckDirectory(p) if *p == candidate));
    let (_, action) = search.step(DiscoveryEvent::IsDirectory(true));
    assert!(matches!(&action, DiscoveryAction::Found(p) if *p == candidate));
}
