use idota::discovery::{
    candidate_game_dirs_for_steam_root, find_dir_ancestor, find_install, game_root_from_dir,
    install_from_game_root, library_folders_file, override_game_root, probe_targets, steam_roots_for,
    FindError, GamePath, InstallQuery, LayoutProbe, Platform, GAME_DIR_NAME,
};

fn path(root: &str, parts: &[&str]) -> GamePath {
    GamePath { root: root.to_string(), parts: parts.iter().map(|p| p.to_string()).collect() }
}

fn shown(p: &GamePath) -> String {
    let mut s = p.root.clone();
    for (i, part) in p.parts.iter().enumerate() {
        if i > 0 || !(s.is_empty() || s.ends_with('/')) {
            s.push('/');
        }
        s.push_str(part);
    }
    s
}

fn probe(is_dir: bool, data: &[bool], cfg: &[bool], exe: &[bool]) -> LayoutProbe {
    LayoutProbe {
        is_dir,
        data_dirs: data.to_vec(),
        cfg_dirs: cfg.to_vec(),
        executables: exe.to_vec(),
    }
}

const GAME: &str = "dota 2 beta";

#[test]
fn game_root_from_cfg_and_dota_dirs() {
    let root = path("/", &["Steam", "steamapps", "common", GAME]);
    let base = ["Steam", "steamapps", "common", GAME];
    let with = |extra: &[&str]| {
        let mut v: Vec<&str> = base.to_vec();
        v.extend_from_slice(extra);
        path("/", &v)
    };
    assert_eq!(shown(&game_root_from_dir(&with(&["game", "dota", "cfg"]))), shown(&root));
    assert_eq!(shown(&game_root_from_dir(&with(&["game", "dota"]))), shown(&root));
    assert_eq!(shown(&game_root_from_dir(&with(&["dota", "cfg"]))), shown(&root));
    assert_eq!(shown(&game_root_from_dir(&with(&["dota"]))), shown(&root));
    assert_eq!(shown(&game_root_from_dir(&root)), shown(&root));
    assert_eq!(shown(&game_root_from_dir(&with(&["GAME", "Dota", "CFG"]))), shown(&root));
}

#[test]
fn game_root_from_short_paths() {
    // `cfg` with no grandparent stays as it is.
    assert_eq!(shown(&game_root_from_dir(&path("", &["cfg"]))), "cfg");
    assert_eq!(shown(&game_root_from_dir(&path("/", &["x", "cfg"]))), "/");
    // `dota` directly under `game`: the root is above `game`, even when that is empty.
    assert_eq!(shown(&game_root_from_dir(&path("", &["game", "dota"]))), "");
    // `..` has no file name, so it is kept.
    assert_eq!(shown(&game_root_from_dir(&path("/", &["a", ".."]))), "/a/..");
}

#[test]
fn ancestor_lookup_is_case_insensitive() {
    let exe = path("/", &["lib", "Dota 2 Beta", "game", "bin", "win64", "dota2.exe"]);
    let found = find_dir_ancestor(&exe, GAME_DIR_NAME).expect("ancestor");
    assert_eq!(shown(&found), "/lib/Dota 2 Beta");
    assert!(find_dir_ancestor(&path("/", &["a", "b"]), GAME_DIR_NAME).is_none());
    // The nearest ancestor wins.
    let nested = path("/", &[GAME, "x", GAME, "y"]);
    assert_eq!(shown(&find_dir_ancestor(&nested, GAME_DIR_NAME).unwrap()), "/dota 2 beta/x/dota 2 beta");
}

#[test]
fn probe_targets_follow_candidates() {
    let root = path("/", &["g"]);
    let t = probe_targets(&root);
    let data: Vec<String> = t.data_dirs.iter().map(shown).collect();
    let cfg: Vec<String> = t.cfg_dirs.iter().map(shown).collect();
    let exe: Vec<String> = t.executables.iter().map(shown).collect();
    assert_eq!(data, vec!["/g/game/dota", "/g/dota"]);
    assert_eq!(cfg, vec!["/g/game/dota/cfg", "/g/dota/cfg"]);
    assert_eq!(exe.len(), 7);
    assert_eq!(exe[0], "/g/game/bin/win64/dota2.exe");
    assert_eq!(exe[3], "/g/game/bin/osx64/dota2.app/Contents/MacOS/dota2");
    assert_eq!(exe[6], "/g/game/dota/macos/dota2");
}

#[test]
fn install_needs_directory_and_game_data() {
    let root = path("/", &[GAME]);
    assert!(install_from_game_root(&root, &probe(false, &[true, true], &[], &[])).is_none());
    assert!(install_from_game_root(&root, &probe(true, &[false, false], &[], &[])).is_none());
    assert!(install_from_game_root(&root, &probe(true, &[], &[], &[])).is_none());
}

#[test]
fn install_picks_first_existing_layouts() {
    let root = path("/", &[GAME]);
    let inst = install_from_game_root(&root, &probe(true, &[true, false], &[true, true], &[false, true, true]))
        .expect("install");
    assert_eq!(shown(&inst.game_root), "/dota 2 beta");
    assert_eq!(shown(&inst.cfg_dir), "/dota 2 beta/game/dota/cfg");
    assert_eq!(shown(inst.executable.as_ref().unwrap()), "/dota 2 beta/game/bin/linuxsteamrt64/dota2");

    let legacy = install_from_game_root(&root, &probe(true, &[false, true], &[false, true], &[]))
        .expect("legacy install");
    assert_eq!(shown(&legacy.cfg_dir), "/dota 2 beta/dota/cfg");
    assert!(legacy.executable.is_none());

    // No configuration directory yet: the newest layout's is reported.
    let fresh = install_from_game_root(&root, &probe(true, &[true], &[false, false], &[true]))
        .expect("fresh install");
    assert_eq!(shown(&fresh.cfg_dir), "/dota 2 beta/game/dota/cfg");
    assert_eq!(shown(fresh.executable.as_ref().unwrap()), "/dota 2 beta/game/bin/win64/dota2.exe");
}

#[test]
fn override_with_executable_or_directory() {
    let exe = path("/", &["S", GAME, "game", "bin", "win64", "dota2.exe"]);
    let root = override_game_root(&exe, true).expect("root");
    assert_eq!(shown(&root), "/S/dota 2 beta");
    let q = InstallQuery::Override {
        path: exe,
        path_is_file: true,
        probe: probe(true, &[true, true], &[true], &[true]),
    };
    let inst = find_install(&q).expect("install");
    assert_eq!(shown(&inst.game_root), "/S/dota 2 beta");

    let cfg = path("/", &["S", GAME, "game", "dota", "cfg"]);
    assert_eq!(shown(&override_game_root(&cfg, false).unwrap()), "/S/dota 2 beta");
}

#[test]
fn override_errors() {
    let stray = path("/", &["tmp", "dota2.exe"]);
    let q = InstallQuery::Override {
        path: stray,
        path_is_file: true,
        probe: probe(true, &[true], &[true], &[true]),
    };
    match find_install(&q) {
        Err(FindError::NotInsideGameDir { path }) => assert_eq!(shown(&path), "/tmp/dota2.exe"),
        other => panic!("unexpected {:?}", other),
    }

    let not_dota = path("/", &["tmp", "somewhere"]);
    let q = InstallQuery::Override {
        path: not_dota,
        path_is_file: false,
        probe: probe(true, &[false, false], &[], &[]),
    };
    match find_install(&q) {
        Err(FindError::NotAnInstall { game_root }) => assert_eq!(shown(&game_root), "/tmp/somewhere"),
        other => panic!("unexpected {:?}", other),
    }
}

#[test]
fn search_returns_first_install_or_lists_all() {
    let a = path("/", &["a", GAME]);
    let b = path("/", &["b", GAME]);
    let c = path("/", &["c", GAME]);
    let q = InstallQuery::Search {
        candidates: vec![path("/", &["a", GAME]), path("/", &["b", GAME]), path("/", &["c", GAME])],
        probes: vec![
            probe(false, &[], &[], &[]),
            probe(true, &[true], &[], &[]),
            probe(true, &[true], &[], &[]),
        ],
    };
    let inst = find_install(&q).expect("found");
    assert_eq!(shown(&inst.game_root), shown(&b));

    let q = InstallQuery::Search {
        candidates: vec![path("/", &["a", GAME]), path("/", &["c", GAME])],
        // The second candidate has no probe: it counts as absent.
        probes: vec![probe(true, &[false, false], &[], &[])],
    };
    match find_install(&q) {
        Err(FindError::NotFound { tried }) => {
            let tried: Vec<String> = tried.iter().map(shown).collect();
            assert_eq!(tried, vec![shown(&a), shown(&c)]);
        }
        other => panic!("unexpected {:?}", other),
    }
}

#[test]
fn candidates_from_steam_root_and_libraries() {
    let steam = path("/", &["home", "u", ".steam", "steam"]);
    let vdf = "\"libraryfolders\" { \"0\" { \"path\" \"/mnt/games\" } }";
    let dirs: Vec<String> = candidate_game_dirs_for_steam_root(&steam, Some(vdf)).iter().map(shown).collect();
    assert_eq!(
        dirs,
        vec![
            "/home/u/.steam/steam/steamapps/common/dota 2 beta".to_string(),
            "/mnt/games/common/dota 2 beta".to_string(),
            "/mnt/games/steamapps/common/dota 2 beta".to_string(),
        ]
    );
    let only: Vec<String> = candidate_game_dirs_for_steam_root(&steam, None).iter().map(shown).collect();
    assert_eq!(only, vec!["/home/u/.steam/steam/steamapps/common/dota 2 beta".to_string()]);
    assert_eq!(
        shown(&library_folders_file(&steam)),
        "/home/u/.steam/steam/steamapps/libraryfolders.vdf"
    );
}

#[test]
fn steam_roots_on_unix_with_override() {
    let roots: Vec<String> =
        steam_roots_for(Platform::OtherUnix, Some("/opt/steam"), None, None, None, Some("/home/u"))
            .iter()
            .map(shown)
            .collect();
    assert_eq!(
        roots,
        vec![
            "/opt/steam",
            "/home/u/.steam/steam",
            "/home/u/.local/share/Steam",
            "/home/u/Steam",
            "/home/u/.var/app/com.valvesoftware.Steam/.local/share/Steam",
            "/usr/share/steam",
        ]
    );
}

#[test]
fn empty_override_is_ignored_and_no_home() {
    let roots: Vec<String> = steam_roots_for(Platform::OtherUnix, Some(""), None, None, None, None)
        .iter()
        .map(shown)
        .collect();
    assert_eq!(roots, vec!["/usr/share/steam"]);
}

#[test]
fn steam_roots_on_windows_and_macos() {
    let win: Vec<String> = steam_roots_for(
        Platform::Windows,
        None,
        Some("C:/PF86"),
        None,
        Some("C:/Users/u"),
        Some("/ignored"),
    )
    .iter()
    .map(shown)
    .collect();
    assert_eq!(win, vec!["C:/PF86/Steam", "C:/Users/u/Steam"]);
    let mac: Vec<String> =
        steam_roots_for(Platform::MacOs, None, Some("x"), Some("y"), Some("z"), Some("/Users/u"))
            .iter()
            .map(shown)
            .collect();
    assert_eq!(mac, vec!["/Users/u/Library/Application Support/Steam"]);
    assert!(steam_roots_for(Platform::MacOs, None, None, None, None, None).is_empty());
}
