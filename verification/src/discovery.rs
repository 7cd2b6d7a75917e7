//! Locate a Dota 2 installation on disk.
//!
//! Dota 2 is installed by Steam under `steamapps/common/dota 2 beta`. Steam may
//! keep games in multiple library folders, which are listed in
//! `steamapps/libraryfolders.vdf`, so we look there in addition to the well-known
//! default install locations. An explicit path to the executable, game root, or
//! config directory can always be provided as an override.
//!
//! Paths are held as [`GamePath`]s: an anchor text followed by path
//! components. What the file system says about a path (is it a directory, a
//! file) is asked by the caller, which hands the answers in as a
//! [`LayoutProbe`]; every decision made from those answers is taken here.

use vstd::prelude::*;

use crate::text::{chars_eq_ignore_ascii_case, chars_of, eq_ignore_ascii_case, string_of};
use crate::vdf::{char_rows, library_paths_from_vdf, library_paths_spec, split_chars, split_on, string_views};

verus! {

/// Directory name Steam uses for the Dota 2 installation.
pub const GAME_DIR_NAME: &'static str = "dota 2 beta";

/// A path: the text of its anchor (a root directory or drive prefix, a
/// library folder as Steam wrote it, or nothing for a relative path)
/// followed by its components in order. A component is `.` or `..` or a
/// plain name; joining a relative path appends its components.
#[derive(Debug)]
pub struct GamePath {
    pub root: String,
    pub parts: Vec<String>,
}

/// The mathematical value of a [`GamePath`].
pub struct PathView {
    pub root: Seq<char>,
    pub parts: Seq<Seq<char>>,
}

impl View for GamePath {
    type V = PathView;

    open spec fn view(&self) -> PathView {
        PathView { root: self.root@, parts: string_views(self.parts@) }
    }
}

/// `.` and `..` are components without a file name.
pub open spec fn is_special(part: Seq<char>) -> bool {
    part =~= seq!['.'] || part =~= seq!['.', '.']
}

/// The final component of `p`, if it is a plain name.
pub open spec fn file_name(p: PathView) -> Option<Seq<char>> {
    if p.parts.len() > 0 && !is_special(p.parts.last()) {
        Some(p.parts.last())
    } else {
        None
    }
}

/// `p` has a file name equal to `name` up to ASCII case.
pub open spec fn name_is(p: PathView, name: Seq<char>) -> bool {
    match file_name(p) {
        Some(n) => eq_ignore_ascii_case(n, name),
        None => false,
    }
}

/// `p` without its last component; none when `p` has no components.
pub open spec fn parent(p: PathView) -> Option<PathView> {
    if p.parts.len() > 0 {
        Some(PathView { root: p.root, parts: p.parts.drop_last() })
    } else {
        None
    }
}

/// `p` followed by the components `rel`.
pub open spec fn join(p: PathView, rel: Seq<Seq<char>>) -> PathView {
    PathView { root: p.root, parts: p.parts + rel }
}

/// The components of a relative path written with `/` separators.
pub open spec fn rel_parts(rel: Seq<char>) -> Seq<Seq<char>> {
    split_on(rel, '/')
}

/// The first of `p`, its parent, its parent's parent, ... whose file name
/// equals `name` up to ASCII case.
pub open spec fn ancestor_named(p: PathView, name: Seq<char>) -> Option<PathView>
    decreases p.parts.len(),
{
    if name_is(p, name) {
        Some(p)
    } else if p.parts.len() > 0 {
        ancestor_named(PathView { root: p.root, parts: p.parts.drop_last() }, name)
    } else {
        None
    }
}

/// The directory name `cfg`.
pub open spec fn name_cfg() -> Seq<char> {
    seq!['c', 'f', 'g']
}

/// The directory name `dota`.
pub open spec fn name_dota() -> Seq<char> {
    seq!['d', 'o', 't', 'a']
}

/// The directory name `game`.
pub open spec fn name_game() -> Seq<char> {
    seq!['g', 'a', 'm', 'e']
}

/// For a directory `g` that should hold the game: its parent when `g` is
/// named `game`, else `g` itself.
pub open spec fn strip_game_dir(g: PathView) -> PathView {
    if name_is(g, name_game()) {
        PathView { root: g.root, parts: g.parts.drop_last() }
    } else {
        g
    }
}

/// The game root for a directory that may be the game root, `game/dota`,
/// `game/dota/cfg`, or the legacy `dota` and `dota/cfg`.
pub open spec fn game_root_from_dir_spec(p: PathView) -> PathView {
    if name_is(p, name_cfg()) {
        if p.parts.len() >= 2 {
            strip_game_dir(PathView { root: p.root, parts: p.parts.take(p.parts.len() - 2) })
        } else {
            p
        }
    } else if name_is(p, name_dota()) {
        strip_game_dir(PathView { root: p.root, parts: p.parts.drop_last() })
    } else {
        p
    }
}

/// Relative locations of the Dota 2 executable, newest layouts first.
pub open spec fn executable_candidates_spec() -> Seq<Seq<char>> {
    seq![
        "game/bin/win64/dota2.exe"@,
        "game/bin/linuxsteamrt64/dota2"@,
        "game/bin/linux64/dota2"@,
        "game/bin/osx64/dota2.app/Contents/MacOS/dota2"@,
        "game/bin/osx64/dota2"@,
        "dota/bin/win64/dota2.exe"@,
        "game/dota/macos/dota2"@,
    ]
}

/// Relative locations of the GSI configuration directory, newest first.
pub open spec fn cfg_dir_candidates_spec() -> Seq<Seq<char>> {
    seq!["game/dota/cfg"@, "dota/cfg"@]
}

/// Relative locations of the game data directory; one must exist.
pub open spec fn data_dir_candidates_spec() -> Seq<Seq<char>> {
    seq!["game/dota"@, "dota"@]
}

/// Relative locations of the Dota 2 executable, newest layouts first.
pub fn executable_candidates() -> (res: Vec<&'static str>)
    ensures
        res@.map_values(|s: &str| s@) == executable_candidates_spec(),
{
    let res: Vec<&'static str> = vec![
        "game/bin/win64/dota2.exe",
        "game/bin/linuxsteamrt64/dota2",
        "game/bin/linux64/dota2",
        "game/bin/osx64/dota2.app/Contents/MacOS/dota2",
        "game/bin/osx64/dota2",
        "dota/bin/win64/dota2.exe",
        "game/dota/macos/dota2",
    ];
    assert(res@.map_values(|s: &str| s@) =~= executable_candidates_spec());
    res
}

/// Relative locations of the GSI configuration directory, newest first.
pub fn cfg_dir_candidates() -> (res: Vec<&'static str>)
    ensures
        res@.map_values(|s: &str| s@) == cfg_dir_candidates_spec(),
{
    let res: Vec<&'static str> = vec!["game/dota/cfg", "dota/cfg"];
    assert(res@.map_values(|s: &str| s@) =~= cfg_dir_candidates_spec());
    res
}

/// Relative locations of the game data directory.
pub fn data_dir_candidates() -> (res: Vec<&'static str>)
    ensures
        res@.map_values(|s: &str| s@) == data_dir_candidates_spec(),
{
    let res: Vec<&'static str> = vec!["game/dota", "dota"];
    assert(res@.map_values(|s: &str| s@) =~= data_dir_candidates_spec());
    res
}

/// A copy of `p`.
pub fn copy_path(p: &GamePath) -> (res: GamePath)
    ensures
        res@ == p@,
{
    let res = prefix_path(p, p.parts.len());
    assert(p@.parts.take(p@.parts.len() as int) =~= p@.parts);
    res
}

/// `p` cut down to its first `k` components.
pub fn prefix_path(p: &GamePath, k: usize) -> (res: GamePath)
    requires
        k <= p.parts@.len(),
    ensures
        res@ == (PathView { root: p@.root, parts: p@.parts.take(k as int) }),
{
    let mut parts: Vec<String> = Vec::new();
    let mut i: usize = 0;
    while i < k
        invariant
            k <= p.parts@.len(),
            0 <= i <= k,
            string_views(parts@) == string_views(p.parts@).take(i as int),
        decreases k - i,
    {
        let ghost before = string_views(parts@);
        let s = p.parts[i].clone();
        assert(s@ == string_views(p.parts@)[i as int]);
        parts.push(s);
        assert(string_views(parts@) =~= before.push(s@));
        assert(string_views(parts@) =~= string_views(p.parts@).take(i + 1));
        i = i + 1;
    }
    let res = GamePath { root: p.root.clone(), parts };
    assert(res@.parts =~= p@.parts.take(k as int));
    res
}

/// `p` followed by the components of the `/`-separated relative path `rel`.
pub fn join_rel(p: &GamePath, rel: &str) -> (res: GamePath)
    ensures
        res@ == join(p@, rel_parts(rel@)),
{
    let mut res = copy_path(p);
    let cs = chars_of(rel);
    let pieces = split_chars(cs.as_slice(), '/');
    let n = pieces.len();
    let ghost base = res@.parts;
    let mut i: usize = 0;
    while i < n
        invariant
            n == pieces@.len(),
            0 <= i <= n,
            res@.root == p@.root,
            base == p@.parts,
            res@.parts == base + char_rows(pieces@).take(i as int),
        decreases n - i,
    {
        let s = string_of(pieces[i].as_slice());
        let ghost before = res@.parts;
        res.parts.push(s);
        assert(res@.parts =~= before.push(pieces@[i as int]@));
        assert(char_rows(pieces@).take(i + 1) =~= char_rows(pieces@).take(i as int).push(
            pieces@[i as int]@,
        ));
        i = i + 1;
    }
    assert(char_rows(pieces@).take(n as int) =~= char_rows(pieces@));
    res
}

/// Whether the component `part` is a plain name equal to `name` up to ASCII case.
fn part_is_named(part: &String, name: &str) -> (r: bool)
    ensures
        r == (!is_special(part@) && eq_ignore_ascii_case(part@, name@)),
{
    let cs = chars_of(part.as_str());
    let special = if cs.len() == 1 {
        cs[0] == '.'
    } else if cs.len() == 2 {
        cs[0] == '.' && cs[1] == '.'
    } else {
        false
    };
    assert(special == is_special(cs@)) by {
        if cs@.len() == 1 && cs@[0] == '.' {
            assert(cs@ =~= seq!['.']);
        }
        if cs@.len() == 2 && cs@[0] == '.' && cs@[1] == '.' {
            assert(cs@ =~= seq!['.', '.']);
        }
    }
    if special {
        return false;
    }
    let nm = chars_of(name);
    chars_eq_ignore_ascii_case(cs.as_slice(), nm.as_slice())
}

/// Whether the file name of `p` equals `name` up to ASCII case.
pub fn has_name(p: &GamePath, name: &str) -> (r: bool)
    ensures
        r == name_is(p@, name@),
{
    let n = p.parts.len();
    if n == 0 {
        return false;
    }
    assert(p@.parts.last() == p.parts@[n - 1]@);
    part_is_named(&p.parts[n - 1], name)
}

/// Find the ancestor directory with the given name (case-insensitive).
pub fn find_dir_ancestor(path: &GamePath, dir_name: &str) -> (res: Option<GamePath>)
    ensures
        match res {
            Some(a) => ancestor_named(path@, dir_name@) == Some(a@),
            None => ancestor_named(path@, dir_name@) is None,
        },
{
    let mut k = path.parts.len();
    assert(path@.parts.take(k as int) =~= path@.parts);
    loop
        invariant
            k <= path.parts@.len(),
            ancestor_named(path@, dir_name@) == ancestor_named(
                PathView { root: path@.root, parts: path@.parts.take(k as int) },
                dir_name@,
            ),
        decreases k,
    {
        let ghost cur = PathView { root: path@.root, parts: path@.parts.take(k as int) };
        if k == 0 {
            assert(!name_is(cur, dir_name@));
            return None;
        }
        assert(cur.parts.last() == path.parts@[k - 1]@);
        if part_is_named(&path.parts[k - 1], dir_name) {
            assert(name_is(cur, dir_name@));
            let a = prefix_path(path, k);
            return Some(a);
        }
        assert(cur.parts.drop_last() =~= path@.parts.take(k - 1));
        k = k - 1;
    }
}

/// Given a directory that may be the game root, `game/dota`, or
/// `game/dota/cfg`, resolve the actual game root.
pub fn game_root_from_dir(path: &GamePath) -> (res: GamePath)
    ensures
        res@ == game_root_from_dir_spec(path@),
{
    let n = path.parts.len();
    if has_name(path, "cfg") {
        assert("cfg"@ =~= name_cfg()) by {
            reveal_strlit("cfg");
        }
        if n >= 2 {
            let g = prefix_path(path, n - 2);
            return strip_game(&g);
        }
        return copy_path(path);
    }
    assert(!name_is(path@, name_cfg())) by {
        reveal_strlit("cfg");
        assert("cfg"@ =~= name_cfg());
    }
    if has_name(path, "dota") {
        assert("dota"@ =~= name_dota()) by {
            reveal_strlit("dota");
        }
        let g = prefix_path(path, n - 1);
        assert(g@.parts =~= path@.parts.drop_last());
        return strip_game(&g);
    }
    assert(!name_is(path@, name_dota())) by {
        reveal_strlit("dota");
        assert("dota"@ =~= name_dota());
    }
    copy_path(path)
}

/// The parent of `g` when `g` is named `game`, else `g`.
fn strip_game(g: &GamePath) -> (res: GamePath)
    ensures
        res@ == strip_game_dir(g@),
{
    let is_game = has_name(g, "game");
    assert("game"@ =~= name_game()) by {
        reveal_strlit("game");
    }
    if is_game {
        let r = prefix_path(g, g.parts.len() - 1);
        assert(r@.parts =~= g@.parts.drop_last());
        r
    } else {
        copy_path(g)
    }
}

/// What the file system says about the places under a candidate game root,
/// in the order [`probe_targets`] lists them. A missing answer counts as no.
#[derive(Debug, Clone)]
pub struct LayoutProbe {
    /// The game root itself is a directory.
    pub is_dir: bool,
    /// Each data directory candidate is a directory.
    pub data_dirs: Vec<bool>,
    /// Each configuration directory candidate is a directory.
    pub cfg_dirs: Vec<bool>,
    /// Each executable candidate is a file.
    pub executables: Vec<bool>,
}

/// The places under a game root that [`LayoutProbe`] reports on.
#[derive(Debug)]
pub struct ProbeTargets {
    pub data_dirs: Vec<GamePath>,
    pub cfg_dirs: Vec<GamePath>,
    pub executables: Vec<GamePath>,
}

/// The views of a vector of paths.
pub open spec fn path_views(v: Seq<GamePath>) -> Seq<PathView> {
    v.map_values(|p: GamePath| p@)
}

/// `root` joined with each relative path of `rels`.
pub open spec fn joined_all(root: PathView, rels: Seq<Seq<char>>) -> Seq<PathView> {
    rels.map_values(|r: Seq<char>| join(root, rel_parts(r)))
}

/// `root` joined with each relative path of `rels`.
fn join_each(root: &GamePath, rels: &Vec<&'static str>) -> (res: Vec<GamePath>)
    ensures
        path_views(res@) == joined_all(root@, rels@.map_values(|s: &str| s@)),
{
    let n = rels.len();
    let mut out: Vec<GamePath> = Vec::new();
    let mut i: usize = 0;
    while i < n
        invariant
            n == rels@.len(),
            0 <= i <= n,
            path_views(out@) =~= joined_all(root@, rels@.map_values(|s: &str| s@)).take(i as int),
        decreases n - i,
    {
        let p = join_rel(root, rels[i]);
        let ghost before = path_views(out@);
        assert(rels@.map_values(|s: &str| s@)[i as int] == rels@[i as int]@);
        assert(joined_all(root@, rels@.map_values(|s: &str| s@))[i as int] == p@);
        out.push(p);
        assert(path_views(out@) =~= before.push(p@));
        assert(path_views(out@) =~= joined_all(root@, rels@.map_values(|s: &str| s@)).take(
            i + 1,
        ));
        i = i + 1;
    }
    out
}

/// The places under `game_root` whose kind decides whether it holds Dota 2.
pub fn probe_targets(game_root: &GamePath) -> (res: ProbeTargets)
    ensures
        path_views(res.data_dirs@) == joined_all(game_root@, data_dir_candidates_spec()),
        path_views(res.cfg_dirs@) == joined_all(game_root@, cfg_dir_candidates_spec()),
        path_views(res.executables@) == joined_all(game_root@, executable_candidates_spec()),
{
    let data = data_dir_candidates();
    let cfg = cfg_dir_candidates();
    let exe = executable_candidates();
    ProbeTargets {
        data_dirs: join_each(game_root, &data),
        cfg_dirs: join_each(game_root, &cfg),
        executables: join_each(game_root, &exe),
    }
}

/// A located Dota 2 installation.
#[derive(Debug)]
pub struct Dota2Install {
    /// Game root, e.g. `<steam library>/steamapps/common/dota 2 beta`.
    pub game_root: GamePath,
    /// Path to the Dota 2 executable, when a known layout was found.
    pub executable: Option<GamePath>,
    /// Directory where `gamestate_integration_*.cfg` files live.
    pub cfg_dir: GamePath,
}

/// The mathematical value of a [`Dota2Install`].
pub struct InstallView {
    pub game_root: PathView,
    pub executable: Option<PathView>,
    pub cfg_dir: PathView,
}

impl View for Dota2Install {
    type V = InstallView;

    open spec fn view(&self) -> InstallView {
        InstallView {
            game_root: self.game_root@,
            executable: match self.executable {
                Some(e) => Some(e@),
                None => None,
            },
            cfg_dir: self.cfg_dir@,
        }
    }
}

/// Answer `i` of `v`; a missing answer counts as no.
pub open spec fn flag(v: Seq<bool>, i: int) -> bool {
    0 <= i < v.len() && v[i]
}

/// The first index in `from..n` whose answer in `v` is yes.
pub open spec fn first_flag(v: Seq<bool>, from: nat, n: nat) -> Option<nat>
    decreases n - from,
{
    if from >= n {
        None
    } else if flag(v, from as int) {
        Some(from)
    } else {
        first_flag(v, from + 1, n)
    }
}

/// The installation that `game_root` holds, given the probe of its layout:
/// none unless the root is a directory with a game data directory; the
/// first existing configuration directory (or the newest layout's when none
/// exists); the first executable found, if any.
pub open spec fn install_spec(root: PathView, probe: LayoutProbe) -> Option<InstallView> {
    if !probe.is_dir {
        None
    } else if !(flag(probe.data_dirs@, 0) || flag(probe.data_dirs@, 1)) {
        None
    } else {
        let cfg_index = match first_flag(probe.cfg_dirs@, 0, 2) {
            Some(i) => i as int,
            None => 0,
        };
        Some(
            InstallView {
                game_root: root,
                executable: match first_flag(probe.executables@, 0, 7) {
                    Some(i) => Some(join(root, rel_parts(executable_candidates_spec()[i as int]))),
                    None => None,
                },
                cfg_dir: join(root, rel_parts(cfg_dir_candidates_spec()[cfg_index])),
            },
        )
    }
}

/// The first index below `n` whose answer in `flags` is yes.
fn first_yes(flags: &Vec<bool>, n: usize) -> (res: Option<usize>)
    ensures
        match res {
            Some(i) => first_flag(flags@, 0, n as nat) == Some(i as nat) && i < n,
            None => first_flag(flags@, 0, n as nat) is None,
        },
{
    let mut i: usize = 0;
    while i < n
        invariant
            0 <= i <= n,
            first_flag(flags@, 0, n as nat) == first_flag(flags@, i as nat, n as nat),
        decreases n - i,
    {
        if i < flags.len() && flags[i] {
            return Some(i);
        }
        i = i + 1;
    }
    None
}

/// Build a [`Dota2Install`] for a game root, validating that it is really Dota 2.
pub fn install_from_game_root(game_root: &GamePath, probe: &LayoutProbe) -> (res: Option<
    Dota2Install,
>)
    ensures
        match res {
            Some(inst) => install_spec(game_root@, *probe) == Some(inst@),
            None => install_spec(game_root@, *probe) is None,
        },
{
    if !probe.is_dir {
        return None;
    }
    let has_game_data = (probe.data_dirs.len() > 0 && probe.data_dirs[0]) || (
    probe.data_dirs.len() > 1 && probe.data_dirs[1]);
    if !has_game_data {
        return None;
    }
    let cfg = cfg_dir_candidates();
    let exe = executable_candidates();
    let cfg_index = match first_yes(&probe.cfg_dirs, 2) {
        Some(i) => i,
        None => 0,
    };
    assert(cfg@.map_values(|s: &str| s@).len() == 2);
    assert(exe@.map_values(|s: &str| s@).len() == 7);
    assert(cfg_index < 2) by {
        if first_flag(probe.cfg_dirs@, 0, 2) is None {
            assert(cfg_index == 0);
        }
    }
    assert(cfg@.map_values(|s: &str| s@)[cfg_index as int] == cfg@[cfg_index as int]@);
    let cfg_dir = join_rel(game_root, cfg[cfg_index]);
    let executable = match first_yes(&probe.executables, 7) {
        Some(i) => {
            assert(exe@.map_values(|s: &str| s@)[i as int] == exe@[i as int]@);
            Some(join_rel(game_root, exe[i]))
        },
        None => None,
    };
    let inst = Dota2Install { game_root: copy_path(game_root), executable, cfg_dir };
    assert(inst@ == install_spec(game_root@, *probe)->0);
    Some(inst)
}


/// Why no installation could be reported.
#[derive(Debug)]
pub enum FindError {
    /// No candidate game directory held Dota 2; every candidate looked at is listed.
    NotFound { tried: Vec<GamePath> },
    /// The given file does not live inside a `dota 2 beta` directory.
    NotInsideGameDir { path: GamePath },
    /// The resolved game root has no `game/dota` or `dota` directory.
    NotAnInstall { game_root: GamePath },
}

/// The game root that an explicit path names: for a file, its nearest
/// ancestor named `dota 2 beta`; for anything else, the game root of that
/// directory.
pub open spec fn override_root_spec(path: PathView, path_is_file: bool) -> Option<PathView> {
    if path_is_file {
        ancestor_named(path, GAME_DIR_NAME@)
    } else {
        Some(game_root_from_dir_spec(path))
    }
}

/// What resolving an explicit path gives, exactly.
pub open spec fn override_outcome(
    path: PathView,
    path_is_file: bool,
    probe: LayoutProbe,
    res: Result<Dota2Install, FindError>,
) -> bool {
    match override_root_spec(path, path_is_file) {
        None => res matches Err(FindError::NotInsideGameDir { path: p }) && p@ == path,
        Some(r) => match install_spec(r, probe) {
            Some(iv) => res matches Ok(inst) && inst@ == iv,
            None => res matches Err(FindError::NotAnInstall { game_root: g }) && g@ == r,
        },
    }
}

/// The installation that candidate `i` holds; a candidate without a probe holds none.
pub open spec fn candidate_install(cands: Seq<PathView>, probes: Seq<LayoutProbe>, i: int) -> Option<
    InstallView,
> {
    if 0 <= i < cands.len() && i < probes.len() {
        install_spec(cands[i], probes[i])
    } else {
        None
    }
}

/// The first candidate index at or after `from` that holds an installation.
pub open spec fn first_install(cands: Seq<PathView>, probes: Seq<LayoutProbe>, from: nat) -> Option<
    nat,
>
    decreases cands.len() - from,
{
    if from >= cands.len() {
        None
    } else if candidate_install(cands, probes, from as int) is Some {
        Some(from)
    } else {
        first_install(cands, probes, from + 1)
    }
}

/// What searching the candidates gives, exactly: the installation of the
/// first candidate that holds one, else every candidate as tried.
pub open spec fn search_outcome(
    cands: Seq<PathView>,
    probes: Seq<LayoutProbe>,
    res: Result<Dota2Install, FindError>,
) -> bool {
    match first_install(cands, probes, 0) {
        Some(i) => res matches Ok(inst) && candidate_install(cands, probes, i as int) == Some(
            inst@,
        ),
        None => res matches Err(FindError::NotFound { tried }) && path_views(tried@) == cands,
    }
}

/// The game root that an explicit path names, to be probed before
/// [`install_from_override`] is asked.
pub fn override_game_root(path: &GamePath, path_is_file: bool) -> (res: Option<GamePath>)
    ensures
        match res {
            Some(r) => override_root_spec(path@, path_is_file) == Some(r@),
            None => override_root_spec(path@, path_is_file) is None,
        },
{
    if path_is_file {
        find_dir_ancestor(path, GAME_DIR_NAME)
    } else {
        Some(game_root_from_dir(path))
    }
}

/// Resolve an explicit user-provided path into a [`Dota2Install`], given
/// whether the path is a file and the probe of the game root it names.
pub fn install_from_override(path: &GamePath, path_is_file: bool, probe: &LayoutProbe) -> (res:
    Result<Dota2Install, FindError>)
    ensures
        override_outcome(path@, path_is_file, *probe, res),
{
    match override_game_root(path, path_is_file) {
        None => Err(FindError::NotInsideGameDir { path: copy_path(path) }),
        Some(root) => match install_from_game_root(&root, probe) {
            Some(inst) => Ok(inst),
            None => Err(FindError::NotAnInstall { game_root: root }),
        },
    }
}

/// Copies of all the paths of `v`.
fn copy_paths(v: &Vec<GamePath>) -> (res: Vec<GamePath>)
    ensures
        path_views(res@) == path_views(v@),
{
    let n = v.len();
    let mut out: Vec<GamePath> = Vec::new();
    let mut i: usize = 0;
    while i < n
        invariant
            n == v@.len(),
            0 <= i <= n,
            path_views(out@) =~= path_views(v@).take(i as int),
        decreases n - i,
    {
        let p = copy_path(&v[i]);
        let ghost before = path_views(out@);
        out.push(p);
        assert(path_views(out@) =~= before.push(v@[i as int]@));
        i = i + 1;
    }
    out
}

/// Look through the candidate game directories in order and report the
/// first that holds Dota 2; `probes[i]` is the probe of `candidates[i]`.
pub fn search_install(candidates: &Vec<GamePath>, probes: &Vec<LayoutProbe>) -> (res: Result<
    Dota2Install,
    FindError,
>)
    ensures
        search_outcome(path_views(candidates@), probes@, res),
{
    let ghost cands = path_views(candidates@);
    let n = candidates.len();
    let mut i: usize = 0;
    while i < n
        invariant
            n == candidates@.len(),
            cands == path_views(candidates@),
            0 <= i <= n,
            first_install(cands, probes@, 0) == first_install(cands, probes@, i as nat),
        decreases n - i,
    {
        if i < probes.len() {
            assert(cands[i as int] == candidates@[i as int]@);
            if let Some(inst) = install_from_game_root(&candidates[i], &probes[i]) {
                return Ok(inst);
            }
        }
        i = i + 1;
    }
    Err(FindError::NotFound { tried: copy_paths(candidates) })
}

/// Where to look for Dota 2: an explicit path with what the file system
/// says about it, or the candidate game directories with their probes.
#[derive(Debug)]
pub enum InstallQuery {
    Override { path: GamePath, path_is_file: bool, probe: LayoutProbe },
    Search { candidates: Vec<GamePath>, probes: Vec<LayoutProbe> },
}

/// Find the Dota 2 installation, either from an explicit path or by searching
/// the usual Steam install locations.
pub fn find_install(query: &InstallQuery) -> (res: Result<Dota2Install, FindError>)
    ensures
        match query {
            InstallQuery::Override { path, path_is_file, probe } => override_outcome(
                path@,
                *path_is_file,
                *probe,
                res,
            ),
            InstallQuery::Search { candidates, probes } => search_outcome(
                path_views(candidates@),
                probes@,
                res,
            ),
        },
{
    match query {
        InstallQuery::Override { path, path_is_file, probe } => install_from_override(
            path,
            *path_is_file,
            probe,
        ),
        InstallQuery::Search { candidates, probes } => search_install(candidates, probes),
    }
}

/// `<steam root>/steamapps/common/dota 2 beta`.
pub open spec fn steam_game_dir(steam_root: PathView) -> PathView {
    join(steam_root, seq!["steamapps"@, "common"@, GAME_DIR_NAME@])
}

/// The two places Dota 2 may live in a library folder named in
/// `libraryfolders.vdf`: modern Steam writes the `<library>/steamapps`
/// path, older versions the library root.
pub open spec fn library_candidates(libs: Seq<Seq<char>>) -> Seq<PathView>
    decreases libs.len(),
{
    if libs.len() == 0 {
        Seq::<PathView>::empty()
    } else {
        library_candidates(libs.drop_last()) + seq![
            PathView { root: libs.last(), parts: seq!["common"@, GAME_DIR_NAME@] },
            PathView { root: libs.last(), parts: seq!["steamapps"@, "common"@, GAME_DIR_NAME@] },
        ]
    }
}

/// All game directories that may hold Dota 2 for a Steam root, given the
/// text of its `libraryfolders.vdf` when that file could be read.
pub open spec fn candidate_dirs_spec(steam_root: PathView, vdf_text: Option<Seq<char>>) -> Seq<
    PathView,
> {
    seq![steam_game_dir(steam_root)] + match vdf_text {
        Some(t) => library_candidates(library_paths_spec(t)),
        None => Seq::<PathView>::empty(),
    }
}

/// `<steam root>/steamapps/libraryfolders.vdf`.
pub open spec fn library_folders_file_spec(steam_root: PathView) -> PathView {
    join(steam_root, seq!["steamapps"@, "libraryfolders.vdf"@])
}

/// The file listing a Steam root's library folders.
pub fn library_folders_file(steam_root: &GamePath) -> (res: GamePath)
    ensures
        res@ == library_folders_file_spec(steam_root@),
{
    let mut res = copy_path(steam_root);
    let ghost before = res@.parts;
    res.parts.push(String::from_str("steamapps"));
    res.parts.push(String::from_str("libraryfolders.vdf"));
    assert(res@.parts =~= before + seq!["steamapps"@, "libraryfolders.vdf"@]);
    res
}

/// All game directories that may contain Dota 2 for a given Steam root,
/// including every library folder declared in `libraryfolders.vdf` (whose
/// text is `vdf_text` when it could be read).
pub fn candidate_game_dirs_for_steam_root(steam_root: &GamePath, vdf_text: Option<&str>) -> (res:
    Vec<GamePath>)
    ensures
        path_views(res@) == candidate_dirs_spec(
            steam_root@,
            match vdf_text {
                Some(t) => Some(t@),
                None => None,
            },
        ),
{
    let mut candidates: Vec<GamePath> = Vec::new();
    // The Steam install directory itself is always a library folder.
    let mut base = copy_path(steam_root);
    let ghost before = base@.parts;
    base.parts.push(String::from_str("steamapps"));
    base.parts.push(String::from_str("common"));
    base.parts.push(String::from_str(GAME_DIR_NAME));
    assert(base@.parts =~= before + seq!["steamapps"@, "common"@, GAME_DIR_NAME@]);
    candidates.push(base);
    assert(path_views(candidates@) =~= seq![steam_game_dir(steam_root@)]);
    match vdf_text {
        None => {
            assert(path_views(candidates@) =~= candidate_dirs_spec(steam_root@, None));
        },
        Some(text) => {
            let libs = library_paths_from_vdf(text);
            let ghost lv = library_paths_spec(text@);
            let n = libs.len();
            let mut i: usize = 0;
            while i < n
                invariant
                    n == libs@.len(),
                    string_views(libs@) == lv,
                    0 <= i <= n,
                    path_views(candidates@) == seq![steam_game_dir(steam_root@)]
                        + library_candidates(lv.take(i as int)),
                decreases n - i,
            {
                let ghost prev = path_views(candidates@);
                let lib = &libs[i];
                assert(lib@ == lv[i as int]);
                let a = GamePath {
                    root: lib.clone(),
                    parts: vec![String::from_str("common"), String::from_str(GAME_DIR_NAME)],
                };
                let b = GamePath {
                    root: lib.clone(),
                    parts: vec![
                        String::from_str("steamapps"),
                        String::from_str("common"),
                        String::from_str(GAME_DIR_NAME),
                    ],
                };
                assert(a@.parts =~= seq!["common"@, GAME_DIR_NAME@]);
                assert(b@.parts =~= seq!["steamapps"@, "common"@, GAME_DIR_NAME@]);
                candidates.push(a);
                candidates.push(b);
                assert(lv.take(i + 1).drop_last() =~= lv.take(i as int));
                assert(path_views(candidates@) =~= prev + seq![a@, b@]);
                assert(path_views(candidates@) =~= seq![steam_game_dir(steam_root@)]
                    + library_candidates(lv.take(i + 1)));
                i = i + 1;
            }
            assert(lv.take(n as int) =~= lv);
        },
    }
    candidates
}

} // verus!

verus! {

/// A component that is not a plain name equal to `name` up to ASCII case.
pub open spec fn part_not_named(part: Seq<char>, name: Seq<char>) -> bool {
    is_special(part) || !eq_ignore_ascii_case(part, name)
}

/// Any of the directories a user may pass for an installation resolves to
/// its game root: the root itself (unless it is named `cfg` or `dota`), its
/// `game/dota/cfg` and `game/dota` directories, and, for a root not named
/// `game`, the legacy `dota/cfg` and `dota` directories.
pub proof fn lemma_game_root_from_known_dirs(r: PathView)
    ensures
        game_root_from_dir_spec(join(r, seq![name_game(), name_dota(), name_cfg()])) == r,
        game_root_from_dir_spec(join(r, seq![name_game(), name_dota()])) == r,
        !name_is(r, name_game()) ==> game_root_from_dir_spec(join(r, seq![name_dota(), name_cfg()]))
            == r,
        !name_is(r, name_game()) ==> game_root_from_dir_spec(join(r, seq![name_dota()])) == r,
        !name_is(r, name_cfg()) && !name_is(r, name_dota()) ==> game_root_from_dir_spec(r) == r,
{
    let c = name_cfg();
    let d = name_dota();
    let g = name_game();
    assert(eq_ignore_ascii_case(c, c));
    assert(eq_ignore_ascii_case(d, d));
    assert(eq_ignore_ascii_case(g, g));
    assert(!is_special(c));
    assert(!is_special(d));
    assert(!is_special(g));
    assert(!eq_ignore_ascii_case(d, c)) by {
        assert(d.len() != c.len());
    }

    let p1 = join(r, seq![g, d, c]);
    assert(p1.parts.last() == c);
    assert(name_is(p1, c));
    let gp1 = PathView { root: r.root, parts: p1.parts.take(p1.parts.len() - 2) };
    assert(gp1.parts.last() == g);
    assert(name_is(gp1, g));
    assert(gp1.parts.drop_last() =~= r.parts);

    let p2 = join(r, seq![g, d]);
    assert(p2.parts.last() == d);
    assert(!name_is(p2, c));
    assert(name_is(p2, d));
    let gp2 = PathView { root: r.root, parts: p2.parts.drop_last() };
    assert(gp2.parts.last() == g);
    assert(gp2.parts.drop_last() =~= r.parts);

    let p3 = join(r, seq![d, c]);
    assert(p3.parts.last() == c);
    assert(name_is(p3, c));
    assert(p3.parts.take(p3.parts.len() - 2) =~= r.parts);

    let p4 = join(r, seq![d]);
    assert(p4.parts.last() == d);
    assert(!name_is(p4, c));
    assert(p4.parts.drop_last() =~= r.parts);
}

/// A path below a directory named `dota 2 beta`, through components none of
/// which is itself named so, finds that directory as its `dota 2 beta`
/// ancestor: an executable inside the game root leads back to the root.
pub proof fn lemma_ancestor_of_path_inside(r: PathView, rel: Seq<Seq<char>>, name: Seq<char>)
    requires
        name_is(r, name),
        forall|i: int| 0 <= i < rel.len() ==> part_not_named(#[trigger] rel[i], name),
    ensures
        ancestor_named(join(r, rel), name) == Some(r),
    decreases rel.len(),
{
    if rel.len() == 0 {
        assert(join(r, rel).parts =~= r.parts);
        assert(join(r, rel) == r);
    } else {
        let p = join(r, rel);
        assert(p.parts.last() == rel.last());
        assert(part_not_named(rel[rel.len() - 1], name));
        assert(!name_is(p, name));
        assert(p.parts.drop_last() =~= r.parts + rel.drop_last());
        lemma_ancestor_of_path_inside(r, rel.drop_last(), name);
    }
}

/// Every path an installation reports lies inside its game root: the
/// configuration directory and the executable are the root followed by more
/// components.
pub proof fn lemma_install_inside_root(root: PathView, probe: LayoutProbe)
    ensures
        install_spec(root, probe) matches Some(iv) ==> {
            &&& iv.game_root == root
            &&& iv.cfg_dir.root == root.root
            &&& iv.cfg_dir.parts.len() > root.parts.len()
            &&& iv.cfg_dir.parts.take(root.parts.len() as int) == root.parts
            &&& iv.executable matches Some(e) ==> {
                &&& e.root == root.root
                &&& e.parts.len() > root.parts.len()
                &&& e.parts.take(root.parts.len() as int) == root.parts
            }
        },
{
    if let Some(iv) = install_spec(root, probe) {
        let ci = match first_flag(probe.cfg_dirs@, 0, 2) {
            Some(i) => i as int,
            None => 0,
        };
        lemma_first_flag_bound(probe.cfg_dirs@, 0, 2);
        let crel = rel_parts(cfg_dir_candidates_spec()[ci]);
        crate::vdf::lemma_split_on_nonempty(cfg_dir_candidates_spec()[ci], '/');
        assert((root.parts + crel).take(root.parts.len() as int) =~= root.parts);
        lemma_first_flag_bound(probe.executables@, 0, 7);
        if let Some(i) = first_flag(probe.executables@, 0, 7) {
            let erel = rel_parts(executable_candidates_spec()[i as int]);
            crate::vdf::lemma_split_on_nonempty(executable_candidates_spec()[i as int], '/');
            assert((root.parts + erel).take(root.parts.len() as int) =~= root.parts);
        }
    }
}

/// The index [`first_flag`] finds lies in its range.
pub proof fn lemma_first_flag_bound(v: Seq<bool>, from: nat, n: nat)
    ensures
        first_flag(v, from, n) matches Some(i) ==> from <= i < n && flag(v, i as int),
    decreases n - from,
{
    if from < n && !flag(v, from as int) {
        lemma_first_flag_bound(v, from + 1, n);
    }
}

} // verus!

verus! {

/// The configuration directory candidates, as components.
pub proof fn lemma_cfg_candidate_parts()
    ensures
        rel_parts(cfg_dir_candidates_spec()[0]) == seq![name_game(), name_dota(), name_cfg()],
        rel_parts(cfg_dir_candidates_spec()[1]) == seq![name_dota(), name_cfg()],
{
    reveal_strlit("game/dota/cfg");
    reveal_strlit("dota/cfg");
    let g = name_game();
    let d = name_dota();
    let c = name_cfg();
    let slash = seq!['/'];
    lemma_split_single(g, '/');
    lemma_split_single(d, '/');
    lemma_split_append_piece(g, d, '/');
    lemma_split_append_piece(g + slash + d, c, '/');
    assert(cfg_dir_candidates_spec()[0] =~= g + slash + d + slash + c);
    lemma_split_append_piece(d, c, '/');
    assert(cfg_dir_candidates_spec()[1] =~= d + slash + c);
}

/// A piece without the separator splits into itself.
pub proof fn lemma_split_single(w: Seq<char>, sep: char)
    requires
        forall|i: int| 0 <= i < w.len() ==> w[i] != sep,
    ensures
        split_on(w, sep) == seq![w],
    decreases w.len(),
{
    if w.len() == 0 {
        assert(split_on(w, sep) =~~= seq![w]);
    } else {
        lemma_split_single(w.drop_last(), sep);
        assert(w.drop_last().push(w.last()) =~= w);
        assert(split_on(w, sep) =~~= seq![w]);
    }
}

/// Appending a separator and a piece without the separator adds that piece.
pub proof fn lemma_split_append_piece(a: Seq<char>, w: Seq<char>, sep: char)
    requires
        forall|i: int| 0 <= i < w.len() ==> w[i] != sep,
    ensures
        split_on(a + seq![sep] + w, sep) == split_on(a, sep).push(w),
    decreases w.len(),
{
    let s = a + seq![sep] + w;
    if w.len() == 0 {
        assert(s.drop_last() =~= a);
        assert(split_on(s, sep) =~~= split_on(a, sep).push(w));
    } else {
        lemma_split_append_piece(a, w.drop_last(), sep);
        assert(s.drop_last() =~= a + seq![sep] + w.drop_last());
        assert(w.drop_last().push(w.last()) =~= w);
        assert(split_on(s, sep) =~~= split_on(a, sep).push(w));
    }
}

/// The configuration directory that an installation reports, handed back
/// as the path of the installation, resolves to the same game root (for a
/// root that is not itself named `game`).
pub proof fn lemma_cfg_dir_resolves_to_root(root: PathView, probe: LayoutProbe)
    requires
        !name_is(root, name_game()),
    ensures
        install_spec(root, probe) matches Some(iv) ==> game_root_from_dir_spec(iv.cfg_dir) == root,
{
    lemma_cfg_candidate_parts();
    lemma_game_root_from_known_dirs(root);
    lemma_first_flag_bound(probe.cfg_dirs@, 0, 2);
}

/// No piece of a split text holds a character the text does not hold.
pub proof fn lemma_split_pieces_avoid(s: Seq<char>, sep: char, c: char)
    requires
        forall|i: int| 0 <= i < s.len() ==> s[i] != c,
    ensures
        forall|k: int, j: int|
            0 <= k < split_on(s, sep).len() && 0 <= j < split_on(s, sep)[k].len()
                ==> #[trigger] split_on(s, sep)[k][j] != c,
    decreases s.len(),
{
    if s.len() > 0 {
        crate::vdf::lemma_split_on_nonempty(s.drop_last(), sep);
        lemma_split_pieces_avoid(s.drop_last(), sep, c);
    }
}

/// A component holding a space is not named like a component without one.
pub proof fn lemma_space_differs(part: Seq<char>, name: Seq<char>, at: int)
    requires
        0 <= at < name.len(),
        name[at] == ' ',
        forall|j: int| 0 <= j < part.len() ==> part[j] != ' ',
    ensures
        !eq_ignore_ascii_case(part, name),
{
    if eq_ignore_ascii_case(part, name) {
        assert(crate::text::ascii_fold(part[at]) == crate::text::ascii_fold(name[at]));
    }
}

/// No executable candidate passes through a directory named `dota 2 beta`.
pub proof fn lemma_executable_candidates_avoid_game_dir()
    ensures
        forall|c: int, k: int|
            0 <= c < 7 && 0 <= k < rel_parts(executable_candidates_spec()[c]).len()
                ==> part_not_named(#[trigger] rel_parts(executable_candidates_spec()[c])[k], GAME_DIR_NAME@),
{
    reveal_strlit("dota 2 beta");
    reveal_strlit("game/bin/win64/dota2.exe");
    reveal_strlit("game/bin/linuxsteamrt64/dota2");
    reveal_strlit("game/bin/linux64/dota2");
    reveal_strlit("game/bin/osx64/dota2.app/Contents/MacOS/dota2");
    reveal_strlit("game/bin/osx64/dota2");
    reveal_strlit("dota/bin/win64/dota2.exe");
    reveal_strlit("game/dota/macos/dota2");
    assert(GAME_DIR_NAME@[4] == ' ');
    assert forall|c: int, k: int|
        0 <= c < 7 && 0 <= k < rel_parts(executable_candidates_spec()[c]).len() implies part_not_named(
        #[trigger] rel_parts(executable_candidates_spec()[c])[k],
        GAME_DIR_NAME@,
    ) by {
        let lit = executable_candidates_spec()[c];
        assert(forall|i: int| 0 <= i < lit.len() ==> lit[i] != ' ');
        lemma_split_pieces_avoid(lit, '/', ' ');
        let piece = rel_parts(lit)[k];
        assert(forall|j: int| 0 <= j < piece.len() ==> piece[j] != ' ');
        lemma_space_differs(piece, GAME_DIR_NAME@, 4);
    }
}

/// The executable that an installation under a `dota 2 beta` directory
/// reports, handed back as the path of the installation, leads back to the
/// same game root.
pub proof fn lemma_executable_resolves_to_root(root: PathView, probe: LayoutProbe)
    requires
        name_is(root, GAME_DIR_NAME@),
    ensures
        install_spec(root, probe) matches Some(iv) ==> (iv.executable matches Some(e)
            ==> ancestor_named(e, GAME_DIR_NAME@) == Some(root)),
{
    lemma_first_flag_bound(probe.executables@, 0, 7);
    if let Some(i) = first_flag(probe.executables@, 0, 7) {
        lemma_executable_candidates_avoid_game_dir();
        let rel = rel_parts(executable_candidates_spec()[i as int]);
        assert forall|k: int| 0 <= k < rel.len() implies part_not_named(#[trigger] rel[k], GAME_DIR_NAME@) by {
            assert(part_not_named(rel_parts(executable_candidates_spec()[i as int])[k], GAME_DIR_NAME@));
        }
        lemma_ancestor_of_path_inside(root, rel, GAME_DIR_NAME@);
    }
}

/// The operating system whose usual Steam locations are searched.
#[derive(Debug, Clone, Copy, PartialEq, Eq, Structural)]
pub enum Platform {
    Windows,
    MacOs,
    OtherUnix,
}

/// The path anchored at the text `root`, followed by the components `parts`.
pub open spec fn rooted(root: Seq<char>, parts: Seq<Seq<char>>) -> PathView {
    PathView { root, parts }
}

/// `Some(base)` joined with `parts`, as a one-element list; nothing for `None`.
pub open spec fn joined_if_present(base: Option<Seq<char>>, parts: Seq<Seq<char>>) -> Seq<PathView> {
    match base {
        Some(b) => seq![rooted(b, parts)],
        None => Seq::<PathView>::empty(),
    }
}

/// The Steam install roots searched: the override first when it is present
/// and not empty; then, on Windows, each present of `ProgramFiles(x86)`,
/// `ProgramFiles` and `USERPROFILE` joined with `Steam`; on macOS, the home
/// directory joined with `Library/Application Support/Steam`; on other Unix
/// systems, the home directory joined with `.steam/steam`,
/// `.local/share/Steam`, `Steam` and the Flatpak
/// `.var/app/com.valvesoftware.Steam/.local/share/Steam`, then
/// `/usr/share/steam`.
pub open spec fn steam_roots_spec(
    platform: Platform,
    override_root: Option<Seq<char>>,
    program_files_x86: Option<Seq<char>>,
    program_files: Option<Seq<char>>,
    user_profile: Option<Seq<char>>,
    home: Option<Seq<char>>,
) -> Seq<PathView> {
    let first = match override_root {
        Some(o) => if o.len() > 0 {
            seq![rooted(o, Seq::<Seq<char>>::empty())]
        } else {
            Seq::<PathView>::empty()
        },
        None => Seq::<PathView>::empty(),
    };
    first + match platform {
        Platform::Windows => joined_if_present(program_files_x86, seq!["Steam"@])
            + joined_if_present(program_files, seq!["Steam"@]) + joined_if_present(
            user_profile,
            seq!["Steam"@],
        ),
        Platform::MacOs => joined_if_present(
            home,
            seq!["Library"@, "Application Support"@, "Steam"@],
        ),
        Platform::OtherUnix => joined_if_present(home, seq![".steam"@, "steam"@])
            + joined_if_present(home, seq![".local"@, "share"@, "Steam"@]) + joined_if_present(
            home,
            seq!["Steam"@],
        ) + joined_if_present(
            home,
            seq![".var"@, "app"@, "com.valvesoftware.Steam"@, ".local"@, "share"@, "Steam"@],
        ) + seq![rooted("/usr/share/steam"@, Seq::<Seq<char>>::empty())],
    }
}

/// The view of an optional text.
pub open spec fn opt_view(s: Option<&str>) -> Option<Seq<char>> {
    match s {
        Some(t) => Some(t@),
        None => None,
    }
}

/// The path anchored at `root` followed by the components `parts`.
fn make_rooted(root: &str, parts: Vec<&'static str>) -> (res: GamePath)
    ensures
        res@ == rooted(root@, parts@.map_values(|p: &str| p@)),
{
    let mut out: Vec<String> = Vec::new();
    let n = parts.len();
    let mut i: usize = 0;
    while i < n
        invariant
            n == parts@.len(),
            0 <= i <= n,
            string_views(out@) =~= parts@.map_values(|p: &str| p@).take(i as int),
        decreases n - i,
    {
        let ghost before = string_views(out@);
        let s = String::from_str(parts[i]);
        out.push(s);
        assert(string_views(out@) =~= before.push(parts@[i as int]@));
        i = i + 1;
    }
    let res = GamePath { root: String::from_str(root), parts: out };
    assert(res@.parts =~= parts@.map_values(|p: &str| p@));
    res
}

/// The path that is only the anchor `root`.
fn make_anchor(root: &str) -> (res: GamePath)
    ensures
        res@ == rooted(root@, Seq::<Seq<char>>::empty()),
{
    let res = GamePath { root: String::from_str(root), parts: Vec::new() };
    assert(res@.parts =~= Seq::<Seq<char>>::empty());
    res
}

/// Push `base` joined with `parts` onto `roots` when `base` is present.
fn push_if_present(roots: &mut Vec<GamePath>, base: Option<&str>, parts: Vec<&'static str>)
    ensures
        path_views(final(roots)@) == path_views(old(roots)@) + joined_if_present(
            opt_view(base),
            parts@.map_values(|p: &str| p@),
        ),
{
    let ghost before = path_views(roots@);
    match base {
        Some(b) => {
            let p = make_rooted(b, parts);
            roots.push(p);
            assert(path_views(roots@) =~= before + joined_if_present(
                opt_view(base),
                parts@.map_values(|p: &str| p@),
            ));
        },
        None => {
            assert(path_views(roots@) =~= before + joined_if_present(
                opt_view(base),
                parts@.map_values(|p: &str| p@),
            ));
        },
    }
}

/// Steam install roots for `platform`, given what the environment says:
/// the `DOTA2_ASSISTANT_STEAM_ROOT` override and the Windows and home
/// directory variables, each when set.
pub fn steam_roots_for(
    platform: Platform,
    override_root: Option<&str>,
    program_files_x86: Option<&str>,
    program_files: Option<&str>,
    user_profile: Option<&str>,
    home: Option<&str>,
) -> (roots: Vec<GamePath>)
    ensures
        path_views(roots@) == steam_roots_spec(
            platform,
            opt_view(override_root),
            opt_view(program_files_x86),
            opt_view(program_files),
            opt_view(user_profile),
            opt_view(home),
        ),
{
    let mut roots: Vec<GamePath> = Vec::new();
    match override_root {
        Some(o) => {
            if !o.is_empty() {
                roots.push(make_anchor(o));
            }
        },
        None => {},
    }
    let ghost first = path_views(roots@);
    assert(first =~= match opt_view(override_root) {
        Some(o) => if o.len() > 0 {
            seq![rooted(o, Seq::<Seq<char>>::empty())]
        } else {
            Seq::<PathView>::empty()
        },
        None => Seq::<PathView>::empty(),
    });
    match platform {
        Platform::Windows => {
            let a = vec!["Steam"];
            let b = vec!["Steam"];
            let c = vec!["Steam"];
            assert(a@.map_values(|p: &str| p@) =~= seq!["Steam"@]);
            assert(b@.map_values(|p: &str| p@) =~= seq!["Steam"@]);
            assert(c@.map_values(|p: &str| p@) =~= seq!["Steam"@]);
            push_if_present(&mut roots, program_files_x86, a);
            push_if_present(&mut roots, program_files, b);
            push_if_present(&mut roots, user_profile, c);
        },
        Platform::MacOs => {
            let a = vec!["Library", "Application Support", "Steam"];
            assert(a@.map_values(|p: &str| p@) =~= seq![
                "Library"@,
                "Application Support"@,
                "Steam"@,
            ]);
            push_if_present(&mut roots, home, a);
        },
        Platform::OtherUnix => {
            let a = vec![".steam", "steam"];
            let b = vec![".local", "share", "Steam"];
            let c = vec!["Steam"];
            let d = vec![".var", "app", "com.valvesoftware.Steam", ".local", "share", "Steam"];
            assert(a@.map_values(|p: &str| p@) =~= seq![".steam"@, "steam"@]);
            assert(b@.map_values(|p: &str| p@) =~= seq![".local"@, "share"@, "Steam"@]);
            assert(c@.map_values(|p: &str| p@) =~= seq!["Steam"@]);
            assert(d@.map_values(|p: &str| p@) =~= seq![
                ".var"@,
                "app"@,
                "com.valvesoftware.Steam"@,
                ".local"@,
                "share"@,
                "Steam"@,
            ]);
            push_if_present(&mut roots, home, a);
            push_if_present(&mut roots, home, b);
            push_if_present(&mut roots, home, c);
            push_if_present(&mut roots, home, d);
            let ghost before = path_views(roots@);
            roots.push(make_anchor("/usr/share/steam"));
            assert(path_views(roots@) =~= before + seq![
                rooted("/usr/share/steam"@, Seq::<Seq<char>>::empty()),
            ]);
        },
    }
    assert(path_views(roots@) =~= steam_roots_spec(
        platform,
        opt_view(override_root),
        opt_view(program_files_x86),
        opt_view(program_files),
        opt_view(user_profile),
        opt_view(home),
    ));
    roots
}

} // verus!

verus! {

/// The first yes at or after `from` is the yes at `i` exactly when all
/// answers between are no.
pub proof fn lemma_first_flag_is_first(v: Seq<bool>, from: nat, n: nat, i: nat)
    requires
        from <= i < n,
        flag(v, i as int),
        forall|j: int| from <= j < i ==> !flag(v, j),
    ensures
        first_flag(v, from, n) == Some(i),
    decreases i - from,
{
    if from < i {
        lemma_first_flag_is_first(v, from + 1, n, i);
    }
}

/// Without any yes in `from..n` there is no first one.
pub proof fn lemma_first_flag_none(v: Seq<bool>, from: nat, n: nat)
    requires
        forall|j: int| from <= j < n ==> !flag(v, j),
    ensures
        first_flag(v, from, n) is None,
    decreases n - from,
{
    if from < n {
        lemma_first_flag_none(v, from + 1, n);
    }
}

/// A game root holds an installation exactly when it is a directory with a
/// game data directory (`game/dota` or `dota`); the installation then has
/// that root, an executable exactly when one of the seven candidate files
/// exists, and the configuration directory `game/dota/cfg` unless only the
/// legacy `dota/cfg` exists.
pub proof fn lemma_install_from_probe(root: PathView, probe: LayoutProbe)
    ensures
        install_spec(root, probe) is Some <==> (probe.is_dir && (flag(probe.data_dirs@, 0) || flag(
            probe.data_dirs@,
            1,
        ))),
        install_spec(root, probe) matches Some(iv) ==> {
            &&& iv.game_root == root
            &&& (iv.executable is Some <==> exists|i: int| 0 <= i < 7 && flag(probe.executables@, i))
            &&& iv.cfg_dir == join(
                root,
                rel_parts(
                    cfg_dir_candidates_spec()[if !flag(probe.cfg_dirs@, 0) && flag(
                        probe.cfg_dirs@,
                        1,
                    ) {
                        1int
                    } else {
                        0int
                    }],
                ),
            )
        },
{
    lemma_first_flag_bound(probe.executables@, 0, 7);
    if exists|i: int| 0 <= i < 7 && flag(probe.executables@, i) {
        let i = choose|i: int| 0 <= i < 7 && flag(probe.executables@, i);
        if first_flag(probe.executables@, 0, 7) is None {
            lemma_first_flag_none_contra(probe.executables@, 0, 7, i);
        }
    }
    if flag(probe.cfg_dirs@, 0) {
        lemma_first_flag_is_first(probe.cfg_dirs@, 0, 2, 0);
    } else if flag(probe.cfg_dirs@, 1) {
        lemma_first_flag_is_first(probe.cfg_dirs@, 0, 2, 1);
    } else {
        lemma_first_flag_none(probe.cfg_dirs@, 0, 2);
    }
}

/// A yes at `i` in `from..n` means there is a first one.
proof fn lemma_first_flag_none_contra(v: Seq<bool>, from: nat, n: nat, i: int)
    requires
        from <= i < n,
        flag(v, i),
    ensures
        first_flag(v, from, n) is Some,
    decreases n - from,
{
    if from < n && !flag(v, from as int) {
        lemma_first_flag_none_contra(v, from + 1, n, i);
    }
}

/// The executable an installation reports is the first of the seven
/// candidate files (newest layout first) that exists, whichever it is.
pub proof fn lemma_install_reports_first_executable(root: PathView, probe: LayoutProbe, i: nat)
    requires
        i < 7,
        flag(probe.executables@, i as int),
        forall|j: int| 0 <= j < i ==> !flag(probe.executables@, j),
    ensures
        install_spec(root, probe) matches Some(iv) ==> iv.executable == Some(
            join(root, rel_parts(executable_candidates_spec()[i as int])),
        ),
{
    lemma_first_flag_is_first(probe.executables@, 0, 7, i);
}

/// The probe of a candidate says it holds an installation.
pub open spec fn probe_shows_install(probes: Seq<LayoutProbe>, j: int) -> bool {
    &&& 0 <= j < probes.len()
    &&& probes[j].is_dir
    &&& (flag(probes[j].data_dirs@, 0) || flag(probes[j].data_dirs@, 1))
}

/// The search looks at the candidates from the first on and reports the
/// installation of the lowest-index candidate whose probe shows one.
pub proof fn lemma_search_reports_lowest_install(
    cands: Seq<PathView>,
    probes: Seq<LayoutProbe>,
    i: int,
    res: Result<Dota2Install, FindError>,
)
    requires
        search_outcome(cands, probes, res),
        0 <= i < cands.len(),
        probe_shows_install(probes, i),
        forall|j: int| 0 <= j < i ==> !probe_shows_install(probes, j),
    ensures
        res matches Ok(inst) && inst@.game_root == cands[i] && Some(inst@) == install_spec(
            cands[i],
            probes[i],
        ),
{
    assert forall|j: int| 0 <= j < i implies candidate_install(cands, probes, j) is None by {
        assert(!probe_shows_install(probes, j));
        if j < probes.len() {
            lemma_install_from_probe(cands[j], probes[j]);
        }
    }
    lemma_install_from_probe(cands[i], probes[i]);
    lemma_first_install_is(cands, probes, 0, i);
}

/// The first candidate holding an installation at or after `from`.
proof fn lemma_first_install_is(cands: Seq<PathView>, probes: Seq<LayoutProbe>, from: nat, i: int)
    requires
        from <= i < cands.len(),
        candidate_install(cands, probes, i) is Some,
        forall|j: int| from <= j < i ==> candidate_install(cands, probes, j) is None,
    ensures
        first_install(cands, probes, from) == Some(i as nat),
    decreases i - from,
{
    if from < i {
        lemma_first_install_is(cands, probes, from + 1, i);
    }
}

/// No candidate holding an installation at or after `from`.
proof fn lemma_first_install_none(cands: Seq<PathView>, probes: Seq<LayoutProbe>, from: nat)
    requires
        forall|j: int| from <= j < cands.len() ==> candidate_install(cands, probes, j) is None,
    ensures
        first_install(cands, probes, from) is None,
    decreases cands.len() - from,
{
    if from < cands.len() {
        lemma_first_install_none(cands, probes, from + 1);
    }
}

/// The search fails exactly when no candidate's probe shows an
/// installation, and the failure lists every candidate, in order.
pub proof fn lemma_search_fails_only_without_install(
    cands: Seq<PathView>,
    probes: Seq<LayoutProbe>,
    res: Result<Dota2Install, FindError>,
)
    requires
        search_outcome(cands, probes, res),
    ensures
        res is Err <==> forall|j: int| 0 <= j < cands.len() ==> !probe_shows_install(probes, j),
        res is Err ==> (res matches Err(FindError::NotFound { tried }) && path_views(tried@) == cands),
{
    if forall|j: int| 0 <= j < cands.len() ==> !probe_shows_install(probes, j) {
        assert forall|j: int| 0 <= j < cands.len() implies candidate_install(cands, probes, j) is None by {
            assert(!probe_shows_install(probes, j));
            if j < probes.len() {
                lemma_install_from_probe(cands[j], probes[j]);
            }
        }
        lemma_first_install_none(cands, probes, 0);
    } else {
        let i = choose|j: int| 0 <= j < cands.len() && probe_shows_install(probes, j);
        lemma_lowest_exists(cands, probes, i);
        let k = choose|k: int|
            0 <= k <= i && probe_shows_install(probes, k) && forall|j: int|
                0 <= j < k ==> !probe_shows_install(probes, j);
        lemma_search_reports_lowest_install(cands, probes, k, res);
    }
}

/// Some candidate whose probe shows an installation has no earlier one.
proof fn lemma_lowest_exists(cands: Seq<PathView>, probes: Seq<LayoutProbe>, i: int)
    requires
        0 <= i < cands.len(),
        probe_shows_install(probes, i),
    ensures
        exists|k: int|
            0 <= k <= i && probe_shows_install(probes, k) && forall|j: int|
                0 <= j < k ==> !probe_shows_install(probes, j),
    decreases i,
{
    if exists|j: int| 0 <= j < i && probe_shows_install(probes, j) {
        let j = choose|j: int| 0 <= j < i && probe_shows_install(probes, j);
        lemma_lowest_exists(cands, probes, j);
    } else {
        assert(0 <= i <= i && probe_shows_install(probes, i) && forall|j: int|
            0 <= j < i ==> !probe_shows_install(probes, j));
    }
}

/// The library candidates: two per library folder, in the folders' order.
pub proof fn lemma_library_candidates_shape(libs: Seq<Seq<char>>)
    ensures
        library_candidates(libs).len() == 2 * libs.len(),
        forall|j: int|
            0 <= j < libs.len() ==> #[trigger] library_candidates(libs)[2 * j] == (PathView {
                root: libs[j],
                parts: seq!["common"@, GAME_DIR_NAME@],
            }) && library_candidates(libs)[2 * j + 1] == (PathView {
                root: libs[j],
                parts: seq!["steamapps"@, "common"@, GAME_DIR_NAME@],
            }),
    decreases libs.len(),
{
    if libs.len() > 0 {
        let rest = libs.drop_last();
        lemma_library_candidates_shape(rest);
        let lc = library_candidates(libs);
        let a = PathView { root: libs.last(), parts: seq!["common"@, GAME_DIR_NAME@] };
        let b = PathView { root: libs.last(), parts: seq!["steamapps"@, "common"@, GAME_DIR_NAME@] };
        assert(lc == library_candidates(rest) + seq![a, b]);
        assert forall|j: int| 0 <= j < libs.len() implies #[trigger] lc[2 * j] == (PathView {
            root: libs[j],
            parts: seq!["common"@, GAME_DIR_NAME@],
        }) && lc[2 * j + 1] == (PathView {
            root: libs[j],
            parts: seq!["steamapps"@, "common"@, GAME_DIR_NAME@],
        }) by {
            if j < rest.len() {
                assert(rest[j] == libs[j]);
                assert(library_candidates(rest)[2 * j] == lc[2 * j]);
                assert(library_candidates(rest)[2 * j + 1] == lc[2 * j + 1]);
            } else {
                assert(j == rest.len());
                assert(lc[2 * j] == a);
                assert(lc[2 * j + 1] == b);
            }
        }
    }
}

/// A Steam root's candidates: its own `steamapps/common/dota 2 beta` first,
/// then, for every library folder the VDF text lists, in order, the folder's
/// `common/dota 2 beta` and `steamapps/common/dota 2 beta`; nothing more.
pub proof fn lemma_candidate_dirs_cover_every_library(steam_root: PathView, vdf_text: Option<
    Seq<char>,
>)
    ensures
        ({
            let c = candidate_dirs_spec(steam_root, vdf_text);
            let libs = match vdf_text {
                Some(t) => library_paths_spec(t),
                None => Seq::<Seq<char>>::empty(),
            };
            &&& c.len() == 1 + 2 * libs.len()
            &&& c[0] == join(steam_root, seq!["steamapps"@, "common"@, GAME_DIR_NAME@])
            &&& forall|j: int|
                0 <= j < libs.len() ==> #[trigger] c[1 + 2 * j] == (PathView {
                    root: libs[j],
                    parts: seq!["common"@, GAME_DIR_NAME@],
                }) && c[2 + 2 * j] == (PathView {
                    root: libs[j],
                    parts: seq!["steamapps"@, "common"@, GAME_DIR_NAME@],
                })
        }),
{
    let libs = match vdf_text {
        Some(t) => library_paths_spec(t),
        None => Seq::<Seq<char>>::empty(),
    };
    lemma_library_candidates_shape(libs);
    let c = candidate_dirs_spec(steam_root, vdf_text);
    if vdf_text is None {
        assert(library_candidates(libs) =~= Seq::<PathView>::empty());
    }
    assert(c =~= seq![steam_game_dir(steam_root)] + library_candidates(libs));
    assert forall|j: int| 0 <= j < libs.len() implies #[trigger] c[1 + 2 * j] == (PathView {
        root: libs[j],
        parts: seq!["common"@, GAME_DIR_NAME@],
    }) && c[2 + 2 * j] == (PathView {
        root: libs[j],
        parts: seq!["steamapps"@, "common"@, GAME_DIR_NAME@],
    }) by {
        assert(c[1 + 2 * j] == library_candidates(libs)[2 * j]);
        assert(c[2 + 2 * j] == library_candidates(libs)[2 * j + 1]);
    }
}

/// One when the optional text is present, else zero.
pub open spec fn present(o: Option<Seq<char>>) -> int {
    if o is Some {
        1
    } else {
        0
    }
}

/// A non-empty override comes first and leaves the rest of the list as it
/// is; an empty override is ignored.
pub proof fn lemma_steam_override_comes_first(
    platform: Platform,
    o: Seq<char>,
    a: Option<Seq<char>>,
    b: Option<Seq<char>>,
    c: Option<Seq<char>>,
    h: Option<Seq<char>>,
)
    ensures
        steam_roots_spec(platform, Some(o), a, b, c, h) == if o.len() > 0 {
            seq![rooted(o, Seq::<Seq<char>>::empty())] + steam_roots_spec(platform, None, a, b, c, h)
        } else {
            steam_roots_spec(platform, None, a, b, c, h)
        },
{
    assert(steam_roots_spec(platform, Some(o), a, b, c, h) =~= if o.len() > 0 {
        seq![rooted(o, Seq::<Seq<char>>::empty())] + steam_roots_spec(platform, None, a, b, c, h)
    } else {
        steam_roots_spec(platform, None, a, b, c, h)
    });
}

/// On Windows every one of `ProgramFiles(x86)`, `ProgramFiles` and
/// `USERPROFILE` that is set gives exactly one root, its value joined with
/// `Steam`, in that order; the home directory is not looked at.
pub proof fn lemma_windows_steam_roots(
    a: Option<Seq<char>>,
    b: Option<Seq<char>>,
    c: Option<Seq<char>>,
    h: Option<Seq<char>>,
    h2: Option<Seq<char>>,
)
    ensures
        ({
            let r = steam_roots_spec(Platform::Windows, None, a, b, c, h);
            &&& r.len() == present(a) + present(b) + present(c)
            &&& a matches Some(x) ==> r[0] == rooted(x, seq!["Steam"@])
            &&& b matches Some(y) ==> r[present(a)] == rooted(y, seq!["Steam"@])
            &&& c matches Some(z) ==> r[present(a) + present(b)] == rooted(z, seq!["Steam"@])
            &&& steam_roots_spec(Platform::Windows, None, a, b, c, h2) == r
        }),
{
}

/// On macOS the only root, when the home directory is set, is
/// `<home>/Library/Application Support/Steam`; the Windows variables are not
/// looked at.
pub proof fn lemma_macos_steam_roots(
    a: Option<Seq<char>>,
    b: Option<Seq<char>>,
    c: Option<Seq<char>>,
    h: Option<Seq<char>>,
)
    ensures
        ({
            let r = steam_roots_spec(Platform::MacOs, None, a, b, c, h);
            &&& r.len() == present(h)
            &&& h matches Some(x) ==> r[0] == rooted(
                x,
                seq!["Library"@, "Application Support"@, "Steam"@],
            )
            &&& r == steam_roots_spec(Platform::MacOs, None, None, None, None, h)
        }),
{
    assert(steam_roots_spec(Platform::MacOs, None, a, b, c, h) =~= steam_roots_spec(
        Platform::MacOs,
        None,
        None,
        None,
        None,
        h,
    ));
}

/// On other Unix systems the roots are, when the home directory is set,
/// `<home>/.steam/steam`, `<home>/.local/share/Steam`, `<home>/Steam` and the
/// Flatpak `<home>/.var/app/com.valvesoftware.Steam/.local/share/Steam`, in
/// that order, and always last `/usr/share/steam`.
pub proof fn lemma_unix_steam_roots(
    a: Option<Seq<char>>,
    b: Option<Seq<char>>,
    c: Option<Seq<char>>,
    h: Option<Seq<char>>,
)
    ensures
        ({
            let r = steam_roots_spec(Platform::OtherUnix, None, a, b, c, h);
            &&& r.len() == 4 * present(h) + 1
            &&& r[r.len() - 1] == rooted("/usr/share/steam"@, Seq::<Seq<char>>::empty())
            &&& h matches Some(x) ==> {
                &&& r[0] == rooted(x, seq![".steam"@, "steam"@])
                &&& r[1] == rooted(x, seq![".local"@, "share"@, "Steam"@])
                &&& r[2] == rooted(x, seq!["Steam"@])
                &&& r[3] == rooted(
                    x,
                    seq![
                        ".var"@,
                        "app"@,
                        "com.valvesoftware.Steam"@,
                        ".local"@,
                        "share"@,
                        "Steam"@,
                    ],
                )
            }
            &&& r == steam_roots_spec(Platform::OtherUnix, None, None, None, None, h)
        }),
{
    assert(steam_roots_spec(Platform::OtherUnix, None, a, b, c, h) =~= steam_roots_spec(
        Platform::OtherUnix,
        None,
        None,
        None,
        None,
        h,
    ));
}

} // verus!
