//! Thunderbird profile discovery across native, Snap, and Flatpak installs.
//!
//! The library holds the search: which `profiles.ini` files are consulted in
//! which order, how one is read, and which profile directory is chosen. The
//! application answers the file-system questions the search asks.

use crate::path::{is_absolute, join, join_path, path_eq, paths_equal};
use crate::text::{
    chars_of, contains, eq_ignore_ascii_case, lemma_eq_ignore_case_is_lowercase_eq, line_ranges,
    lines, range_contains, range_eq, range_eq_ignore_ascii_case, range_starts_with, split_once,
    starts_with, string_of_range, texts, to_ascii_lower, to_ascii_lowercase, trim, trim_range,
};
use vstd::prelude::*;

verus! {

/// The profile roots in the order they are checked by default.
pub open spec fn profile_roots(home: Seq<char>) -> Seq<Seq<char>> {
    seq![
        join(home, ".thunderbird"@),
        join(home, "snap/thunderbird/common/.thunderbird"@),
        join(home, "snap/thunderbird/current/.thunderbird"@),
        join(home, ".var/app/org.mozilla.Thunderbird/.thunderbird"@),
        join(home, ".mozilla-thunderbird"@),
    ]
}

/// `s` rotated left by `k` places.
pub open spec fn rotate_left<A>(s: Seq<A>, k: int) -> Seq<A> {
    s.subrange(k, s.len() as int) + s.subrange(0, k)
}

/// The profile roots in the order they are checked for a launch command: a
/// Flatpak command starts at the Flatpak root, a Snap command at the Snap roots.
pub open spec fn profile_roots_for_command(home: Seq<char>, command: Seq<char>) -> Seq<Seq<char>> {
    let lower = to_ascii_lowercase(command);
    if contains(lower, "flatpak"@) || contains(lower, "org.mozilla.thunderbird"@) {
        rotate_left(profile_roots(home), 3)
    } else if contains(lower, "snap"@) {
        rotate_left(profile_roots(home), 1)
    } else {
        profile_roots(home)
    }
}

/// Returns the Thunderbird profile roots in the order they should be checked.
///
/// Keeping this pure makes profile discovery independent of the process home
/// directory and allows callers to test an isolated filesystem tree.
pub fn candidate_profile_roots(home: &str) -> (r: Vec<String>)
    ensures
        texts(r@) == profile_roots(home@),
{
    let mut r: Vec<String> = Vec::new();
    r.push(join_path(home, ".thunderbird"));
    r.push(join_path(home, "snap/thunderbird/common/.thunderbird"));
    r.push(join_path(home, "snap/thunderbird/current/.thunderbird"));
    r.push(join_path(home, ".var/app/org.mozilla.Thunderbird/.thunderbird"));
    r.push(join_path(home, ".mozilla-thunderbird"));
    assert(texts(r@) =~= profile_roots(home@));
    r
}

/// The profile roots in the order they are checked for the given launch command.
pub fn candidate_profile_roots_for_command(home: &str, command: &str) -> (r: Vec<String>)
    ensures
        texts(r@) == profile_roots_for_command(home@, command@),
{
    let roots = candidate_profile_roots(home);
    let cmd = chars_of(command);
    let mut lower: Vec<char> = Vec::new();
    let mut i: usize = 0;
    while i < cmd.len()
        invariant
            i <= cmd@.len(),
            cmd@ == command@,
            lower@ == to_ascii_lowercase(cmd@.subrange(0, i as int)),
        decreases cmd@.len() - i,
    {
        lower.push(to_ascii_lower(cmd[i]));
        i = i + 1;
        assert(lower@ =~= to_ascii_lowercase(cmd@.subrange(0, i as int)));
    }
    assert(cmd@.subrange(0, cmd@.len() as int) =~= cmd@);
    assert(lower@.subrange(0, lower@.len() as int) =~= lower@);
    let n = lower.len();
    let shift: usize = if range_contains(&lower, 0, n, "flatpak") || range_contains(
        &lower,
        0,
        n,
        "org.mozilla.thunderbird",
    ) {
        3
    } else if range_contains(&lower, 0, n, "snap") {
        1
    } else {
        0
    };
    let mut r: Vec<String> = Vec::new();
    let mut j: usize = 0;
    assert(roots@.len() == texts(roots@).len());
    while j < 5
        invariant
            j <= 5,
            shift <= 3,
            texts(roots@) == profile_roots(home@),
            roots@.len() == 5,
            texts(r@) == texts(rotate_left(roots@, shift as int)).subrange(0, j as int),
        decreases 5 - j,
    {
        let k = if j + shift < 5 {
            j + shift
        } else {
            j + shift - 5
        };
        let ghost old_r = r@;
        r.push(String::from_str(roots[k].as_str()));
        assert(rotate_left(roots@, shift as int)[j as int] == roots@[k as int]);
        assert(texts(r@) =~= texts(old_r).push(roots@[k as int]@));
        j = j + 1;
        assert(texts(r@) =~= texts(rotate_left(roots@, shift as int)).subrange(0, j as int));
    }
    assert(texts(rotate_left(roots@, shift as int)) =~= rotate_left(texts(roots@), shift as int));
    assert(texts(rotate_left(roots@, shift as int)).subrange(0, 5) =~= texts(
        rotate_left(roots@, shift as int),
    ));
    proof {
        if shift == 0 {
            assert(rotate_left(profile_roots(home@), 0) =~= profile_roots(home@));
        }
    }
    r
}


// ---------------------------------------------------------------------------
// profiles.ini
// ---------------------------------------------------------------------------

/// A `[Profile*]` section as read so far.
pub struct ProfileModel {
    pub path: Option<Seq<char>>,
    pub is_relative: Option<bool>,
    pub is_default: bool,
}

/// The kind of section the reader is in.
pub enum SectionModel {
    Install,
    Profile(ProfileModel),
    Other,
}

/// What has been read of a `profiles.ini` document.
pub struct ScanModel {
    pub install_defaults: Seq<Seq<char>>,
    pub profiles: Seq<ProfileModel>,
    pub section: SectionModel,
}

/// A fresh profile section.
pub open spec fn empty_profile() -> ProfileModel {
    ProfileModel { path: None, is_relative: None, is_default: false }
}

/// The section a header `[name]` opens.
pub open spec fn section_of(name: Seq<char>) -> SectionModel {
    if starts_with(name, "Install"@) {
        SectionModel::Install
    } else if starts_with(name, "Profile"@) {
        SectionModel::Profile(empty_profile())
    } else {
        SectionModel::Other
    }
}

/// A `key=value` entry inside a profile section.
pub open spec fn set_entry(p: ProfileModel, key: Seq<char>, value: Seq<char>) -> ProfileModel {
    if eq_ignore_ascii_case(key, "Path"@) && value.len() > 0 {
        ProfileModel { path: Some(value), ..p }
    } else if eq_ignore_ascii_case(key, "IsRelative"@) {
        ProfileModel { is_relative: Some(value == "1"@), ..p }
    } else if eq_ignore_ascii_case(key, "Default"@) {
        ProfileModel { is_default: value == "1"@, ..p }
    } else {
        p
    }
}

proof fn lemma_profile_key_names()
    ensures
        to_ascii_lowercase("Path"@) == "path"@,
        to_ascii_lowercase("IsRelative"@) == "isrelative"@,
        to_ascii_lowercase("Default"@) == "default"@,
{
    reveal_strlit("Path");
    reveal_strlit("path");
    reveal_strlit("IsRelative");
    reveal_strlit("isrelative");
    reveal_strlit("Default");
    reveal_strlit("default");
    assert(to_ascii_lowercase("Path"@) =~= "path"@);
    assert(to_ascii_lowercase("IsRelative"@) =~= "isrelative"@);
    assert(to_ascii_lowercase("Default"@) =~= "default"@);
}

/// Law of profile entries: keys are matched ignoring ASCII case. `Default` sets
/// whether the profile is the default one (`1` means yes), `IsRelative` whether
/// its path is relative, and a non-empty `Path` its path; every other entry,
/// and an empty `Path`, leaves the profile as it is.
pub proof fn profile_keys_ignore_case(p: ProfileModel, key: Seq<char>, value: Seq<char>)
    ensures
        to_ascii_lowercase(key) == "default"@ ==> set_entry(p, key, value) == (ProfileModel {
            is_default: value == "1"@,
            ..p
        }),
        to_ascii_lowercase(key) == "isrelative"@ ==> set_entry(p, key, value) == (ProfileModel {
            is_relative: Some(value == "1"@),
            ..p
        }),
        to_ascii_lowercase(key) == "path"@ && value.len() > 0 ==> set_entry(p, key, value)
            == (ProfileModel { path: Some(value), ..p }),
        to_ascii_lowercase(key) != "default"@ && to_ascii_lowercase(key) != "isrelative"@ && !(
        to_ascii_lowercase(key) == "path"@ && value.len() > 0) ==> set_entry(p, key, value) == p,
{
    lemma_profile_key_names();
    lemma_eq_ignore_case_is_lowercase_eq(key, "Path"@);
    lemma_eq_ignore_case_is_lowercase_eq(key, "IsRelative"@);
    lemma_eq_ignore_case_is_lowercase_eq(key, "Default"@);
    reveal_strlit("path");
    reveal_strlit("isrelative");
    reveal_strlit("default");
    assert("path"@.len() == 4 && "default"@.len() == 7 && "isrelative"@.len() == 10);
    if to_ascii_lowercase(key) == "default"@ {
        assert(to_ascii_lowercase(key) != "path"@);
        assert(to_ascii_lowercase(key) != "isrelative"@);
    }
    if to_ascii_lowercase(key) == "isrelative"@ {
        assert(to_ascii_lowercase(key) != "path"@);
    }
}

/// Closes the current section, keeping it if it was a profile.
pub open spec fn finish_model(st: ScanModel) -> ScanModel {
    match st.section {
        SectionModel::Profile(p) => ScanModel {
            profiles: st.profiles.push(p),
            section: SectionModel::Other,
            ..st
        },
        _ => ScanModel { section: SectionModel::Other, ..st },
    }
}

/// Reading one line of `profiles.ini`.
pub open spec fn ini_step(st: ScanModel, raw: Seq<char>) -> ScanModel {
    let line = trim(raw);
    if line.len() == 0 || line[0] == ';' || line[0] == '#' {
        st
    } else if line[0] == '[' && line.last() == ']' {
        ScanModel { section: section_of(line.subrange(1, line.len() - 1)), ..finish_model(st) }
    } else {
        match split_once(line, '=') {
            None => st,
            Some((k, v)) => {
                let key = trim(k);
                let value = trim(v);
                match st.section {
                    SectionModel::Install => if eq_ignore_ascii_case(key, "Default"@) && value.len()
                        > 0 {
                        ScanModel { install_defaults: st.install_defaults.push(value), ..st }
                    } else {
                        st
                    },
                    SectionModel::Profile(p) => ScanModel {
                        section: SectionModel::Profile(set_entry(p, key, value)),
                        ..st
                    },
                    SectionModel::Other => st,
                }
            },
        }
    }
}

/// The state before any line is read.
pub open spec fn initial_scan() -> ScanModel {
    ScanModel {
        install_defaults: Seq::empty(),
        profiles: Seq::empty(),
        section: SectionModel::Other,
    }
}

/// Reading a sequence of lines.
pub open spec fn ini_scan(ls: Seq<Seq<char>>) -> ScanModel
    decreases ls.len(),
{
    if ls.len() == 0 {
        initial_scan()
    } else {
        ini_step(ini_scan(ls.drop_last()), ls.last())
    }
}

/// A profile path resolved against the profile root: a relative one is joined to
/// the root, an absolute one stays as it is.
pub open spec fn resolve(root: Seq<char>, path: Seq<char>, relative: bool) -> Seq<char> {
    if relative && !is_absolute(path) {
        join(root, path)
    } else {
        path
    }
}

/// Adds a candidate unless an equal path is already present.
pub open spec fn push_unique(c: Seq<Seq<char>>, x: Seq<char>) -> Seq<Seq<char>> {
    if exists|i: int| 0 <= i < c.len() && path_eq(#[trigger] c[i], x) {
        c
    } else {
        c.push(x)
    }
}

/// Adds the `[Install*] Default` paths, in order.
pub open spec fn add_install_defaults(
    c: Seq<Seq<char>>,
    root: Seq<char>,
    ds: Seq<Seq<char>>,
) -> Seq<Seq<char>>
    decreases ds.len(),
{
    if ds.len() == 0 {
        c
    } else {
        push_unique(add_install_defaults(c, root, ds.drop_last()), resolve(root, ds.last(), true))
    }
}

/// The resolved path of a profile with a path.
pub open spec fn profile_path(root: Seq<char>, p: ProfileModel) -> Seq<char> {
    resolve(root, p.path.unwrap(), match p.is_relative {
        Some(b) => b,
        None => true,
    })
}

/// Adds the paths of the profiles marked `Default=1`, in order.
pub open spec fn add_default_profiles(
    c: Seq<Seq<char>>,
    root: Seq<char>,
    ps: Seq<ProfileModel>,
) -> Seq<Seq<char>>
    decreases ps.len(),
{
    if ps.len() == 0 {
        c
    } else {
        let before = add_default_profiles(c, root, ps.drop_last());
        let p = ps.last();
        if p.is_default && p.path is Some {
            push_unique(before, profile_path(root, p))
        } else {
            before
        }
    }
}

/// Index of the first profile that has a path, or -1.
pub open spec fn first_with_path(ps: Seq<ProfileModel>) -> int
    decreases ps.len(),
{
    if ps.len() == 0 {
        -1
    } else if ps[0].path is Some {
        0
    } else {
        let r = first_with_path(ps.drop_first());
        if r < 0 {
            -1
        } else {
            r + 1
        }
    }
}

/// The profile paths of a `profiles.ini` document in selection order:
/// `[Install*] Default` entries, then `[Profile*]` entries with `Default=1`, then
/// the first profile with a path, without repeating a path.
pub open spec fn ini_candidates(contents: Seq<char>, root: Seq<char>) -> Seq<Seq<char>> {
    let st = finish_model(ini_scan(lines(contents)));
    let c1 = add_install_defaults(Seq::empty(), root, st.install_defaults);
    let c2 = add_default_profiles(c1, root, st.profiles);
    let i = first_with_path(st.profiles);
    if i < 0 {
        c2
    } else {
        push_unique(c2, profile_path(root, st.profiles[i]))
    }
}

/// A `[Profile*]` section while it is read.
struct ProfileEntry {
    path: Option<String>,
    is_relative: Option<bool>,
    is_default: bool,
}

impl View for ProfileEntry {
    type V = ProfileModel;

    closed spec fn view(&self) -> ProfileModel {
        ProfileModel {
            path: match self.path {
                Some(s) => Some(s@),
                None => None,
            },
            is_relative: self.is_relative,
            is_default: self.is_default,
        }
    }
}

/// The kind of section being read.
enum IniSection {
    Install,
    Profile(ProfileEntry),
    Other,
}

impl View for IniSection {
    type V = SectionModel;

    closed spec fn view(&self) -> SectionModel {
        match self {
            IniSection::Install => SectionModel::Install,
            IniSection::Profile(p) => SectionModel::Profile(p@),
            IniSection::Other => SectionModel::Other,
        }
    }
}

/// The models of a sequence of profile entries.
spec fn entries_view(ps: Seq<ProfileEntry>) -> Seq<ProfileModel> {
    ps.map_values(|p: ProfileEntry| p@)
}

impl IniSection {
    /// The section a header names (`v[lo..hi]` is the text between the brackets).
    fn from_name(v: &Vec<char>, lo: usize, hi: usize) -> (r: IniSection)
        requires
            lo <= hi <= v@.len(),
        ensures
            r@ == section_of(v@.subrange(lo as int, hi as int)),
    {
        if range_starts_with(v, lo, hi, "Install") {
            IniSection::Install
        } else if range_starts_with(v, lo, hi, "Profile") {
            IniSection::Profile(ProfileEntry { path: None, is_relative: None, is_default: false })
        } else {
            IniSection::Other
        }
    }
}

impl ProfileEntry {
    /// Applies a `key=value` entry (`v[ka..kb]` and `v[va..vb]`, both trimmed).
    fn set(self, v: &Vec<char>, ka: usize, kb: usize, va: usize, vb: usize) -> (r: ProfileEntry)
        requires
            ka <= kb <= v@.len(),
            va <= vb <= v@.len(),
        ensures
            r@ == set_entry(
                self@,
                v@.subrange(ka as int, kb as int),
                v@.subrange(va as int, vb as int),
            ),
    {
        if range_eq_ignore_ascii_case(v, ka, kb, "Path") && va < vb {
            ProfileEntry { path: Some(string_of_range(v, va, vb)), ..self }
        } else if range_eq_ignore_ascii_case(v, ka, kb, "IsRelative") {
            ProfileEntry { is_relative: Some(range_eq(v, va, vb, "1")), ..self }
        } else if range_eq_ignore_ascii_case(v, ka, kb, "Default") {
            ProfileEntry { is_default: range_eq(v, va, vb, "1"), ..self }
        } else {
            self
        }
    }
}

/// Closes the current section, keeping it if it was a profile.
fn finish_section(section: IniSection, profiles: &mut Vec<ProfileEntry>)
    ensures
        entries_view(final(profiles)@) == match section@ {
            SectionModel::Profile(p) => entries_view(old(profiles)@).push(p),
            _ => entries_view(old(profiles)@),
        },
{
    if let IniSection::Profile(profile) = section {
        let ghost before = profiles@;
        profiles.push(profile);
        assert(entries_view(profiles@) =~= entries_view(before).push(profile@));
    }
}

/// Resolves a profile path against the profile root.
fn resolve_profile_path(profile_root: &str, path: &str, is_relative: bool) -> (r: String)
    ensures
        r@ == resolve(profile_root@, path@, is_relative),
{
    if is_relative && !crate::path::path_is_absolute(path) {
        join_path(profile_root, path)
    } else {
        String::from_str(path)
    }
}

/// Adds a candidate unless an equal path is already present.
fn push_unique_candidate(candidates: &mut Vec<String>, candidate: String)
    ensures
        texts(final(candidates)@) == push_unique(texts(old(candidates)@), candidate@),
{
    let ghost c = texts(candidates@);
    let mut i: usize = 0;
    while i < candidates.len()
        invariant
            i <= candidates@.len(),
            c == texts(candidates@),
            forall|k: int| 0 <= k < i ==> !path_eq(#[trigger] c[k], candidate@),
        decreases candidates@.len() - i,
    {
        if paths_equal(candidates[i].as_str(), candidate.as_str()) {
            assert(path_eq(c[i as int], candidate@));
            return;
        }
        i = i + 1;
    }
    let ghost before = candidates@;
    candidates.push(candidate);
    assert(texts(candidates@) =~= texts(before).push(candidate@));
}

proof fn lemma_first_with_path(ps: Seq<ProfileModel>, i: int)
    requires
        0 <= i <= ps.len(),
        forall|k: int| 0 <= k < i ==> (#[trigger] ps[k]).path is None,
    ensures
        i < ps.len() && ps[i].path is Some ==> first_with_path(ps) == i,
        i == ps.len() ==> first_with_path(ps) == -1,
    decreases i,
{
    if ps.len() > 0 && i > 0 {
        assert forall|k: int| 0 <= k < i - 1 implies (#[trigger] ps.drop_first()[k]).path is None by {
            assert(ps.drop_first()[k] == ps[k + 1]);
        }
        lemma_first_with_path(ps.drop_first(), i - 1);
    }
}

/// Parses a `profiles.ini` document and returns profile paths in selection order.
///
/// The returned order is `[Install*] Default`, `[Profile*] Default=1`, then the
/// first profile with a path. Relative paths are resolved against `profile_root`;
/// absolute paths remain absolute. This function performs no filesystem access.
pub fn profile_candidates_from_ini(contents: &str, profile_root: &str) -> (r: Vec<String>)
    ensures
        texts(r@) == ini_candidates(contents@, profile_root@),
{
    let v = chars_of(contents);
    let ranges = line_ranges(&v);
    let ghost ls = lines(v@);
    let mut install_defaults: Vec<String> = Vec::new();
    let mut profiles: Vec<ProfileEntry> = Vec::new();
    let mut section = IniSection::Other;
    let mut i: usize = 0;
    assert(ls.take(0) =~= Seq::<Seq<char>>::empty());
    assert(texts(install_defaults@) =~= Seq::<Seq<char>>::empty());
    assert(entries_view(profiles@) =~= Seq::<ProfileModel>::empty());
    while i < ranges.len()
        invariant
            i <= ranges@.len(),
            v@ == contents@,
            ls == lines(v@),
            forall|j: int| 0 <= j < ranges@.len() ==> #[trigger] ranges@[j].0 <= ranges@[j].1 <= v@.len(),
            ranges@.map_values(|p: (usize, usize)| v@.subrange(p.0 as int, p.1 as int)) == ls,
            (ScanModel {
                install_defaults: texts(install_defaults@),
                profiles: entries_view(profiles@),
                section: section@,
            }) == ini_scan(ls.take(i as int)),
        decreases ranges@.len() - i,
    {
        let ghost st = ScanModel {
            install_defaults: texts(install_defaults@),
            profiles: entries_view(profiles@),
            section: section@,
        };
        assert(ls.take(i + 1).drop_last() =~= ls.take(i as int));
        assert(ls.take(i + 1).last() == ls[i as int]);
        assert(ls.len() == ranges@.len());
        let (lo, hi) = ranges[i];
        assert(ls[i as int] == v@.subrange(lo as int, hi as int));
        let (a, b) = trim_range(&v, lo, hi);
        let ghost line = v@.subrange(a as int, b as int);
        assert(line == trim(ls[i as int]));
        if a == b || v[a] == ';' || v[a] == '#' {
            assert(line.len() == 0 || line[0] == v@[a as int]);
        } else if v[a] == '[' && v[b - 1] == ']' {
            assert(line[0] == v@[a as int] && line.last() == v@[b - 1]);
            assert(b - a >= 2);
            assert(line.subrange(1, line.len() - 1) =~= v@.subrange(a + 1, b - 1));
            let ghost before = entries_view(profiles@);
            finish_section(section, &mut profiles);
            section = IniSection::from_name(&v, a + 1, b - 1);
        } else {
            assert(line[0] == v@[a as int]);
            assert(!(line[0] == '[' && line.last() == ']')) by {
                assert(line.last() == v@[b - 1]);
            }
            match crate::text::find_char(&v, a, b, '=') {
                None => {},
                Some(e) => {
                    let (ka, kb) = trim_range(&v, a, e);
                    let (va, vb) = trim_range(&v, e + 1, b);
                    assert(line.subrange(0, e - a) =~= v@.subrange(a as int, e as int));
                    assert(line.subrange(e - a + 1, line.len() as int) =~= v@.subrange(
                        e + 1,
                        b as int,
                    ));
                    section = match section {
                        IniSection::Install => {
                            if range_eq_ignore_ascii_case(&v, ka, kb, "Default") && va < vb {
                                let ghost before = install_defaults@;
                                install_defaults.push(string_of_range(&v, va, vb));
                                assert(texts(install_defaults@) =~= texts(before).push(
                                    v@.subrange(va as int, vb as int),
                                ));
                            }
                            IniSection::Install
                        },
                        IniSection::Profile(p) => IniSection::Profile(p.set(&v, ka, kb, va, vb)),
                        IniSection::Other => IniSection::Other,
                    };
                },
            }
        }
        i = i + 1;
    }
    assert(ls.take(ranges@.len() as int) =~= ls) by {
        assert(ls.len() == ranges@.len());
    }
    let ghost scanned = ini_scan(ls);
    finish_section(section, &mut profiles);
    let ghost st = finish_model(scanned);
    assert(entries_view(profiles@) == st.profiles);
    // [Install*] Default entries.
    let mut candidates: Vec<String> = Vec::new();
    let mut j: usize = 0;
    assert(st.install_defaults.take(0) =~= Seq::<Seq<char>>::empty());
    assert(texts(candidates@) =~= Seq::<Seq<char>>::empty());
    while j < install_defaults.len()
        invariant
            j <= install_defaults@.len(),
            texts(install_defaults@) == st.install_defaults,
            texts(candidates@) == add_install_defaults(
                Seq::empty(),
                profile_root@,
                st.install_defaults.take(j as int),
            ),
        decreases install_defaults@.len() - j,
    {
        assert(st.install_defaults.take(j + 1).drop_last() =~= st.install_defaults.take(j as int));
        assert(st.install_defaults[j as int] == install_defaults@[j as int]@);
        let resolved = resolve_profile_path(profile_root, install_defaults[j].as_str(), true);
        push_unique_candidate(&mut candidates, resolved);
        j = j + 1;
    }
    assert(st.install_defaults.take(install_defaults@.len() as int) =~= st.install_defaults);
    let ghost c1 = texts(candidates@);
    // [Profile*] Default=1 entries.
    let mut k: usize = 0;
    assert(st.profiles.take(0) =~= Seq::<ProfileModel>::empty());
    while k < profiles.len()
        invariant
            k <= profiles@.len(),
            entries_view(profiles@) == st.profiles,
            texts(candidates@) == add_default_profiles(c1, profile_root@, st.profiles.take(k as int)),
        decreases profiles@.len() - k,
    {
        assert(st.profiles.take(k + 1).drop_last() =~= st.profiles.take(k as int));
        assert(st.profiles[k as int] == profiles@[k as int]@);
        let profile = &profiles[k];
        if profile.is_default {
            match &profile.path {
                Some(path) => {
                    let rel = match profile.is_relative {
                        Some(b) => b,
                        None => true,
                    };
                    let resolved = resolve_profile_path(profile_root, path.as_str(), rel);
                    push_unique_candidate(&mut candidates, resolved);
                },
                None => {},
            }
        }
        k = k + 1;
    }
    assert(st.profiles.take(profiles@.len() as int) =~= st.profiles);
    let ghost c2 = texts(candidates@);
    assert(c2 == add_default_profiles(
        add_install_defaults(Seq::empty(), profile_root@, st.install_defaults),
        profile_root@,
        st.profiles,
    ));
    // The first profile with a path.
    let mut m: usize = 0;
    while m < profiles.len()
        invariant
            m <= profiles@.len(),
            entries_view(profiles@) == st.profiles,
            forall|q: int| 0 <= q < m ==> (#[trigger] st.profiles[q]).path is None,
        ensures
            m <= profiles@.len(),
            forall|q: int| 0 <= q < m ==> (#[trigger] st.profiles[q]).path is None,
            m < profiles@.len() ==> st.profiles[m as int].path is Some,
        decreases profiles@.len() - m,
    {
        if profiles[m].path.is_some() {
            assert(st.profiles[m as int] == profiles@[m as int]@);
            break;
        }
        assert(st.profiles[m as int] == profiles@[m as int]@);
        m = m + 1;
    }
    proof {
        lemma_first_with_path(st.profiles, m as int);
    }
    if m < profiles.len() {
        let profile = &profiles[m];
        assert(st.profiles[m as int] == profile@);
        match &profile.path {
            Some(path) => {
                let rel = match profile.is_relative {
                    Some(b) => b,
                    None => true,
                };
                assert(st.profiles[m as int].path == Some(path@));
                let resolved = resolve_profile_path(profile_root, path.as_str(), rel);
                assert(resolved@ == profile_path(profile_root@, st.profiles[m as int]));
                push_unique_candidate(&mut candidates, resolved);
            },
            None => {},
        }
    }
    assert(st == finish_model(ini_scan(lines(contents@))));
    candidates
}


// ---------------------------------------------------------------------------
// Discovery
// ---------------------------------------------------------------------------

/// `items` joined with `sep` between consecutive items.
pub open spec fn joined(items: Seq<Seq<char>>, sep: Seq<char>) -> Seq<char>
    decreases items.len(),
{
    if items.len() == 0 {
        Seq::empty()
    } else if items.len() == 1 {
        items[0]
    } else {
        joined(items.drop_last(), sep) + sep + items.last()
    }
}

/// Error returned when none of the known profile roots yields a usable profile.
#[derive(Debug)]
pub struct ProfileDiscoveryError {
    tried_profiles_ini: Vec<String>,
}

impl ProfileDiscoveryError {
    /// The `profiles.ini` paths that were tried, in order.
    pub closed spec fn tried(&self) -> Seq<Seq<char>> {
        texts(self.tried_profiles_ini@)
    }

    /// The `profiles.ini` paths that were tried, in order.
    pub fn tried_profiles_ini(&self) -> (r: &Vec<String>)
        ensures
            texts(r@) == self.tried(),
    {
        &self.tried_profiles_ini
    }

    /// The explanation, as `Display` gives it: it lists the paths tried and
    /// nothing of their contents.
    pub fn to_string(&self) -> (r: String)
        ensures
            r@ == "No usable Thunderbird profile found. Tried profiles.ini paths: "@ + joined(
                self.tried(),
                ", "@,
            ),
    {
        let mut r = String::from_str("No usable Thunderbird profile found. Tried profiles.ini paths: ");
        let ghost prefix = r@;
        let ghost items = texts(self.tried_profiles_ini@);
        let mut i: usize = 0;
        assert(items.take(0) =~= Seq::<Seq<char>>::empty());
        assert(r@ =~= prefix + joined(items.take(0), ", "@));
        while i < self.tried_profiles_ini.len()
            invariant
                i <= self.tried_profiles_ini@.len(),
                items == texts(self.tried_profiles_ini@),
                r@ == prefix + joined(items.take(i as int), ", "@),
            decreases self.tried_profiles_ini@.len() - i,
        {
            assert(items.take(i + 1).drop_last() =~= items.take(i as int));
            assert(items.take(i + 1).last() == self.tried_profiles_ini@[i as int]@);
            if i > 0 {
                r.append(", ");
            }
            r.append(self.tried_profiles_ini[i].as_str());
            proof {
                if i == 0 {
                    assert(joined(items.take(1), ", "@) == items.take(1)[0]);
                }
            }
            assert(r@ =~= prefix + joined(items.take(i + 1), ", "@));
            i = i + 1;
        }
        assert(items.take(self.tried_profiles_ini@.len() as int) =~= items);
        r
    }
}

/// Where the search stands.
#[derive(Debug, Clone, Copy, PartialEq, Eq, Structural)]
pub enum DiscoveryPhase {
    /// Waiting for the contents of the current root's `profiles.ini`.
    ReadingIni,
    /// Waiting to learn whether the current candidate is a directory.
    CheckingDirectory,
    /// The search has ended.
    Finished,
}

/// An answer the application gives to the search's last question.
pub enum DiscoveryEvent {
    /// The contents of the `profiles.ini` asked for, or `None` when it could not be read.
    ProfilesIni(Option<String>),
    /// Whether the path asked for is a directory.
    IsDirectory(bool),
}

/// What the search asks of the application, or how it ended.
pub enum DiscoveryAction {
    /// Read this `profiles.ini` and answer with `DiscoveryEvent::ProfilesIni`.
    ReadProfilesIni(String),
    /// Check whether this path is a directory and answer with `DiscoveryEvent::IsDirectory`.
    CheckDirectory(String),
    /// The profile directory to use.
    Found(String),
    /// No root yields a usable profile.
    NotFound(ProfileDiscoveryError),
}

/// The model of an answer.
pub enum EventModel {
    Ini(Option<Seq<char>>),
    Dir(bool),
}

/// The model of a question or outcome.
pub enum ActionModel {
    Read(Seq<char>),
    Check(Seq<char>),
    Found(Seq<char>),
    NotFound(Seq<Seq<char>>),
}

/// The model of a search in progress.
#[verifier::ext_equal]
pub struct DiscoveryModel {
    pub roots: Seq<Seq<char>>,
    pub root: int,
    pub candidates: Seq<Seq<char>>,
    pub candidate: int,
    pub phase: DiscoveryPhase,
    pub tried: Seq<Seq<char>>,
    pub found: Option<Seq<char>>,
}

impl View for DiscoveryEvent {
    type V = EventModel;

    open spec fn view(&self) -> EventModel {
        match self {
            DiscoveryEvent::ProfilesIni(Some(c)) => EventModel::Ini(Some(c@)),
            DiscoveryEvent::ProfilesIni(None) => EventModel::Ini(None),
            DiscoveryEvent::IsDirectory(b) => EventModel::Dir(*b),
        }
    }
}

impl View for DiscoveryAction {
    type V = ActionModel;

    open spec fn view(&self) -> ActionModel {
        match self {
            DiscoveryAction::ReadProfilesIni(p) => ActionModel::Read(p@),
            DiscoveryAction::CheckDirectory(p) => ActionModel::Check(p@),
            DiscoveryAction::Found(p) => ActionModel::Found(p@),
            DiscoveryAction::NotFound(e) => ActionModel::NotFound(e.tried()),
        }
    }
}

/// The `profiles.ini` of a root.
pub open spec fn ini_path(root: Seq<char>) -> Seq<char> {
    join(root, "profiles.ini"@)
}

/// The search at its first question.
pub open spec fn start_model(home: Seq<char>, command: Seq<char>) -> DiscoveryModel {
    let roots = profile_roots_for_command(home, command);
    DiscoveryModel {
        roots,
        root: 0,
        candidates: Seq::empty(),
        candidate: 0,
        phase: DiscoveryPhase::ReadingIni,
        tried: seq![ini_path(roots[0])],
        found: None,
    }
}

/// Moves on to the next root, or ends when none is left.
pub open spec fn advance(m: DiscoveryModel) -> DiscoveryModel {
    if m.root + 1 < m.roots.len() {
        DiscoveryModel {
            root: m.root + 1,
            candidates: Seq::empty(),
            candidate: 0,
            phase: DiscoveryPhase::ReadingIni,
            tried: m.tried.push(ini_path(m.roots[m.root + 1])),
            found: None,
            ..m
        }
    } else {
        DiscoveryModel { phase: DiscoveryPhase::Finished, found: None, ..m }
    }
}

/// The search after an answer. An answer to a question that was not asked
/// changes nothing.
pub open spec fn next_model(m: DiscoveryModel, e: EventModel) -> DiscoveryModel {
    match m.phase {
        DiscoveryPhase::ReadingIni => match e {
            EventModel::Ini(None) => advance(m),
            EventModel::Ini(Some(c)) => {
                let cs = ini_candidates(c, m.roots[m.root]);
                if cs.len() > 0 {
                    DiscoveryModel {
                        candidates: cs,
                        candidate: 0,
                        phase: DiscoveryPhase::CheckingDirectory,
                        ..m
                    }
                } else {
                    advance(m)
                }
            },
            EventModel::Dir(_) => m,
        },
        DiscoveryPhase::CheckingDirectory => match e {
            EventModel::Dir(true) => DiscoveryModel {
                phase: DiscoveryPhase::Finished,
                found: Some(m.candidates[m.candidate]),
                ..m
            },
            EventModel::Dir(false) => if m.candidate + 1 < m.candidates.len() {
                DiscoveryModel { candidate: m.candidate + 1, ..m }
            } else {
                advance(m)
            },
            EventModel::Ini(_) => m,
        },
        DiscoveryPhase::Finished => m,
    }
}

/// The question the search asks, or its outcome.
pub open spec fn pending(m: DiscoveryModel) -> ActionModel {
    match m.phase {
        DiscoveryPhase::ReadingIni => ActionModel::Read(ini_path(m.roots[m.root])),
        DiscoveryPhase::CheckingDirectory => ActionModel::Check(m.candidates[m.candidate]),
        DiscoveryPhase::Finished => match m.found {
            Some(p) => ActionModel::Found(p),
            None => ActionModel::NotFound(m.tried),
        },
    }
}

/// A profile search driven by the application's answers.
pub struct ProfileDiscovery {
    roots: Vec<String>,
    root: usize,
    candidates: Vec<String>,
    candidate: usize,
    phase: DiscoveryPhase,
    tried: Vec<String>,
    found: Option<String>,
}

impl View for ProfileDiscovery {
    type V = DiscoveryModel;

    closed spec fn view(&self) -> DiscoveryModel {
        DiscoveryModel {
            roots: texts(self.roots@),
            root: self.root as int,
            candidates: texts(self.candidates@),
            candidate: self.candidate as int,
            phase: self.phase,
            tried: texts(self.tried@),
            found: match self.found {
                Some(p) => Some(p@),
                None => None,
            },
        }
    }
}

impl ProfileDiscovery {
    #[verifier::type_invariant]
    closed spec fn well_formed(self) -> bool {
        &&& self.root < self.roots@.len()
        &&& self.phase == DiscoveryPhase::CheckingDirectory ==> self.candidate
            < self.candidates@.len()
    }

    fn ini_path_of(&self, i: usize) -> (r: String)
        requires
            i < self.roots@.len(),
        ensures
            r@ == ini_path(self@.roots[i as int]),
    {
        join_path(self.roots[i].as_str(), "profiles.ini")
    }

    /// Begins a search below `home` for a Thunderbird launched by `command`.
    pub fn start(home: &str, command: &str) -> (r: (ProfileDiscovery, DiscoveryAction))
        ensures
            r.0@ == start_model(home@, command@),
            r.1@ == pending(r.0@),
    {
        let roots = candidate_profile_roots_for_command(home, command);
        assert(roots@.len() == texts(roots@).len());
        let first = join_path(roots[0].as_str(), "profiles.ini");
        let mut tried: Vec<String> = Vec::new();
        tried.push(String::from_str(first.as_str()));
        let d = ProfileDiscovery {
            roots,
            root: 0,
            candidates: Vec::new(),
            candidate: 0,
            phase: DiscoveryPhase::ReadingIni,
            tried,
            found: None,
        };
        assert(d@.tried =~= seq![ini_path(d@.roots[0])]);
        assert(d@.candidates =~= Seq::<Seq<char>>::empty());
        (d, DiscoveryAction::ReadProfilesIni(first))
    }

    /// The current question, or the outcome once the search has ended.
    pub fn action(&self) -> (r: DiscoveryAction)
        ensures
            r@ == pending(self@),
    {
        proof {
            use_type_invariant(self);
        }
        match self.phase {
            DiscoveryPhase::ReadingIni => DiscoveryAction::ReadProfilesIni(self.ini_path_of(self.root)),
            DiscoveryPhase::CheckingDirectory => DiscoveryAction::CheckDirectory(
                String::from_str(self.candidates[self.candidate].as_str()),
            ),
            DiscoveryPhase::Finished => match &self.found {
                Some(p) => DiscoveryAction::Found(String::from_str(p.as_str())),
                None => {
                    let mut tried: Vec<String> = Vec::new();
                    let mut i: usize = 0;
                    while i < self.tried.len()
                        invariant
                            i <= self.tried@.len(),
                            texts(tried@) == texts(self.tried@).take(i as int),
                        decreases self.tried@.len() - i,
                    {
                        let ghost before = tried@;
                        tried.push(String::from_str(self.tried[i].as_str()));
                        assert(texts(tried@) =~= texts(before).push(self.tried@[i as int]@));
                        assert(texts(tried@) =~= texts(self.tried@).take(i + 1));
                        i = i + 1;
                    }
                    assert(texts(self.tried@).take(self.tried@.len() as int) =~= texts(self.tried@));
                    DiscoveryAction::NotFound(ProfileDiscoveryError { tried_profiles_ini: tried })
                },
            },
        }
    }

    /// The search after moving on from the current root.
    fn advanced(self) -> (r: ProfileDiscovery)
        ensures
            r@ == advance(self@),
    {
        proof {
            use_type_invariant(&self);
        }
        let ghost m = self@;
        assert(m.roots.len() == self.roots@.len());
        if self.root < self.roots.len() - 1 {
            let next_ini = self.ini_path_of(self.root + 1);
            let ghost old_tried = texts(self.tried@);
            let mut tried = self.tried;
            tried.push(next_ini);
            assert(texts(tried@) =~= old_tried.push(ini_path(self@.roots[self.root + 1])));
            let r = ProfileDiscovery {
                roots: self.roots,
                root: self.root + 1,
                candidates: Vec::new(),
                candidate: 0,
                phase: DiscoveryPhase::ReadingIni,
                tried,
                found: None,
            };
            assert(r@.candidates =~= Seq::<Seq<char>>::empty());
            r
        } else {
            ProfileDiscovery {
                roots: self.roots,
                root: self.root,
                candidates: self.candidates,
                candidate: self.candidate,
                phase: DiscoveryPhase::Finished,
                tried: self.tried,
                found: None,
            }
        }
    }

    /// Takes the application's answer and returns the next question or the outcome.
    pub fn step(self, event: DiscoveryEvent) -> (r: (ProfileDiscovery, DiscoveryAction))
        ensures
            r.0@ == next_model(self@, event@),
            r.1@ == pending(r.0@),
    {
        proof {
            use_type_invariant(&self);
        }
        let next = match self.phase {
            DiscoveryPhase::ReadingIni => match event {
                DiscoveryEvent::ProfilesIni(None) => self.advanced(),
                DiscoveryEvent::ProfilesIni(Some(contents)) => {
                    let cs = profile_candidates_from_ini(
                        contents.as_str(),
                        self.roots[self.root].as_str(),
                    );
                    assert(cs@.len() == texts(cs@).len());
                    if cs.len() > 0 {
                        ProfileDiscovery {
                            roots: self.roots,
                            root: self.root,
                            candidates: cs,
                            candidate: 0,
                            phase: DiscoveryPhase::CheckingDirectory,
                            tried: self.tried,
                            found: self.found,
                        }
                    } else {
                        self.advanced()
                    }
                },
                DiscoveryEvent::IsDirectory(_) => self,
            },
            DiscoveryPhase::CheckingDirectory => match event {
                DiscoveryEvent::IsDirectory(true) => {
                    let found = String::from_str(self.candidates[self.candidate].as_str());
                    ProfileDiscovery {
                        roots: self.roots,
                        root: self.root,
                        candidates: self.candidates,
                        candidate: self.candidate,
                        phase: DiscoveryPhase::Finished,
                        tried: self.tried,
                        found: Some(found),
                    }
                },
                DiscoveryEvent::IsDirectory(false) => {
                    if self.candidate < self.candidates.len() - 1 {
                        ProfileDiscovery {
                            roots: self.roots,
                            root: self.root,
                            candidates: self.candidates,
                            candidate: self.candidate + 1,
                            phase: DiscoveryPhase::CheckingDirectory,
                            tried: self.tried,
                            found: self.found,
                        }
                    } else {
                        self.advanced()
                    }
                },
                DiscoveryEvent::ProfilesIni(_) => self,
            },
            DiscoveryPhase::Finished => self,
        };
        let action = next.action();
        (next, action)
    }
}


// ---------------------------------------------------------------------------
// A search answered by the caller
// ---------------------------------------------------------------------------

/// The search after a sequence of answers.
pub open spec fn after_answers(m: DiscoveryModel, events: Seq<EventModel>) -> DiscoveryModel
    decreases events.len(),
{
    if events.len() == 0 {
        m
    } else {
        next_model(after_answers(m, events.drop_last()), events.last())
    }
}

/// `e` is an answer `read_ini` or `is_dir` gave to the question `q`.
pub open spec fn answers<R: Fn(&String) -> Option<String>, D: Fn(&String) -> bool>(
    q: ActionModel,
    e: EventModel,
    read_ini: R,
    is_dir: D,
) -> bool {
    match q {
        ActionModel::Read(p) => exists|path: String, contents: Option<String>|
            #![trigger call_ensures(read_ini, (&path,), contents)]
            path@ == p && call_ensures(read_ini, (&path,), contents) && e == EventModel::Ini(
                match contents {
                    Some(c) => Some(c@),
                    None => None,
                },
            ),
        ActionModel::Check(p) => exists|path: String, b: bool|
            #![trigger call_ensures(is_dir, (&path,), b)]
            path@ == p && call_ensures(is_dir, (&path,), b) && e == EventModel::Dir(b),
        _ => false,
    }
}

/// Every answer in `events` was given by `read_ini` or `is_dir` to the question
/// the search asked at that point.
pub open spec fn answered_by<R: Fn(&String) -> Option<String>, D: Fn(&String) -> bool>(
    m: DiscoveryModel,
    events: Seq<EventModel>,
    read_ini: R,
    is_dir: D,
) -> bool {
    forall|i: int|
        0 <= i < events.len() ==> answers(
            pending(#[trigger] after_answers(m, events.take(i))),
            events[i],
            read_ini,
            is_dir,
        )
}

/// The outcome a search result stands for.
pub open spec fn outcome(r: Result<String, ProfileDiscoveryError>) -> ActionModel {
    match r {
        Ok(p) => ActionModel::Found(p@),
        Err(e) => ActionModel::NotFound(e.tried()),
    }
}

/// How far a search is from its end, in the order of its stages.
pub open spec fn phase_rank(p: DiscoveryPhase) -> int {
    match p {
        DiscoveryPhase::ReadingIni => 2,
        DiscoveryPhase::CheckingDirectory => 1,
        DiscoveryPhase::Finished => 0,
    }
}

/// Finds a usable Thunderbird profile below `home` for a Thunderbird launched by
/// `command`, reading `profiles.ini` files with `read_ini` (`None` when one cannot
/// be read) and checking directories with `is_dir`. A profile is only returned
/// when its selected directory exists.
///
/// The result is the outcome of the search (`start_model`, `next_model`) given
/// the answers the two functions returned to its questions.
pub fn detect_thunderbird_profile_from_home_for_command<R, D>(
    home: &str,
    command: &str,
    read_ini: R,
    is_dir: D,
) -> (r: Result<String, ProfileDiscoveryError>) where
    R: Fn(&String) -> Option<String>,
    D: Fn(&String) -> bool,

    requires
        forall|p: &String| #[trigger] call_requires(read_ini, (p,)),
        forall|p: &String| #[trigger] call_requires(is_dir, (p,)),
    ensures
        exists|events: Seq<EventModel>|
            #![trigger after_answers(start_model(home@, command@), events)]
            {
                let end = after_answers(start_model(home@, command@), events);
                &&& answered_by(start_model(home@, command@), events, read_ini, is_dir)
                &&& end.phase == DiscoveryPhase::Finished
                &&& pending(end) == outcome(r)
            },
{
    let (mut search, mut action) = ProfileDiscovery::start(home, command);
    let ghost m0 = start_model(home@, command@);
    let ghost mut events: Seq<EventModel> = Seq::empty();
    proof {
        use_type_invariant(&search);
    }
    loop
        invariant
            m0 == start_model(home@, command@),
            search@ == after_answers(m0, events),
            action@ == pending(search@),
            answered_by(m0, events, read_ini, is_dir),
            search@.root < search@.roots.len(),
            search@.phase == DiscoveryPhase::CheckingDirectory ==> search@.candidate
                < search@.candidates.len(),
            forall|p: &String| #[trigger] call_requires(read_ini, (p,)),
            forall|p: &String| #[trigger] call_requires(is_dir, (p,)),
        decreases
            search@.roots.len() - search@.root,
            phase_rank(search@.phase),
            search@.candidates.len() - search@.candidate,
    {
        let ghost before = search@;
        let event = match action {
            DiscoveryAction::ReadProfilesIni(path) => {
                let contents = read_ini(&path);
                assert(answers(
                    pending(before),
                    EventModel::Ini(
                        match contents {
                            Some(c) => Some(c@),
                            None => None,
                        },
                    ),
                    read_ini,
                    is_dir,
                ));
                DiscoveryEvent::ProfilesIni(contents)
            },
            DiscoveryAction::CheckDirectory(path) => {
                let b = is_dir(&path);
                assert(answers(pending(before), EventModel::Dir(b), read_ini, is_dir));
                DiscoveryEvent::IsDirectory(b)
            },
            DiscoveryAction::Found(path) => {
                assert(after_answers(m0, events).phase == DiscoveryPhase::Finished);
                assert(pending(after_answers(m0, events)) == outcome(Ok(path)));
                return Ok(path);
            },
            DiscoveryAction::NotFound(e) => {
                assert(after_answers(m0, events).phase == DiscoveryPhase::Finished);
                assert(pending(after_answers(m0, events)) == outcome(Err(e)));
                return Err(e);
            },
        };
        proof {
            let old_events = events;
            events = events.push(event@);
            assert(events.drop_last() =~= old_events);
            assert(events.take(old_events.len() as int) =~= old_events);
            assert forall|i: int| 0 <= i < events.len() implies answers(
                pending(#[trigger] after_answers(m0, events.take(i))),
                events[i],
                read_ini,
                is_dir,
            ) by {
                if i < old_events.len() {
                    assert(events.take(i) =~= old_events.take(i));
                    assert(answers(
                        pending(after_answers(m0, old_events.take(i))),
                        old_events[i],
                        read_ini,
                        is_dir,
                    ));
                }
            }
        }
        let (next, next_action) = search.step(event);
        search = next;
        action = next_action;
        proof {
            use_type_invariant(&search);
        }
    }
}

/// Finds a usable Thunderbird profile below `home` for the default launch command
/// `thunderbird`.
pub fn detect_thunderbird_profile_from_home<R, D>(home: &str, read_ini: R, is_dir: D) -> (r: Result<
    String,
    ProfileDiscoveryError,
>) where R: Fn(&String) -> Option<String>, D: Fn(&String) -> bool
    requires
        forall|p: &String| #[trigger] call_requires(read_ini, (p,)),
        forall|p: &String| #[trigger] call_requires(is_dir, (p,)),
    ensures
        exists|events: Seq<EventModel>|
            #![trigger after_answers(start_model(home@, "thunderbird"@), events)]
            {
                let end = after_answers(start_model(home@, "thunderbird"@), events);
                &&& answered_by(start_model(home@, "thunderbird"@), events, read_ini, is_dir)
                &&& end.phase == DiscoveryPhase::Finished
                &&& pending(end) == outcome(r)
            },
{
    detect_thunderbird_profile_from_home_for_command(home, "thunderbird", read_ini, is_dir)
}


// ---------------------------------------------------------------------------
// What a whole search finds
// ---------------------------------------------------------------------------

/// The first of `cs[j..]` that is a directory.
pub open spec fn first_dir(cs: Seq<Seq<char>>, j: int, dir: spec_fn(Seq<char>) -> bool) -> Option<
    Seq<char>,
>
    decreases cs.len() - j,
{
    if j < 0 || j >= cs.len() {
        None
    } else if dir(cs[j]) {
        Some(cs[j])
    } else {
        first_dir(cs, j + 1, dir)
    }
}

/// The profile found from root `i` on: the roots are tried in order; a root whose
/// `profiles.ini` can be read yields its first candidate that is a directory.
pub open spec fn search_from(
    roots: Seq<Seq<char>>,
    i: int,
    ini: spec_fn(Seq<char>) -> Option<Seq<char>>,
    dir: spec_fn(Seq<char>) -> bool,
) -> Option<Seq<char>>
    decreases roots.len() - i,
{
    if i < 0 || i >= roots.len() {
        None
    } else {
        match ini(ini_path(roots[i])) {
            None => search_from(roots, i + 1, ini, dir),
            Some(c) => match first_dir(ini_candidates(c, roots[i]), 0, dir) {
                Some(p) => Some(p),
                None => search_from(roots, i + 1, ini, dir),
            },
        }
    }
}

/// How many answers a search needs from root `i` on.
pub open spec fn steps_from(
    roots: Seq<Seq<char>>,
    i: int,
    ini: spec_fn(Seq<char>) -> Option<Seq<char>>,
) -> nat
    decreases roots.len() - i,
{
    if i < 0 || i >= roots.len() {
        0
    } else {
        1 + match ini(ini_path(roots[i])) {
            Some(c) => ini_candidates(c, roots[i]).len(),
            None => 0,
        } + steps_from(roots, i + 1, ini)
    }
}

/// The answer a file system gives to the search's current question.
pub open spec fn answer(
    m: DiscoveryModel,
    ini: spec_fn(Seq<char>) -> Option<Seq<char>>,
    dir: spec_fn(Seq<char>) -> bool,
) -> EventModel {
    match m.phase {
        DiscoveryPhase::ReadingIni => EventModel::Ini(ini(ini_path(m.roots[m.root]))),
        DiscoveryPhase::CheckingDirectory => EventModel::Dir(dir(m.candidates[m.candidate])),
        DiscoveryPhase::Finished => EventModel::Dir(false),
    }
}

/// The search after at most `fuel` answers from a file system.
pub open spec fn run(
    m: DiscoveryModel,
    ini: spec_fn(Seq<char>) -> Option<Seq<char>>,
    dir: spec_fn(Seq<char>) -> bool,
    fuel: nat,
) -> DiscoveryModel
    decreases fuel,
{
    if fuel == 0 || m.phase == DiscoveryPhase::Finished {
        m
    } else {
        run(next_model(m, answer(m, ini, dir)), ini, dir, (fuel - 1) as nat)
    }
}

/// The `profiles.ini` paths of the first `n` roots.
pub open spec fn ini_paths(roots: Seq<Seq<char>>, n: int) -> Seq<Seq<char>> {
    roots.take(n).map_values(|r: Seq<char>| ini_path(r))
}

proof fn lemma_run_reading(
    m: DiscoveryModel,
    ini: spec_fn(Seq<char>) -> Option<Seq<char>>,
    dir: spec_fn(Seq<char>) -> bool,
    fuel: nat,
)
    requires
        m.phase == DiscoveryPhase::ReadingIni,
        0 <= m.root < m.roots.len(),
        m.tried == ini_paths(m.roots, m.root + 1),
        fuel >= steps_from(m.roots, m.root, ini),
    ensures
        run(m, ini, dir, fuel).phase == DiscoveryPhase::Finished,
        run(m, ini, dir, fuel).found == search_from(m.roots, m.root, ini, dir),
        run(m, ini, dir, fuel).found is None ==> run(m, ini, dir, fuel).tried == ini_paths(
            m.roots,
            m.roots.len() as int,
        ),
    decreases m.roots.len() - m.root, 1int, 0int,
{
    let i = m.root;
    let e = answer(m, ini, dir);
    let n = next_model(m, e);
    assert(run(m, ini, dir, fuel) == run(n, ini, dir, (fuel - 1) as nat));
    match ini(ini_path(m.roots[i])) {
        None => {
            lemma_run_advance(m, ini, dir, (fuel - 1) as nat);
        },
        Some(c) => {
            let cs = ini_candidates(c, m.roots[i]);
            if cs.len() > 0 {
                lemma_run_checking(n, c, ini, dir, (fuel - 1) as nat);
            } else {
                lemma_run_advance(m, ini, dir, (fuel - 1) as nat);
            }
        },
    }
}

proof fn lemma_run_advance(
    m: DiscoveryModel,
    ini: spec_fn(Seq<char>) -> Option<Seq<char>>,
    dir: spec_fn(Seq<char>) -> bool,
    fuel: nat,
)
    requires
        0 <= m.root < m.roots.len(),
        m.tried == ini_paths(m.roots, m.root + 1),
        fuel >= steps_from(m.roots, m.root + 1, ini),
    ensures
        run(advance(m), ini, dir, fuel).phase == DiscoveryPhase::Finished,
        run(advance(m), ini, dir, fuel).found == search_from(m.roots, m.root + 1, ini, dir),
        run(advance(m), ini, dir, fuel).found is None ==> run(advance(m), ini, dir, fuel).tried
            == ini_paths(m.roots, m.roots.len() as int),
    decreases m.roots.len() - m.root, 0int, 0int,
{
    let a = advance(m);
    if m.root + 1 < m.roots.len() {
        assert(a.tried =~= ini_paths(m.roots, m.root + 2)) by {
            assert(m.roots.take(m.root + 2) =~= m.roots.take(m.root + 1).push(m.roots[m.root + 1]));
        }
        lemma_run_reading(a, ini, dir, fuel);
    } else {
        assert(run(a, ini, dir, fuel) == a);
    }
}

proof fn lemma_run_checking(
    m: DiscoveryModel,
    c: Seq<char>,
    ini: spec_fn(Seq<char>) -> Option<Seq<char>>,
    dir: spec_fn(Seq<char>) -> bool,
    fuel: nat,
)
    requires
        m.phase == DiscoveryPhase::CheckingDirectory,
        0 <= m.root < m.roots.len(),
        ini(ini_path(m.roots[m.root])) == Some(c),
        m.candidates == ini_candidates(c, m.roots[m.root]),
        0 <= m.candidate < m.candidates.len(),
        m.tried == ini_paths(m.roots, m.root + 1),
        fuel >= (m.candidates.len() - m.candidate) + steps_from(m.roots, m.root + 1, ini),
    ensures
        run(m, ini, dir, fuel).phase == DiscoveryPhase::Finished,
        run(m, ini, dir, fuel).found == match first_dir(m.candidates, m.candidate, dir) {
            Some(p) => Some(p),
            None => search_from(m.roots, m.root + 1, ini, dir),
        },
        run(m, ini, dir, fuel).found is None ==> run(m, ini, dir, fuel).tried == ini_paths(
            m.roots,
            m.roots.len() as int,
        ),
    decreases m.roots.len() - m.root, 0int, m.candidates.len() - m.candidate,
{
    let n = next_model(m, answer(m, ini, dir));
    assert(run(m, ini, dir, fuel) == run(n, ini, dir, (fuel - 1) as nat));
    if dir(m.candidates[m.candidate]) {
        assert(run(n, ini, dir, (fuel - 1) as nat) == n);
    } else if m.candidate + 1 < m.candidates.len() {
        assert(first_dir(m.candidates, m.candidate, dir) == first_dir(
            m.candidates,
            m.candidate + 1,
            dir,
        ));
        lemma_run_checking(n, c, ini, dir, (fuel - 1) as nat);
    } else {
        assert(first_dir(m.candidates, m.candidate, dir) == first_dir(
            m.candidates,
            m.candidate + 1,
            dir,
        ));
        assert(first_dir(m.candidates, m.candidate + 1, dir) is None);
        lemma_run_advance(m, ini, dir, (fuel - 1) as nat);
    }
}

/// Law of discovery: answered by a file system (`ini` gives the readable
/// `profiles.ini` files, `dir` the directories), a search ends having found
/// exactly the profile `search_from` describes: roots are tried in priority order
/// for the command, and the first candidate of the first usable root that is a
/// directory is chosen. When nothing is found, the error lists the `profiles.ini`
/// of every root.
pub proof fn discovery_finds_first_usable_profile(
    home: Seq<char>,
    command: Seq<char>,
    ini: spec_fn(Seq<char>) -> Option<Seq<char>>,
    dir: spec_fn(Seq<char>) -> bool,
)
    ensures
        ({
            let m0 = start_model(home, command);
            let end = run(m0, ini, dir, steps_from(m0.roots, 0, ini));
            &&& end.phase == DiscoveryPhase::Finished
            &&& end.found == search_from(m0.roots, 0, ini, dir)
            &&& end.found is None ==> end.tried == ini_paths(m0.roots, 5)
        }),
{
    let m0 = start_model(home, command);
    assert(m0.roots.len() == 5);
    assert(m0.tried =~= ini_paths(m0.roots, 1));
    lemma_run_reading(m0, ini, dir, steps_from(m0.roots, 0, ini));
}


/// One step of a search answered by a file system; an ended search stays as it is.
pub open spec fn answered_step(
    m: DiscoveryModel,
    ini: spec_fn(Seq<char>) -> Option<Seq<char>>,
    dir: spec_fn(Seq<char>) -> bool,
) -> DiscoveryModel {
    if m.phase == DiscoveryPhase::Finished {
        m
    } else {
        next_model(m, answer(m, ini, dir))
    }
}

proof fn lemma_run_succ(
    m: DiscoveryModel,
    ini: spec_fn(Seq<char>) -> Option<Seq<char>>,
    dir: spec_fn(Seq<char>) -> bool,
    n: nat,
)
    ensures
        run(m, ini, dir, n + 1) == answered_step(run(m, ini, dir, n), ini, dir),
    decreases n,
{
    if m.phase != DiscoveryPhase::Finished {
        let next = next_model(m, answer(m, ini, dir));
        assert(run(m, ini, dir, n + 1) == run(next, ini, dir, n));
        if n > 0 {
            lemma_run_succ(next, ini, dir, (n - 1) as nat);
            assert(run(m, ini, dir, n) == run(next, ini, dir, (n - 1) as nat));
        } else {
            assert(run(next, ini, dir, 0) == next);
        }
    }
}

proof fn lemma_run_finished_stable(
    m: DiscoveryModel,
    ini: spec_fn(Seq<char>) -> Option<Seq<char>>,
    dir: spec_fn(Seq<char>) -> bool,
    a: nat,
    b: nat,
)
    requires
        run(m, ini, dir, a).phase == DiscoveryPhase::Finished,
        a <= b,
    ensures
        run(m, ini, dir, b) == run(m, ini, dir, a),
    decreases a,
{
    if a > 0 && m.phase != DiscoveryPhase::Finished {
        lemma_run_finished_stable(
            next_model(m, answer(m, ini, dir)),
            ini,
            dir,
            (a - 1) as nat,
            (b - 1) as nat,
        );
    }
}

proof fn lemma_answers_follow_run(
    m: DiscoveryModel,
    events: Seq<EventModel>,
    ini: spec_fn(Seq<char>) -> Option<Seq<char>>,
    dir: spec_fn(Seq<char>) -> bool,
)
    requires
        forall|i: int|
            0 <= i < events.len() ==> events[i] == answer(
                #[trigger] after_answers(m, events.take(i)),
                ini,
                dir,
            ) && after_answers(m, events.take(i)).phase != DiscoveryPhase::Finished,
    ensures
        after_answers(m, events) == run(m, ini, dir, events.len()),
    decreases events.len(),
{
    if events.len() > 0 {
        let n = (events.len() - 1) as nat;
        let prefix = events.drop_last();
        assert forall|i: int| 0 <= i < prefix.len() implies prefix[i] == answer(
            #[trigger] after_answers(m, prefix.take(i)),
            ini,
            dir,
        ) && after_answers(m, prefix.take(i)).phase != DiscoveryPhase::Finished by {
            assert(prefix.take(i) =~= events.take(i));
        }
        lemma_answers_follow_run(m, prefix, ini, dir);
        assert(events.take(n as int) =~= prefix);
        lemma_run_succ(m, ini, dir, n);
    }
}

/// Law of discovery with the caller's file system: when `read_ini` and `is_dir`
/// answer as the file system `ini`, `dir` does (the same path always gets the
/// same answer), a search that has ended on their answers has found exactly the
/// profile `search_from` describes, and when it found none its error lists the
/// `profiles.ini` of every root.
pub proof fn detection_follows_the_file_system<R: Fn(&String) -> Option<String>, D: Fn(
    &String,
) -> bool>(
    home: Seq<char>,
    command: Seq<char>,
    events: Seq<EventModel>,
    read_ini: R,
    is_dir: D,
    ini: spec_fn(Seq<char>) -> Option<Seq<char>>,
    dir: spec_fn(Seq<char>) -> bool,
)
    requires
        answered_by(start_model(home, command), events, read_ini, is_dir),
        after_answers(start_model(home, command), events).phase == DiscoveryPhase::Finished,
        forall|path: String, c: Option<String>|
            #[trigger] call_ensures(read_ini, (&path,), c) ==> ini(path@) == match c {
                Some(t) => Some(t@),
                None => None,
            },
        forall|path: String, b: bool| #[trigger] call_ensures(is_dir, (&path,), b) ==> dir(path@) == b,
    ensures
        ({
            let m0 = start_model(home, command);
            let end = after_answers(m0, events);
            &&& end.found == search_from(m0.roots, 0, ini, dir)
            &&& end.found is None ==> end.tried == ini_paths(m0.roots, 5)
        }),
{
    let m0 = start_model(home, command);
    assert forall|i: int| 0 <= i < events.len() implies events[i] == answer(
        #[trigger] after_answers(m0, events.take(i)),
        ini,
        dir,
    ) && after_answers(m0, events.take(i)).phase != DiscoveryPhase::Finished by {
        let x = after_answers(m0, events.take(i));
        assert(answers(pending(x), events[i], read_ini, is_dir));
    }
    lemma_answers_follow_run(m0, events, ini, dir);
    discovery_finds_first_usable_profile(home, command, ini, dir);
    let steps = steps_from(m0.roots, 0, ini);
    let n = events.len();
    if n <= steps {
        lemma_run_finished_stable(m0, ini, dir, n, steps);
    } else {
        lemma_run_finished_stable(m0, ini, dir, steps, n);
    }
}

/// No path in `c` names the same path as an earlier one.
pub open spec fn no_repeats(c: Seq<Seq<char>>) -> bool {
    forall|i: int, j: int| 0 <= i < j < c.len() ==> !path_eq(#[trigger] c[i], #[trigger] c[j])
}

proof fn lemma_push_unique_no_repeats(c: Seq<Seq<char>>, x: Seq<char>)
    requires
        no_repeats(c),
    ensures
        no_repeats(push_unique(c, x)),
{
    if !(exists|i: int| 0 <= i < c.len() && path_eq(#[trigger] c[i], x)) {
        let d = c.push(x);
        assert forall|i: int, j: int| 0 <= i < j < d.len() implies !path_eq(
            #[trigger] d[i],
            #[trigger] d[j],
        ) by {
            if j == c.len() {
                assert(d[j] == x);
                assert(d[i] == c[i]);
            } else {
                assert(d[i] == c[i] && d[j] == c[j]);
            }
        }
    }
}

proof fn lemma_install_defaults_no_repeats(c: Seq<Seq<char>>, root: Seq<char>, ds: Seq<Seq<char>>)
    requires
        no_repeats(c),
    ensures
        no_repeats(add_install_defaults(c, root, ds)),
    decreases ds.len(),
{
    if ds.len() > 0 {
        lemma_install_defaults_no_repeats(c, root, ds.drop_last());
        lemma_push_unique_no_repeats(
            add_install_defaults(c, root, ds.drop_last()),
            resolve(root, ds.last(), true),
        );
    }
}

proof fn lemma_default_profiles_no_repeats(c: Seq<Seq<char>>, root: Seq<char>, ps: Seq<ProfileModel>)
    requires
        no_repeats(c),
    ensures
        no_repeats(add_default_profiles(c, root, ps)),
    decreases ps.len(),
{
    if ps.len() > 0 {
        lemma_default_profiles_no_repeats(c, root, ps.drop_last());
        let before = add_default_profiles(c, root, ps.drop_last());
        if ps.last().is_default && ps.last().path is Some {
            lemma_push_unique_no_repeats(before, profile_path(root, ps.last()));
        }
    }
}

/// Law of `profiles.ini` reading: a path is offered at most once (no candidate
/// names the same path as an earlier one).
pub proof fn ini_candidates_are_distinct(contents: Seq<char>, root: Seq<char>)
    ensures
        no_repeats(ini_candidates(contents, root)),
{
    let st = finish_model(ini_scan(lines(contents)));
    lemma_install_defaults_no_repeats(Seq::empty(), root, st.install_defaults);
    let c1 = add_install_defaults(Seq::empty(), root, st.install_defaults);
    lemma_default_profiles_no_repeats(c1, root, st.profiles);
    let c2 = add_default_profiles(c1, root, st.profiles);
    let i = first_with_path(st.profiles);
    if i >= 0 {
        lemma_push_unique_no_repeats(c2, profile_path(root, st.profiles[i]));
    }
}

} // verus!
