//! What is known of a package, from pacman or from the AUR.
use vstd::prelude::*;

use crate::aur::rpc::{RpcPackage, dependency_views};
use crate::dependency::{Dependency, DependencyKind, normalized_name};
use crate::error::{is_not_found, kind_is_not_found};
use crate::text::{
    find_char, lines, lines_of, split_once, split_whitespace, str_eq, trim, trim_chars, words_of,
};

verus! {

/// Where a package comes from.
#[derive(Debug, Clone, Copy, PartialEq, Eq, Structural)]
pub enum PackageSource {
    Installed,
    Repo,
    Aur,
}

/// Why asking pacman failed.
#[derive(Debug)]
pub enum PacmanError {
    /// pacman is not installed.
    Missing,
    /// pacman could not be run.
    Pacman(std::io::Error),
    /// The package is not in the official repositories.
    NotFound(String),
    /// pacman failed to list the installed packages.
    Query,
    /// pacman printed something that is not UTF-8.
    Encoding(std::string::FromUtf8Error),
    /// vercmp could not be run.
    VersionCompare(std::io::Error),
    /// vercmp printed something unexpected.
    InvalidVersionCompare,
    /// No package provides the name.
    ProviderNotFound(String),
    /// pacman printed something that is not UTF-8 while looking for a
    /// provider of the name.
    InvalidUtf8(String),
}

impl PacmanError {
    /// The error for a pacman process that could not be started: `Missing`
    /// when the system reported that pacman does not exist.
    pub fn from_spawn_failure(missing: bool, error: std::io::Error) -> (e: Self)
        ensures
            missing ==> e is Missing,
            !missing ==> e == PacmanError::Pacman(error),
    {
        if missing {
            PacmanError::Missing
        } else {
            PacmanError::Pacman(error)
        }
    }

    /// The error for a pacman process that could not be started.
    pub fn spawn(error: std::io::Error) -> (e: Self)
        ensures
            kind_is_not_found(error) ==> e is Missing,
            !kind_is_not_found(error) ==> e == PacmanError::Pacman(error),
    {
        let missing = is_not_found(&error);
        Self::from_spawn_failure(missing, error)
    }

    /// The error for a vercmp process that could not be run.
    pub fn version_compare(error: std::io::Error) -> (e: Self)
        ensures
            e == PacmanError::VersionCompare(error),
    {
        PacmanError::VersionCompare(error)
    }
}

/// What the AUR tells of a package.
#[derive(Debug)]
pub struct AurMeta {
    pub base: String,
    pub maintainer: Option<String>,
    pub submitter: Option<String>,
    pub description: Option<String>,
    pub url: Option<String>,
    pub votes: u32,
    /// The popularity score, as the bits of its IEEE 754 double.
    pub popularity_bits: u64,
    pub out_of_date: Option<i64>,
    pub last_modified: i64,
}

/// A copy of an optional string.
pub fn clone_text(s: &Option<String>) -> (r: Option<String>)
    ensures
        r == *s,
{
    match s {
        Some(t) => Some(t.clone()),
        None => None,
    }
}

/// A copy of a list of strings.
pub fn clone_texts(v: &Vec<String>) -> (r: Vec<String>)
    ensures
        r@ == v@,
{
    let mut r: Vec<String> = Vec::new();
    let mut i: usize = 0;
    while i < v.len()
        invariant
            i <= v.len(),
            r@ == v@.subrange(0, i as int),
        decreases v.len() - i,
    {
        r.push(v[i].clone());
        i = i + 1;
        assert(r@ =~= v@.subrange(0, i as int));
    }
    assert(v@.subrange(0, v.len() as int) =~= v@);
    r
}

/// A copy of a list of dependencies.
pub fn clone_dependencies(v: &Vec<Dependency>) -> (r: Vec<Dependency>)
    ensures
        r@ == v@,
{
    let mut r: Vec<Dependency> = Vec::new();
    let mut i: usize = 0;
    while i < v.len()
        invariant
            i <= v.len(),
            r@ == v@.subrange(0, i as int),
        decreases v.len() - i,
    {
        r.push(v[i].clone());
        i = i + 1;
        assert(r@ =~= v@.subrange(0, i as int));
    }
    assert(v@.subrange(0, v.len() as int) =~= v@);
    r
}

impl Clone for AurMeta {
    fn clone(&self) -> (m: Self)
        ensures
            m == *self,
    {
        AurMeta {
            base: self.base.clone(),
            maintainer: clone_text(&self.maintainer),
            submitter: clone_text(&self.submitter),
            description: clone_text(&self.description),
            url: clone_text(&self.url),
            votes: self.votes,
            popularity_bits: self.popularity_bits,
            out_of_date: self.out_of_date,
            last_modified: self.last_modified,
        }
    }
}

/// The AUR's details of a package, as its RPC interface reported them.
pub open spec fn aur_meta_of(info: RpcPackage) -> AurMeta {
    AurMeta {
        base: info.package_base,
        maintainer: info.maintainer,
        submitter: info.submitter,
        description: info.description,
        url: info.url,
        votes: info.votes,
        popularity_bits: info.popularity_bits,
        out_of_date: info.out_of_date,
        last_modified: info.last_modified,
    }
}

impl AurMeta {
    /// The AUR's details of a package, as its RPC interface reported them.
    pub fn from_rpc(info: &RpcPackage) -> (m: Self)
        ensures
            m == aur_meta_of(*info),
    {
        AurMeta {
            base: info.package_base.clone(),
            maintainer: clone_text(&info.maintainer),
            submitter: clone_text(&info.submitter),
            description: clone_text(&info.description),
            url: clone_text(&info.url),
            votes: info.votes,
            popularity_bits: info.popularity_bits,
            out_of_date: info.out_of_date,
            last_modified: info.last_modified,
        }
    }
}

/// A package of the install plan.
#[derive(Debug)]
pub struct PackageNode {
    pub name: String,
    pub version: Option<String>,
    pub source: PackageSource,
    pub dependencies: Vec<Dependency>,
    pub size: Option<u64>,
    pub download_size: Option<u64>,
    pub provides: Vec<String>,
    pub packager: Option<String>,
    pub aur: Option<AurMeta>,
}

/// Whether two nodes describe the same package alike: equal fields, lists
/// compared by their elements.
pub open spec fn same_node(a: PackageNode, b: PackageNode) -> bool {
    &&& a.name == b.name
    &&& a.version == b.version
    &&& a.source == b.source
    &&& a.dependencies@ == b.dependencies@
    &&& a.size == b.size
    &&& a.download_size == b.download_size
    &&& a.provides@ == b.provides@
    &&& a.packager == b.packager
    &&& a.aur == b.aur
}

impl Clone for PackageNode {
    fn clone(&self) -> (n: Self)
        ensures
            same_node(n, *self),
    {
        PackageNode {
            name: self.name.clone(),
            version: clone_text(&self.version),
            source: self.source,
            dependencies: clone_dependencies(&self.dependencies),
            size: self.size,
            download_size: self.download_size,
            provides: clone_texts(&self.provides),
            packager: clone_text(&self.packager),
            aur: match &self.aur {
                Some(m) => Some(m.clone()),
                None => None,
            },
        }
    }
}

/// Whether `n` is the package that the AUR described as `info`: its name,
/// version, relations and details, from the AUR, with no sizes or packager.
pub open spec fn rpc_node(n: PackageNode, info: RpcPackage) -> bool {
    &&& n.name == info.name
    &&& n.version == Some(info.version)
    &&& n.source == PackageSource::Aur
    &&& dependency_views(n.dependencies@) == info.dependency_list()
    &&& n.size is None
    &&& n.download_size is None
    &&& n.provides@ == info.provides@
    &&& n.packager is None
    &&& n.aur == Some(aur_meta_of(info))
}

impl PackageNode {
    /// The package that the AUR described.
    pub fn from_rpc(info: &RpcPackage) -> (n: Self)
        ensures
            rpc_node(n, *info),
    {
        PackageNode {
            name: info.name.clone(),
            version: Some(info.version.clone()),
            source: PackageSource::Aur,
            dependencies: info.dependencies(),
            size: None,
            download_size: None,
            provides: clone_texts(&info.provides),
            packager: None,
            aur: Some(AurMeta::from_rpc(info)),
        }
    }
}

/// The key and the value of a line of `key : value` output, both without
/// surrounding whitespace; none when the line holds no colon.
pub open spec fn field_entry(line: Seq<char>) -> Option<(Seq<char>, Seq<char>)> {
    match find_char(line, ':') {
        Some(k) => Some(
            (trim_chars(line.subrange(0, k)), trim_chars(line.subrange(k + 1, line.len() as int))),
        ),
        None => None,
    }
}

/// The value of the last line whose key is `key`, if any.
pub open spec fn last_value(lines: Seq<Seq<char>>, key: Seq<char>) -> Option<Seq<char>>
    decreases lines.len(),
{
    if lines.len() == 0 {
        None
    } else {
        match field_entry(lines.last()) {
            Some(e) => if e.0 == key {
                Some(e.1)
            } else {
                last_value(lines.drop_last(), key)
            },
            None => last_value(lines.drop_last(), key),
        }
    }
}

/// The characters of an optional string.
pub open spec fn opt_view(s: Option<String>) -> Option<Seq<char>> {
    match s {
        Some(t) => Some(t@),
        None => None,
    }
}

/// The characters of each string of a list.
pub open spec fn string_views(v: Seq<String>) -> Seq<Seq<char>> {
    v.map_values(|s: String| s@)
}

/// What `pacman -Si` or `pacman -Qi` tells of a package, as text; the sizes
/// are left as pacman prints them.
#[derive(Debug)]
pub struct PacmanFields {
    pub version: Option<String>,
    pub installed_size: Option<String>,
    pub download_size: Option<String>,
    pub provides: Vec<String>,
    pub packager: Option<String>,
}

/// The words of an optional value, none when it is absent.
pub open spec fn words_or_none(v: Option<Seq<char>>) -> Seq<Seq<char>> {
    match v {
        Some(t) => words_of(t),
        None => Seq::empty(),
    }
}

/// Whether `f` holds what the lines of pacman's output give: for each
/// field, the value of its last line.
pub open spec fn fields_of(f: PacmanFields, lines: Seq<Seq<char>>) -> bool {
    &&& opt_view(f.version) == last_value(lines, "Version"@)
    &&& opt_view(f.installed_size) == last_value(lines, "Installed Size"@)
    &&& opt_view(f.download_size) == last_value(lines, "Download Size"@)
    &&& string_views(f.provides@) == words_or_none(last_value(lines, "Provides"@))
    &&& opt_view(f.packager) == last_value(lines, "Packager"@)
}

/// Owned copies of a list of words.
fn owned_words(words: Vec<&str>) -> (r: Vec<String>)
    ensures
        string_views(r@) == words@.map_values(|w: &str| w@),
{
    let mut r: Vec<String> = Vec::new();
    let mut i: usize = 0;
    while i < words.len()
        invariant
            i <= words.len(),
            string_views(r@) == words@.map_values(|w: &str| w@).subrange(0, i as int),
        decreases words.len() - i,
    {
        let w: &str = words[i];
        let owned = w.to_owned();
        let ghost before = r@;
        r.push(owned);
        assert(string_views(r@) =~= string_views(before).push(w@));
        assert(words@.map_values(|w: &str| w@).subrange(0, i + 1) =~= words@.map_values(
            |w: &str| w@,
        ).subrange(0, i as int).push(w@));
        i = i + 1;
    }
    assert(words@.map_values(|w: &str| w@).subrange(0, words.len() as int) =~= words@.map_values(
        |w: &str| w@,
    ));
    r
}

/// Reads the fields of a package that pacman printed: the last line of each
/// field gives its value.
pub fn pacman_fields(text: &str) -> (f: PacmanFields)
    ensures
        fields_of(f, lines_of(text@)),
{
    let all = lines(text);
    let ghost views = all@.map_values(|l: &str| l@);
    let mut f = PacmanFields {
        version: None,
        installed_size: None,
        download_size: None,
        provides: Vec::new(),
        packager: None,
    };
    let mut i: usize = 0;
    proof {
        assert(views.subrange(0, 0) =~= Seq::<Seq<char>>::empty());
        assert(string_views(f.provides@) =~= Seq::<Seq<char>>::empty());
    }
    while i < all.len()
        invariant
            i <= all.len(),
            views == all@.map_values(|l: &str| l@),
            fields_of(f, views.subrange(0, i as int)),
        decreases all.len() - i,
    {
        let line = all[i];
        let ghost prefix = views.subrange(0, i + 1);
        assert(prefix.drop_last() =~= views.subrange(0, i as int));
        assert(prefix.last() == line@);
        proof {
            reveal_strlit("Version");
            reveal_strlit("Installed Size");
            reveal_strlit("Download Size");
            reveal_strlit("Provides");
            reveal_strlit("Packager");
            assert("Version"@.len() == 7 && "Installed Size"@.len() == 14 && "Download Size"@.len()
                == 13 && "Provides"@.len() == 8 && "Packager"@.len() == 8);
            assert("Provides"@[1] != "Packager"@[1]);
        }
        if let Some((key, value)) = split_once(line, ':') {
            let key = trim(key);
            let value = trim(value);
            assert(field_entry(line@) == Some((key@, value@)));
            if str_eq(key, "Version") {
                f.version = Some(value.to_owned());
            } else if str_eq(key, "Installed Size") {
                f.installed_size = Some(value.to_owned());
            } else if str_eq(key, "Download Size") {
                f.download_size = Some(value.to_owned());
            } else if str_eq(key, "Provides") {
                f.provides = owned_words(split_whitespace(value));
            } else if str_eq(key, "Packager") {
                f.packager = Some(value.to_owned());
            }
        }
        i = i + 1;
    }
    assert(views.subrange(0, all.len() as int) =~= views);
    f
}

impl PackageNode {
    /// The package `name` from `source`, as pacman described it, with its
    /// sizes as read from `fields`.
    pub fn from_pacman_fields(
        name: &str,
        fields: PacmanFields,
        source: PackageSource,
        size: Option<u64>,
        download_size: Option<u64>,
    ) -> (n: Self)
        ensures
            n.name@ == name@,
            n.version == fields.version,
            n.source == source,
            n.dependencies@.len() == 0,
            n.size == size,
            n.download_size == download_size,
            n.provides@ == fields.provides@,
            n.packager == fields.packager,
            n.aur is None,
    {
        PackageNode {
            name: name.to_owned(),
            version: fields.version,
            source,
            dependencies: Vec::new(),
            size,
            download_size,
            provides: fields.provides,
            packager: fields.packager,
            aur: None,
        }
    }
}

/// The installed packages that `pacman -Q` lists, one `name version` per
/// line: the name before the first space, the version after it without
/// surrounding whitespace. Lines without a space list nothing.
pub open spec fn installed_entries(lines: Seq<Seq<char>>) -> Seq<(Seq<char>, Seq<char>)>
    decreases lines.len(),
{
    if lines.len() == 0 {
        Seq::empty()
    } else {
        let line = lines.last();
        installed_entries(lines.drop_last()) + match find_char(line, ' ') {
            Some(k) => seq![(line.subrange(0, k), trim_chars(line.subrange(k + 1, line.len() as int)))],
            None => Seq::empty(),
        }
    }
}

/// The names and versions of each pair of a list.
pub open spec fn pair_views(v: Seq<(String, String)>) -> Seq<(Seq<char>, Seq<char>)> {
    v.map_values(|p: (String, String)| (p.0@, p.1@))
}

/// The version of each name among entries: a later entry of a name wins.
pub open spec fn entries_map(entries: Seq<(Seq<char>, Seq<char>)>) -> Map<Seq<char>, Seq<char>>
    decreases entries.len(),
{
    if entries.len() == 0 {
        Map::empty()
    } else {
        entries_map(entries.drop_last()).insert(entries.last().0, entries.last().1)
    }
}

/// Whether no two entries share a name.
pub open spec fn distinct_keys(entries: Seq<(Seq<char>, Seq<char>)>) -> bool {
    forall|i: int, j: int|
        0 <= i < entries.len() && 0 <= j < entries.len() && i != j ==> #[trigger] entries[i].0
            != #[trigger] entries[j].0
}

/// Giving a name present among distinct entries a new version, in place,
/// is recording that version for the name.
proof fn lemma_entries_update(entries: Seq<(Seq<char>, Seq<char>)>, i: int, e: (Seq<char>, Seq<char>))
    requires
        distinct_keys(entries),
        0 <= i < entries.len(),
        entries[i].0 == e.0,
    ensures
        entries_map(entries.update(i, e)) == entries_map(entries).insert(e.0, e.1),
    decreases entries.len(),
{
    let after = entries.update(i, e);
    if i == entries.len() - 1 {
        assert(after.drop_last() =~= entries.drop_last());
        assert(entries_map(after) =~= entries_map(entries).insert(e.0, e.1));
    } else {
        let below = entries.drop_last();
        assert(after.drop_last() =~= below.update(i, e));
        assert(after.last() == entries.last());
        assert(distinct_keys(below)) by {
            assert forall|a: int, b: int|
                0 <= a < below.len() && 0 <= b < below.len() && a != b implies #[trigger] below[a].0
                != #[trigger] below[b].0 by {
                assert(below[a] == entries[a]);
                assert(below[b] == entries[b]);
            }
        }
        lemma_entries_update(below, i, e);
        assert(entries[i].0 != entries[entries.len() - 1].0);
        assert(entries_map(after) =~= entries_map(entries).insert(e.0, e.1));
    }
}

/// The installed packages that `pacman -Q` listed, by name and version, one
/// entry per name: where a name is listed twice, its last line wins.
pub fn parse_installed(text: &str) -> (r: Vec<(String, String)>)
    ensures
        distinct_keys(pair_views(r@)),
        entries_map(pair_views(r@)) == entries_map(installed_entries(lines_of(text@))),
{
    let all = lines(text);
    let ghost views = all@.map_values(|l: &str| l@);
    let mut r: Vec<(String, String)> = Vec::new();
    let mut i: usize = 0;
    assert(views.subrange(0, 0) =~= Seq::<Seq<char>>::empty());
    assert(pair_views(r@) =~= Seq::<(Seq<char>, Seq<char>)>::empty());
    while i < all.len()
        invariant
            i <= all.len(),
            views == all@.map_values(|l: &str| l@),
            distinct_keys(pair_views(r@)),
            entries_map(pair_views(r@)) == entries_map(installed_entries(views.subrange(0, i as int))),
        decreases all.len() - i,
    {
        let line = all[i];
        let ghost prefix = views.subrange(0, i + 1);
        assert(prefix.drop_last() =~= views.subrange(0, i as int));
        assert(prefix.last() == line@);
        let ghost before = pair_views(r@);
        if let Some((name, version)) = split_once(line, ' ') {
            let entry = (name.to_owned(), trim(version).to_owned());
            let ghost e = (name@, trim_chars(version@));
            let ghost added = installed_entries(views.subrange(0, i as int)) + seq![e];
            assert(installed_entries(prefix) == added);
            assert(added.drop_last() =~= installed_entries(views.subrange(0, i as int)));
            let mut j: usize = 0;
            while j < r.len()
                invariant
                    j <= r@.len(),
                    forall|x: int| 0 <= x < j ==> (#[trigger] r@[x]).0@ != name@,
                ensures
                    j <= r@.len(),
                    forall|x: int| 0 <= x < j ==> (#[trigger] r@[x]).0@ != name@,
                    j < r@.len() ==> r@[j as int].0@ == name@,
                decreases r@.len() - j,
            {
                if str_eq(r[j].0.as_str(), name) {
                    break;
                }
                j = j + 1;
            }
            if j < r.len() {
                proof {
                    assert(before[j as int].0 == name@);
                    lemma_entries_update(before, j as int, e);
                }
                r.set(j, entry);
                proof {
                    assert(pair_views(r@) =~= before.update(j as int, e));
                    assert forall|a: int, b: int|
                        0 <= a < pair_views(r@).len() && 0 <= b < pair_views(r@).len() && a != b
                        implies #[trigger] pair_views(r@)[a].0 != #[trigger] pair_views(r@)[b].0 by {
                        if a != j && b != j {
                            assert(before[a].0 != before[b].0);
                        } else if a == j {
                            assert(before[j as int].0 != before[b].0);
                        } else {
                            assert(before[a].0 != before[j as int].0);
                        }
                    }
                }
            } else {
                r.push(entry);
                proof {
                    assert(pair_views(r@) =~= before.push(e));
                    assert(pair_views(r@).drop_last() =~= before);
                    assert forall|a: int, b: int|
                        0 <= a < pair_views(r@).len() && 0 <= b < pair_views(r@).len() && a != b
                        implies #[trigger] pair_views(r@)[a].0 != #[trigger] pair_views(r@)[b].0 by {
                        if a < before.len() && b < before.len() {
                            assert(before[a].0 != before[b].0);
                        } else if a < before.len() {
                            assert(before[a].0 == r@[a].0@);
                        } else {
                            assert(before[b].0 == r@[b].0@);
                        }
                    }
                }
            }
        } else {
            assert(installed_entries(prefix) =~= installed_entries(views.subrange(0, i as int)));
        }
        i = i + 1;
    }
    assert(views.subrange(0, all.len() as int) =~= views);
    r
}

} // verus!
