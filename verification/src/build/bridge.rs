//! Registering a built package in the local package database, in the
//! format pacman reads.
use vstd::prelude::*;

use crate::path::{join_path, joined};
use crate::text::{decimal, ends_with_char, has_prefix, i64_to_string, starts_with, str_eq, strip_prefix};

verus! {

/// The local package database, rooted at a directory.
#[derive(Debug)]
pub struct Database<'a>(&'a str);

/// A built package file.
#[derive(Debug)]
pub struct Artifact<'a>(&'a str);

/// The directory in which the database `root` keeps the package `name` of
/// version `version`.
pub open spec fn package_directory_of(root: Seq<char>, name: Seq<char>, version: Seq<char>) -> Seq<char> {
    joined(joined(root, "local"@), name + "-"@ + version)
}

impl<'a> Database<'a> {
    /// The database's directory.
    pub closed spec fn root(&self) -> Seq<char> {
        self.0@
    }

    /// The database kept in the directory `path`.
    pub fn new(path: &'a str) -> (d: Self)
        ensures
            d.root() == path@,
    {
        Database(path)
    }

    /// The database's directory.
    pub fn path(&self) -> (p: &'a str)
        ensures
            p@ == self.root(),
    {
        self.0
    }

    /// The directory that holds the entry of a package, named after the
    /// package and its version.
    pub fn package_directory(&self, name: &str, version: &str) -> (d: String)
        ensures
            d@ == package_directory_of(self.root(), name@, version@),
    {
        let local = join_path(self.0, "local");
        let mut entry = name.to_owned();
        entry.append("-");
        entry.append(version);
        join_path(local.as_str(), entry.as_str())
    }
}

impl<'a> Artifact<'a> {
    /// The package file's path.
    pub closed spec fn location(&self) -> Seq<char> {
        self.0@
    }

    /// The package file at `path`.
    pub fn new(path: &'a str) -> (a: Self)
        ensures
            a.location() == path@,
    {
        Artifact(path)
    }

    /// The package file's path.
    pub fn path(&self) -> (p: &'a str)
        ensures
            p@ == self.location(),
    {
        self.0
    }
}

/// Whether a path in a package archive names an installed file: not a
/// directory, not one of the archive's own dot-files.
pub open spec fn is_file_entry(name: Seq<char>) -> bool {
    &&& !(name.len() > 0 && name.last() == '/')
    &&& (!has_prefix(name, "."@) || has_prefix(name, "./"@))
    &&& name != ".BUILDINFO"@
    &&& name != ".MTREE"@
    &&& name != ".PKGINFO"@
    &&& name != ".INSTALL"@
}

/// Whether a path in a package archive names an installed file.
pub fn is_package_file_entry(file_name: &str) -> (b: bool)
    ensures
        b == is_file_entry(file_name@),
{
    !ends_with_char(file_name, '/') && (!starts_with(file_name, ".") || starts_with(
        file_name,
        "./",
    )) && !(str_eq(file_name, ".BUILDINFO") || str_eq(file_name, ".MTREE") || str_eq(
        file_name,
        ".PKGINFO",
    ) || str_eq(file_name, ".INSTALL"))
}

/// `name` without its leading `./` parts, as `trim_start_matches("./")`
/// leaves it.
pub open spec fn without_dot_slashes(name: Seq<char>) -> Seq<char>
    decreases name.len(),
{
    if name.len() >= 2 && name[0] == '.' && name[1] == '/' {
        without_dot_slashes(name.subrange(2, name.len() as int))
    } else {
        name
    }
}

/// `name` without its leading `./` parts.
pub fn trim_dot_slashes<'b>(name: &'b str) -> (r: &'b str)
    ensures
        r@ == without_dot_slashes(name@),
{
    let mut rest = name;
    loop
        invariant
            without_dot_slashes(rest@) == without_dot_slashes(name@),
        decreases rest@.len(),
    {
        proof {
            reveal_strlit("./");
            assert("./"@ =~= seq!['.', '/']);
        }
        match strip_prefix(rest, "./") {
            Some(next) => {
                assert(rest@.subrange(0, 2) =~= seq!['.', '/']);
                assert(rest@[0] == '.' && rest@[1] == '/');
                rest = next;
            },
            None => {
                assert(!(rest@.len() >= 2 && rest@[0] == '.' && rest@[1] == '/')) by {
                    if rest@.len() >= 2 && rest@[0] == '.' && rest@[1] == '/' {
                        assert(rest@.subrange(0, 2) =~= "./"@);
                    }
                }
                return rest;
            },
        }
    }
}

/// The lines that list the installed files among the archive's paths.
pub open spec fn file_entries(names: Seq<Seq<char>>) -> Seq<char>
    decreases names.len(),
{
    if names.len() == 0 {
        Seq::empty()
    } else {
        file_entries(names.drop_last()) + if is_file_entry(names.last()) {
            without_dot_slashes(names.last()) + "\n"@
        } else {
            Seq::empty()
        }
    }
}

/// The `files` entry of the package database for a package whose archive
/// holds the paths `names`.
pub open spec fn file_list_of(names: Seq<Seq<char>>) -> Seq<char> {
    "%FILES%\n"@ + file_entries(names) + "\n"@
}

/// The `files` entry of the package database for a package whose archive
/// holds the paths `names`.
pub fn package_file_list(names: &Vec<String>) -> (list: String)
    ensures
        list@ == file_list_of(names@.map_values(|n: String| n@)),
{
    let ghost views = names@.map_values(|n: String| n@);
    let mut list = "%FILES%\n".to_owned();
    let mut i: usize = 0;
    while i < names.len()
        invariant
            i <= names.len(),
            views == names@.map_values(|n: String| n@),
            list@ == "%FILES%\n"@ + file_entries(views.subrange(0, i as int)),
        decreases names.len() - i,
    {
        let name = names[i].as_str();
        assert(views.subrange(0, i + 1).drop_last() =~= views.subrange(0, i as int));
        if is_package_file_entry(name) {
            list.append(trim_dot_slashes(name));
            list.append("\n");
        }
        i = i + 1;
        assert(list@ =~= "%FILES%\n"@ + file_entries(views.subrange(0, i as int)));
    }
    list.append("\n");
    assert(views.subrange(0, names.len() as int) =~= views);
    list
}

/// Each value on a line of its own.
pub open spec fn value_lines(values: Seq<Seq<char>>) -> Seq<char>
    decreases values.len(),
{
    if values.len() == 0 {
        Seq::empty()
    } else {
        value_lines(values.drop_last()) + values.last() + "\n"@
    }
}

/// A field of a `desc` entry: its name between percent signs, its values,
/// and an empty line.
pub open spec fn field_block(name: Seq<char>, values: Seq<Seq<char>>) -> Seq<char> {
    "%"@ + name + "%\n"@ + value_lines(values) + "\n"@
}

/// What is written in the `desc` entry of a package.
#[derive(Debug)]
pub struct PackageFields {
    pub name: String,
    pub version: String,
    pub base: Option<String>,
    pub desc: Option<String>,
    pub url: Option<String>,
    pub arch: Option<String>,
    pub build_date: i64,
    pub packager: Option<String>,
    pub size: i64,
    pub licenses: Vec<String>,
    pub depends: Vec<String>,
    pub optdepends: Vec<String>,
    pub provides: Vec<String>,
}

/// The text of an optional field, empty when absent.
pub open spec fn or_empty(text: Option<String>) -> Seq<char> {
    match text {
        Some(t) => t@,
        None => ""@,
    }
}

/// The characters of each string of a list.
pub open spec fn texts(v: Seq<String>) -> Seq<Seq<char>> {
    v.map_values(|s: String| s@)
}

/// The `desc` entry of a package: its name, version, base (its name when
/// it has none), description, URL, architecture, build date (also as its
/// install date), packager, size, install reason 0, licenses, validation
/// `none`, dependencies, optional dependencies and what it provides.
pub open spec fn description_of(f: PackageFields) -> Seq<char> {
    field_block("NAME"@, seq![f.name@]) + field_block("VERSION"@, seq![f.version@]) + field_block(
        "BASE"@,
        seq![
            match f.base {
                Some(b) => b@,
                None => f.name@,
            },
        ],
    ) + field_block("DESC"@, seq![or_empty(f.desc)]) + field_block("URL"@, seq![or_empty(f.url)])
        + field_block("ARCH"@, seq![or_empty(f.arch)]) + field_block(
        "BUILDDATE"@,
        seq![decimal(f.build_date as int)],
    ) + field_block("INSTALLDATE"@, seq![decimal(f.build_date as int)]) + field_block(
        "PACKAGER"@,
        seq![or_empty(f.packager)],
    ) + field_block("SIZE"@, seq![decimal(f.size as int)]) + field_block("REASON"@, seq!["0"@])
        + field_block("LICENSE"@, texts(f.licenses@)) + field_block("VALIDATION"@, seq!["none"@])
        + field_block("DEPENDS"@, texts(f.depends@)) + field_block(
        "OPTDEPENDS"@,
        texts(f.optdepends@),
    ) + field_block("PROVIDES"@, texts(f.provides@))
}

/// Values written one per line.
pub open spec fn one_per_line(values: Seq<Seq<char>>) -> Seq<char>
    decreases values.len(),
{
    if values.len() == 0 {
        Seq::empty()
    } else {
        values[0] + "\n"@ + one_per_line(values.drop_first())
    }
}

/// Whether `text` holds the field `name` between percent signs on a line of
/// its own, followed by exactly the lines of `values` and an empty line.
pub open spec fn holds_field(text: Seq<char>, name: Seq<char>, values: Seq<Seq<char>>) -> bool {
    exists|before: Seq<char>, after: Seq<char>|
        text == #[trigger] (before + ("%"@ + name + "%\n"@ + one_per_line(values) + "\n"@) + after)
}

proof fn lemma_one_per_line_push(values: Seq<Seq<char>>, v: Seq<char>)
    ensures
        one_per_line(values.push(v)) == one_per_line(values) + v + "\n"@,
    decreases values.len(),
{
    if values.len() == 0 {
        assert(values.push(v).drop_first() =~= Seq::<Seq<char>>::empty());
        assert(one_per_line(Seq::<Seq<char>>::empty()) == Seq::<char>::empty());
        assert(values.push(v)[0] == v);
        assert(one_per_line(values.push(v)) =~= one_per_line(values) + v + "\n"@);
    } else {
        assert(values.push(v).drop_first() =~= values.drop_first().push(v));
        lemma_one_per_line_push(values.drop_first(), v);
        assert(one_per_line(values.push(v)) =~= one_per_line(values) + v + "\n"@);
    }
}

proof fn lemma_one_per_line(values: Seq<Seq<char>>)
    ensures
        value_lines(values) == one_per_line(values),
    decreases values.len(),
{
    if values.len() > 0 {
        lemma_one_per_line(values.drop_last());
        lemma_one_per_line_push(values.drop_last(), values.last());
        assert(values.drop_last().push(values.last()) =~= values);
    }
}

/// The text of parts written one after the other.
pub open spec fn concat(parts: Seq<Seq<char>>) -> Seq<char>
    decreases parts.len(),
{
    if parts.len() == 0 {
        Seq::empty()
    } else {
        concat(parts.drop_last()) + parts.last()
    }
}

proof fn lemma_concat_split(parts: Seq<Seq<char>>, i: int)
    requires
        0 <= i < parts.len(),
    ensures
        concat(parts) == concat(parts.subrange(0, i)) + parts[i] + concat(
            parts.subrange(i + 1, parts.len() as int),
        ),
    decreases parts.len(),
{
    let last = parts.len() - 1;
    if i == last {
        assert(parts.subrange(0, i) =~= parts.drop_last());
        assert(parts.subrange(i + 1, parts.len() as int) =~= Seq::<Seq<char>>::empty());
        assert(concat(parts) =~= concat(parts.subrange(0, i)) + parts[i] + concat(
            parts.subrange(i + 1, parts.len() as int),
        ));
    } else {
        let dl = parts.drop_last();
        lemma_concat_split(dl, i);
        assert(dl.subrange(0, i) =~= parts.subrange(0, i));
        let tail = parts.subrange(i + 1, parts.len() as int);
        assert(tail.drop_last() =~= dl.subrange(i + 1, dl.len() as int));
        assert(tail.last() == parts.last());
        assert(concat(parts) =~= concat(parts.subrange(0, i)) + parts[i] + concat(tail));
    }
}

/// Each field of the `desc` entry holds exactly the package's value for
/// it: the name, version, base (the name when there is none), description,
/// URL, architecture, build date (also as install date), packager, size,
/// install reason 0, licenses, validation `none`, dependencies, optional
/// dependencies and what it provides, each under its own header.
pub proof fn description_fields_law(f: PackageFields)
    ensures
        holds_field(description_of(f), "NAME"@, seq![f.name@]),
        holds_field(description_of(f), "VERSION"@, seq![f.version@]),
        holds_field(description_of(f), "BASE"@, seq![match f.base {
                Some(b) => b@,
                None => f.name@,
            }]),
        holds_field(description_of(f), "DESC"@, seq![or_empty(f.desc)]),
        holds_field(description_of(f), "URL"@, seq![or_empty(f.url)]),
        holds_field(description_of(f), "ARCH"@, seq![or_empty(f.arch)]),
        holds_field(description_of(f), "BUILDDATE"@, seq![decimal(f.build_date as int)]),
        holds_field(description_of(f), "INSTALLDATE"@, seq![decimal(f.build_date as int)]),
        holds_field(description_of(f), "PACKAGER"@, seq![or_empty(f.packager)]),
        holds_field(description_of(f), "SIZE"@, seq![decimal(f.size as int)]),
        holds_field(description_of(f), "REASON"@, seq!["0"@]),
        holds_field(description_of(f), "LICENSE"@, texts(f.licenses@)),
        holds_field(description_of(f), "VALIDATION"@, seq!["none"@]),
        holds_field(description_of(f), "DEPENDS"@, texts(f.depends@)),
        holds_field(description_of(f), "OPTDEPENDS"@, texts(f.optdepends@)),
        holds_field(description_of(f), "PROVIDES"@, texts(f.provides@)),
{
    let base = match f.base {
        Some(b) => b@,
        None => f.name@,
    };
    let v0 = seq![f.name@];
    let v1 = seq![f.version@];
    let v2 = seq![base];
    let v3 = seq![or_empty(f.desc)];
    let v4 = seq![or_empty(f.url)];
    let v5 = seq![or_empty(f.arch)];
    let v6 = seq![decimal(f.build_date as int)];
    let v7 = seq![decimal(f.build_date as int)];
    let v8 = seq![or_empty(f.packager)];
    let v9 = seq![decimal(f.size as int)];
    let v10 = seq!["0"@];
    let v11 = texts(f.licenses@);
    let v12 = seq!["none"@];
    let v13 = texts(f.depends@);
    let v14 = texts(f.optdepends@);
    let v15 = texts(f.provides@);
    let parts = seq![field_block("NAME"@, v0), field_block("VERSION"@, v1), field_block("BASE"@, v2), field_block("DESC"@, v3), field_block("URL"@, v4), field_block("ARCH"@, v5), field_block("BUILDDATE"@, v6), field_block("INSTALLDATE"@, v7), field_block("PACKAGER"@, v8), field_block("SIZE"@, v9), field_block("REASON"@, v10), field_block("LICENSE"@, v11), field_block("VALIDATION"@, v12), field_block("DEPENDS"@, v13), field_block("OPTDEPENDS"@, v14), field_block("PROVIDES"@, v15)];
    reveal_with_fuel(concat, 17);
    assert(description_of(f) =~= concat(parts));
    assert(holds_field(description_of(f), "NAME"@, v0)) by {
        lemma_one_per_line(v0);
        lemma_concat_split(parts, 0);
        assert(description_of(f) == concat(parts.subrange(0, 0)) + ("%"@ + "NAME"@ + "%\n"@ + one_per_line(
            v0,
        ) + "\n"@) + concat(parts.subrange(1, 16)));
    }
    assert(holds_field(description_of(f), "VERSION"@, v1)) by {
        lemma_one_per_line(v1);
        lemma_concat_split(parts, 1);
        assert(description_of(f) == concat(parts.subrange(0, 1)) + ("%"@ + "VERSION"@ + "%\n"@ + one_per_line(
            v1,
        ) + "\n"@) + concat(parts.subrange(2, 16)));
    }
    assert(holds_field(description_of(f), "BASE"@, v2)) by {
        lemma_one_per_line(v2);
        lemma_concat_split(parts, 2);
        assert(description_of(f) == concat(parts.subrange(0, 2)) + ("%"@ + "BASE"@ + "%\n"@ + one_per_line(
            v2,
        ) + "\n"@) + concat(parts.subrange(3, 16)));
    }
    assert(holds_field(description_of(f), "DESC"@, v3)) by {
        lemma_one_per_line(v3);
        lemma_concat_split(parts, 3);
        assert(description_of(f) == concat(parts.subrange(0, 3)) + ("%"@ + "DESC"@ + "%\n"@ + one_per_line(
            v3,
        ) + "\n"@) + concat(parts.subrange(4, 16)));
    }
    assert(holds_field(description_of(f), "URL"@, v4)) by {
        lemma_one_per_line(v4);
        lemma_concat_split(parts, 4);
        assert(description_of(f) == concat(parts.subrange(0, 4)) + ("%"@ + "URL"@ + "%\n"@ + one_per_line(
            v4,
        ) + "\n"@) + concat(parts.subrange(5, 16)));
    }
    assert(holds_field(description_of(f), "ARCH"@, v5)) by {
        lemma_one_per_line(v5);
        lemma_concat_split(parts, 5);
        assert(description_of(f) == concat(parts.subrange(0, 5)) + ("%"@ + "ARCH"@ + "%\n"@ + one_per_line(
            v5,
        ) + "\n"@) + concat(parts.subrange(6, 16)));
    }
    assert(holds_field(description_of(f), "BUILDDATE"@, v6)) by {
        lemma_one_per_line(v6);
        lemma_concat_split(parts, 6);
        assert(description_of(f) == concat(parts.subrange(0, 6)) + ("%"@ + "BUILDDATE"@ + "%\n"@ + one_per_line(
            v6,
        ) + "\n"@) + concat(parts.subrange(7, 16)));
    }
    assert(holds_field(description_of(f), "INSTALLDATE"@, v7)) by {
        lemma_one_per_line(v7);
        lemma_concat_split(parts, 7);
        assert(description_of(f) == concat(parts.subrange(0, 7)) + ("%"@ + "INSTALLDATE"@ + "%\n"@ + one_per_line(
            v7,
        ) + "\n"@) + concat(parts.subrange(8, 16)));
    }
    assert(holds_field(description_of(f), "PACKAGER"@, v8)) by {
        lemma_one_per_line(v8);
        lemma_concat_split(parts, 8);
        assert(description_of(f) == concat(parts.subrange(0, 8)) + ("%"@ + "PACKAGER"@ + "%\n"@ + one_per_line(
            v8,
        ) + "\n"@) + concat(parts.subrange(9, 16)));
    }
    assert(holds_field(description_of(f), "SIZE"@, v9)) by {
        lemma_one_per_line(v9);
        lemma_concat_split(parts, 9);
        assert(description_of(f) == concat(parts.subrange(0, 9)) + ("%"@ + "SIZE"@ + "%\n"@ + one_per_line(
            v9,
        ) + "\n"@) + concat(parts.subrange(10, 16)));
    }
    assert(holds_field(description_of(f), "REASON"@, v10)) by {
        lemma_one_per_line(v10);
        lemma_concat_split(parts, 10);
        assert(description_of(f) == concat(parts.subrange(0, 10)) + ("%"@ + "REASON"@ + "%\n"@ + one_per_line(
            v10,
        ) + "\n"@) + concat(parts.subrange(11, 16)));
    }
    assert(holds_field(description_of(f), "LICENSE"@, v11)) by {
        lemma_one_per_line(v11);
        lemma_concat_split(parts, 11);
        assert(description_of(f) == concat(parts.subrange(0, 11)) + ("%"@ + "LICENSE"@ + "%\n"@ + one_per_line(
            v11,
        ) + "\n"@) + concat(parts.subrange(12, 16)));
    }
    assert(holds_field(description_of(f), "VALIDATION"@, v12)) by {
        lemma_one_per_line(v12);
        lemma_concat_split(parts, 12);
        assert(description_of(f) == concat(parts.subrange(0, 12)) + ("%"@ + "VALIDATION"@ + "%\n"@ + one_per_line(
            v12,
        ) + "\n"@) + concat(parts.subrange(13, 16)));
    }
    assert(holds_field(description_of(f), "DEPENDS"@, v13)) by {
        lemma_one_per_line(v13);
        lemma_concat_split(parts, 13);
        assert(description_of(f) == concat(parts.subrange(0, 13)) + ("%"@ + "DEPENDS"@ + "%\n"@ + one_per_line(
            v13,
        ) + "\n"@) + concat(parts.subrange(14, 16)));
    }
    assert(holds_field(description_of(f), "OPTDEPENDS"@, v14)) by {
        lemma_one_per_line(v14);
        lemma_concat_split(parts, 14);
        assert(description_of(f) == concat(parts.subrange(0, 14)) + ("%"@ + "OPTDEPENDS"@ + "%\n"@ + one_per_line(
            v14,
        ) + "\n"@) + concat(parts.subrange(15, 16)));
    }
    assert(holds_field(description_of(f), "PROVIDES"@, v15)) by {
        lemma_one_per_line(v15);
        lemma_concat_split(parts, 15);
        assert(description_of(f) == concat(parts.subrange(0, 15)) + ("%"@ + "PROVIDES"@ + "%\n"@ + one_per_line(
            v15,
        ) + "\n"@) + concat(parts.subrange(16, 16)));
    }
}

/// The `desc` entry of a package, as it is being written.
pub struct PackageDescription {
    content: String,
}

/// A list of the one value `s`.
fn single(s: String) -> (v: Vec<String>)
    ensures
        texts(v@) == seq![s@],
{
    let mut v: Vec<String> = Vec::new();
    v.push(s);
    assert(texts(v@) =~= seq![s@]);
    v
}

/// The text of an optional field, empty when absent.
fn text_or_empty(text: &Option<String>) -> (t: String)
    ensures
        t@ == or_empty(*text),
{
    match text {
        Some(t) => t.clone(),
        None => "".to_owned(),
    }
}

impl PackageDescription {
    /// What has been written so far.
    pub closed spec fn text(&self) -> Seq<char> {
        self.content@
    }

    /// An entry with nothing written yet.
    pub fn new() -> (d: Self)
        ensures
            d.text() == Seq::<char>::empty(),
    {
        PackageDescription { content: String::new() }
    }

    /// What has been written.
    pub fn content(&self) -> (c: &str)
        ensures
            c@ == self.text(),
    {
        self.content.as_str()
    }

    /// Writes the field `name` with its values.
    pub fn write_field(self, name: &str, values: &Vec<String>) -> (d: Self)
        ensures
            d.text() == self.text() + field_block(name@, texts(values@)),
    {
        let mut content = self.content;
        let ghost start = content@;
        content.append("%");
        content.append(name);
        content.append("%\n");
        let ghost head = content@;
        let mut i: usize = 0;
        while i < values.len()
            invariant
                i <= values.len(),
                content@ == head + value_lines(texts(values@.subrange(0, i as int))),
            decreases values.len() - i,
        {
            assert(texts(values@.subrange(0, i + 1)).drop_last() =~= texts(
                values@.subrange(0, i as int),
            ));
            content.append(values[i].as_str());
            content.append("\n");
            i = i + 1;
            assert(content@ =~= head + value_lines(texts(values@.subrange(0, i as int))));
        }
        content.append("\n");
        assert(values@.subrange(0, values.len() as int) =~= values@);
        assert(content@ =~= start + field_block(name@, texts(values@)));
        PackageDescription { content }
    }

    /// The `desc` entry of a package with the given fields.
    #[verifier::rlimit(30)]
    pub fn from_fields(f: &PackageFields) -> (d: Self)
        ensures
            d.text() == description_of(*f),
    {
        let base = match &f.base {
            Some(b) => b.clone(),
            None => f.name.clone(),
        };
        let date = i64_to_string(f.build_date);
        let d = Self::new();
        let d = d.write_field("NAME", &single(f.name.clone()));
        let d = d.write_field("VERSION", &single(f.version.clone()));
        let d = d.write_field("BASE", &single(base));
        let d = d.write_field("DESC", &single(text_or_empty(&f.desc)));
        let d = d.write_field("URL", &single(text_or_empty(&f.url)));
        let d = d.write_field("ARCH", &single(text_or_empty(&f.arch)));
        let d = d.write_field("BUILDDATE", &single(date.clone()));
        let d = d.write_field("INSTALLDATE", &single(date));
        let d = d.write_field("PACKAGER", &single(text_or_empty(&f.packager)));
        let d = d.write_field("SIZE", &single(i64_to_string(f.size)));
        let d = d.write_field("REASON", &single("0".to_owned()));
        let d = d.write_field("LICENSE", &f.licenses);
        let d = d.write_field("VALIDATION", &single("none".to_owned()));
        let d = d.write_field("DEPENDS", &f.depends);
        let d = d.write_field("OPTDEPENDS", &f.optdepends);
        let d = d.write_field("PROVIDES", &f.provides);
        assert(d.text() =~= description_of(*f));
        d
    }
}

} // verus!
