//! Packages, their dependencies, and the order in which to install them.
use vstd::prelude::*;

use crate::text::{
    lemma_trim_shape, split_whitespace, str_eq, trim, trim_chars, trim_idempotent, words_of,
};

pub mod graph;
pub mod package;
pub mod plan;
pub mod resolver;


verus! {

/// How a package relates to another one that it names.
#[derive(Debug, Clone, Copy, PartialEq, Eq, Hash, Structural)]
pub enum DependencyKind {
    Runtime,
    Build,
    Check,
    Optional,
    Provides,
    Conflicts,
}

impl DependencyKind {
    /// Whether a relation of this kind asks for the other package to be
    /// installed: runtime, build and check dependencies do.
    pub open spec fn resolvable(self) -> bool {
        matches!(self, DependencyKind::Runtime | DependencyKind::Build | DependencyKind::Check)
    }

    /// Whether the named package must be resolved and installed first.
    pub fn is_resolvable(self) -> (b: bool)
        ensures
            b == self.resolvable(),
    {
        matches!(self, DependencyKind::Runtime | DependencyKind::Build | DependencyKind::Check)
    }
}

/// A package named by another one, by its bare name.
#[derive(Debug)]
pub struct Dependency {
    pub name: String,
    pub kind: DependencyKind,
}

impl Clone for Dependency {
    fn clone(&self) -> (d: Self)
        ensures
            d == *self,
    {
        Dependency { name: self.name.clone(), kind: self.kind }
    }
}

/// Whether a character ends the name in a dependency string and starts its
/// version constraint or description.
pub open spec fn ends_name(c: char) -> bool {
    c == '>' || c == '<' || c == '=' || c == ':'
}

/// The characters before the first one that ends the name.
pub open spec fn name_part(s: Seq<char>) -> Seq<char>
    decreases s.len(),
{
    if s.len() == 0 || ends_name(s[0]) {
        Seq::empty()
    } else {
        seq![s[0]] + name_part(s.drop_first())
    }
}

/// The bare package name in a dependency string such as `glibc>=2.38` or
/// `python: for scripts`, without surrounding whitespace.
pub open spec fn normalized_name(s: Seq<char>) -> Seq<char> {
    trim_chars(name_part(s))
}

/// The name part holds no character that ends a name.
proof fn lemma_name_part_clean(s: Seq<char>)
    ensures
        forall|i: int| 0 <= i < name_part(s).len() ==> !ends_name(#[trigger] name_part(s)[i]),
    decreases s.len(),
{
    if s.len() > 0 && !ends_name(s[0]) {
        lemma_name_part_clean(s.drop_first());
        let rest = name_part(s.drop_first());
        assert forall|i: int| 0 <= i < name_part(s).len() implies !ends_name(
            #[trigger] name_part(s)[i],
        ) by {
            if i > 0 {
                assert(name_part(s)[i] == rest[i - 1]);
            }
        }
    }
}

/// Text without a character that ends a name is its own name part.
proof fn lemma_name_part_of_clean(s: Seq<char>)
    requires
        forall|i: int| 0 <= i < s.len() ==> !ends_name(#[trigger] s[i]),
    ensures
        name_part(s) == s,
    decreases s.len(),
{
    if s.len() > 0 {
        assert(!ends_name(s[0]));
        assert forall|i: int| 0 <= i < s.drop_first().len() implies !ends_name(
            #[trigger] s.drop_first()[i],
        ) by {
            assert(s.drop_first()[i] == s[i + 1]);
        }
        lemma_name_part_of_clean(s.drop_first());
        assert(seq![s[0]] + s.drop_first() =~= s);
    }
}

/// A bare name is its own bare name: normalizing twice gives what
/// normalizing once gave.
pub proof fn normalize_idempotent(s: Seq<char>)
    ensures
        normalized_name(normalized_name(s)) == normalized_name(s),
{
    let n = name_part(s);
    let t = trim_chars(n);
    lemma_name_part_clean(s);
    lemma_trim_shape(n);
    let k = choose|k: int| 0 <= k && k + t.len() <= n.len() && t == #[trigger] n.subrange(k, k + t.len());
    assert forall|i: int| 0 <= i < t.len() implies !ends_name(#[trigger] t[i]) by {
        assert(t[i] == n[k + i]);
    }
    lemma_name_part_of_clean(t);
    trim_idempotent(n);
}

/// The bare package name in a dependency string.
pub fn normalize_name<'a>(dependency: &'a str) -> (r: &'a str)
    ensures
        r@ == normalized_name(dependency@),
{
    let n = dependency.unicode_len();
    let mut i: usize = 0;
    assert(dependency@.subrange(0, n as int) =~= dependency@);
    assert(dependency@.subrange(0, 0) =~= Seq::<char>::empty());
    while i < n
        invariant
            i <= n,
            n == dependency@.len(),
            name_part(dependency@) == dependency@.subrange(0, i as int) + name_part(
                dependency@.subrange(i as int, n as int),
            ),
        ensures
            i <= n,
            name_part(dependency@) == dependency@.subrange(0, i as int) + name_part(
                dependency@.subrange(i as int, n as int),
            ),
            i < n ==> ends_name(dependency@[i as int]),
        decreases n - i,
    {
        let c = dependency.get_char(i);
        if c == '>' || c == '<' || c == '=' || c == ':' {
            break;
        }
        let ghost rest = dependency@.subrange(i as int, n as int);
        assert(rest.drop_first() =~= dependency@.subrange(i + 1, n as int));
        assert(dependency@.subrange(0, i as int) + seq![c] =~= dependency@.subrange(0, i + 1));
        assert(dependency@.subrange(0, i as int) + (seq![c] + name_part(rest.drop_first()))
            =~= dependency@.subrange(0, i + 1) + name_part(rest.drop_first()));
        i = i + 1;
    }
    assert(dependency@.subrange(0, i as int) + name_part(dependency@.subrange(i as int, n as int))
        =~= dependency@.subrange(0, i as int));
    trim(dependency.substring_char(0, i))
}

impl Dependency {
    /// The dependency of the given kind on the package that `raw` names.
    pub fn new(raw: &str, kind: DependencyKind) -> (d: Self)
        ensures
            d.name@ == normalized_name(raw@),
            d.kind == kind,
    {
        Dependency { name: normalize_name(raw).to_owned(), kind }
    }
}

/// The number of bytes in one unit of a size as pacman prints it.
pub open spec fn unit_factor(unit: Seq<char>) -> Option<u64> {
    if unit == "KiB"@ {
        Some(1024)
    } else if unit == "MiB"@ {
        Some(1048576)
    } else if unit == "GiB"@ {
        Some(1073741824)
    } else {
        None
    }
}

/// The number and the unit's factor of a size such as `12.5 MiB`: the
/// first word and the factor of the second, when there are two words and
/// the second is a known unit.
pub open spec fn size_fields(value: Seq<char>) -> Option<(Seq<char>, u64)> {
    let words = words_of(value);
    if words.len() >= 2 {
        match unit_factor(words[1]) {
            Some(factor) => Some((words[0], factor)),
            None => None,
        }
    } else {
        None
    }
}

/// Splits a size as pacman prints it into the text of its number and the
/// factor of its unit; the number itself is read by the caller.
pub fn size_parts<'a>(value: &'a str) -> (r: Option<(&'a str, u64)>)
    ensures
        match r {
            Some((number, factor)) => size_fields(value@) == Some((number@, factor)),
            None => size_fields(value@) is None,
        },
{
    let parts = split_whitespace(value);
    proof {
        assert(parts@.map_values(|w: &str| w@).len() == parts@.len());
    }
    if parts.len() < 2 {
        return None;
    }
    proof {
        assert(parts@.map_values(|w: &str| w@)[0] == parts@[0]@);
        assert(parts@.map_values(|w: &str| w@)[1] == parts@[1]@);
    }
    let unit = parts[1];
    let factor: u64 = if str_eq(unit, "KiB") {
        1024
    } else if str_eq(unit, "MiB") {
        1048576
    } else if str_eq(unit, "GiB") {
        1073741824
    } else {
        return None;
    };
    Some((parts[0], factor))
}

} // verus!
