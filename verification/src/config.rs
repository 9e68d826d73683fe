//! The catalog of file categories: each category's root directory, and which
//! categories may be changed.

use crate::text::text_eq;
use vstd::prelude::*;

verus! {

/// The directories that the device's own configuration names. Each is
/// optional; a directory that is absent gives no category.
#[derive(Clone, Debug, PartialEq, Eq)]
pub struct RunnerConfig {
    pub backup_dir: Option<String>,
    pub datafile_dir: Option<String>,
    pub compile_cache_dir: Option<String>,
    pub package_dir: Option<String>,
    pub source_cache_dir: Option<String>,
}

impl Default for RunnerConfig {
    fn default() -> (config: Self)
        ensures
            config.backup_dir is None,
            config.datafile_dir is None,
            config.compile_cache_dir is None,
            config.package_dir is None,
            config.source_cache_dir is None,
    {
        RunnerConfig {
            backup_dir: None,
            datafile_dir: None,
            compile_cache_dir: None,
            package_dir: None,
            source_cache_dir: None,
        }
    }
}

/// The catalog. It is built once and never changed. `filetype_paths` pairs
/// each category's name with its root; where a name occurs twice, the later
/// pair counts. `deleteable_filetypes` names the categories that may be
/// changed.
#[derive(Clone, Debug, PartialEq, Eq)]
pub struct Config {
    pub filetype_paths: Vec<(String, String)>,
    pub deleteable_filetypes: Vec<String>,
    pub _package_dir: Option<String>,
}

/// The map from category name to root that a list of pairs stands for: a
/// later pair replaces an earlier one of the same name.
pub open spec fn catalog_of(pairs: Seq<(Seq<char>, Seq<char>)>) -> Map<Seq<char>, Seq<char>>
    decreases pairs.len(),
{
    if pairs.len() == 0 {
        Map::empty()
    } else {
        catalog_of(pairs.drop_last()).insert(pairs.last().0, pairs.last().1)
    }
}

/// The names of a list of pairs, each once, in the order in which they first
/// occur.
pub open spec fn distinct_names(pairs: Seq<(Seq<char>, Seq<char>)>) -> Seq<Seq<char>>
    decreases pairs.len(),
{
    if pairs.len() == 0 {
        Seq::empty()
    } else {
        let earlier = distinct_names(pairs.drop_last());
        if earlier.contains(pairs.last().0) {
            earlier
        } else {
            earlier.push(pairs.last().0)
        }
    }
}

/// A name is in the catalog exactly if some pair holds it, and its root is
/// that of the last such pair.
pub proof fn lemma_catalog_lookup(pairs: Seq<(Seq<char>, Seq<char>)>, name: Seq<char>)
    ensures
        catalog_of(pairs).contains_key(name) <==> exists|i: int|
            0 <= i < pairs.len() && (#[trigger] pairs[i]).0 == name,
        forall|i: int|
            0 <= i < pairs.len() && (#[trigger] pairs[i]).0 == name && (forall|k: int|
                i < k < pairs.len() ==> (#[trigger] pairs[k]).0 != name) ==> catalog_of(pairs)[name]
                == pairs[i].1,
    decreases pairs.len(),
{
    if pairs.len() > 0 {
        let earlier = pairs.drop_last();
        lemma_catalog_lookup(earlier, name);
        if pairs.last().0 == name {
            assert(pairs[pairs.len() - 1].0 == name);
        } else {
            if catalog_of(pairs).contains_key(name) {
                let i = choose|i: int| 0 <= i < earlier.len() && (#[trigger] earlier[i]).0 == name;
                assert(pairs[i] == earlier[i]);
            }
            if exists|i: int| 0 <= i < pairs.len() && (#[trigger] pairs[i]).0 == name {
                let i = choose|i: int| 0 <= i < pairs.len() && (#[trigger] pairs[i]).0 == name;
                assert(earlier[i] == pairs[i]);
            }
        }
        assert forall|i: int|
            0 <= i < pairs.len() && (#[trigger] pairs[i]).0 == name && (forall|k: int|
                i < k < pairs.len() ==> (#[trigger] pairs[k]).0 != name) implies catalog_of(
            pairs,
        )[name] == pairs[i].1 by {
            if i < pairs.len() - 1 {
                assert(pairs[pairs.len() - 1].0 != name);
                assert(earlier[i] == pairs[i]);
                assert forall|k: int| i < k < earlier.len() implies (#[trigger] earlier[k]).0
                    != name by {
                    assert(earlier[k] == pairs[k]);
                }
            }
        }
    }
}

/// The distinct names hold no name twice, and they are the names of the
/// catalog.
pub proof fn lemma_distinct_names(pairs: Seq<(Seq<char>, Seq<char>)>)
    ensures
        distinct_names(pairs).no_duplicates(),
        distinct_names(pairs).to_set() == catalog_of(pairs).dom(),
    decreases pairs.len(),
{
    if pairs.len() > 0 {
        let earlier = distinct_names(pairs.drop_last());
        lemma_distinct_names(pairs.drop_last());
        let name = pairs.last().0;
        let names = distinct_names(pairs);
        assert forall|n: Seq<char>| names.to_set().contains(n) <==> catalog_of(
            pairs,
        ).dom().contains(n) by {
            if earlier.contains(name) {
                assert(earlier.to_set().contains(name));
            } else {
                if names.contains(n) {
                    let i = choose|i: int| 0 <= i < names.len() && names[i] == n;
                    if i < earlier.len() {
                        assert(earlier[i] == n);
                        assert(earlier.to_set().contains(n));
                    }
                }
                if earlier.to_set().contains(n) {
                    let i = choose|i: int| 0 <= i < earlier.len() && earlier[i] == n;
                    assert(names[i] == n);
                }
                if n == name {
                    assert(names[names.len() - 1] == n);
                }
            }
        }
        assert(names.to_set() =~= catalog_of(pairs).dom());
    } else {
        assert(distinct_names(pairs).to_set() =~= catalog_of(pairs).dom());
    }
}

/// Whether a list of names holds a name.
fn holds_name(names: &Vec<String>, name: &str) -> (found: bool)
    ensures
        found == names.deep_view().contains(name@),
{
    let mut i: usize = 0;
    while i < names.len()
        invariant
            i <= names.len(),
            forall|k: int| 0 <= k < i ==> names.deep_view()[k] != name@,
        decreases names.len() - i,
    {
        if text_eq(names[i].as_str(), name) {
            assert(names.deep_view()[i as int] == name@);
            return true;
        }
        assert(names.deep_view()[i as int] == names[i as int]@);
        i += 1;
    }
    false
}

impl Config {
    /// The map from category name to root.
    pub open spec fn paths(&self) -> Map<Seq<char>, Seq<char>> {
        catalog_of(self.filetype_paths.deep_view())
    }

    /// The root of a category, if the catalog holds it.
    pub open spec fn root_of(&self, filetype: Seq<char>) -> Option<Seq<char>> {
        if self.paths().contains_key(filetype) {
            Some(self.paths()[filetype])
        } else {
            None
        }
    }

    /// Whether a category may be changed.
    pub open spec fn deleteable(&self, filetype: Seq<char>) -> bool {
        self.deleteable_filetypes.deep_view().contains(filetype)
    }

    /// The root of a category, if the catalog holds it and it may be changed.
    pub open spec fn deleteable_root_of(&self, filetype: Seq<char>) -> Option<Seq<char>> {
        if self.deleteable(filetype) {
            self.root_of(filetype)
        } else {
            None
        }
    }

    /// A catalog of the given categories.
    pub fn new(
        filetype_paths: Vec<(String, String)>,
        deleteable_filetypes: Vec<String>,
        _package_dir: Option<String>,
    ) -> (config: Self)
        ensures
            config.filetype_paths == filetype_paths,
            config.deleteable_filetypes == deleteable_filetypes,
            config._package_dir == _package_dir,
    {
        Config { filetype_paths, deleteable_filetypes, _package_dir }
    }

    /// The names of the categories, each once.
    pub fn filetypelist(&self) -> (names: Vec<String>)
        ensures
            names.deep_view() == distinct_names(self.filetype_paths.deep_view()),
            names.deep_view().no_duplicates(),
            names.deep_view().to_set() == self.paths().dom(),
    {
        let ghost pairs = self.filetype_paths.deep_view();
        let mut names: Vec<String> = Vec::new();
        let mut i: usize = 0;
        assert(names.deep_view() =~= distinct_names(pairs.take(0)));
        while i < self.filetype_paths.len()
            invariant
                i <= self.filetype_paths.len(),
                pairs == self.filetype_paths.deep_view(),
                names.deep_view() == distinct_names(pairs.take(i as int)),
            decreases self.filetype_paths.len() - i,
        {
            let ghost before = names.deep_view();
            proof {
                assert(pairs.take(i + 1).drop_last() =~= pairs.take(i as int));
                assert(pairs.take(i + 1).last().0 == self.filetype_paths[i as int].0@);
            }
            if !holds_name(&names, self.filetype_paths[i].0.as_str()) {
                let name = String::from_str(self.filetype_paths[i].0.as_str());
                names.push(name);
                assert(names.deep_view() =~= before.push(name@));
            }
            i += 1;
        }
        proof {
            assert(pairs.take(self.filetype_paths.len() as int) =~= pairs);
            lemma_distinct_names(pairs);
        }
        names
    }

    /// The root of a category, or `None` if the catalog does not hold it.
    pub fn filetype_path(&self, filetype: &str) -> (root: Option<&String>)
        ensures
            root.deep_view() == self.root_of(filetype@),
    {
        let ghost pairs = self.filetype_paths.deep_view();
        let mut i: usize = self.filetype_paths.len();
        while i > 0
            invariant
                i <= self.filetype_paths.len(),
                pairs == self.filetype_paths.deep_view(),
                forall|k: int| i <= k < pairs.len() ==> (#[trigger] pairs[k]).0 != filetype@,
            decreases i,
        {
            i -= 1;
            assert(pairs[i as int].0 == self.filetype_paths[i as int].0@);
            if text_eq(self.filetype_paths[i].0.as_str(), filetype) {
                proof {
                    lemma_catalog_lookup(pairs, filetype@);
                    assert(pairs[i as int].1 == self.filetype_paths[i as int].1@);
                }
                return Some(&self.filetype_paths[i].1);
            }
        }
        proof {
            lemma_catalog_lookup(pairs, filetype@);
        }
        None
    }

    /// Whether a category may be changed.
    pub fn is_deleteable(&self, filetype: &str) -> (deleteable: bool)
        ensures
            deleteable == self.deleteable(filetype@),
    {
        holds_name(&self.deleteable_filetypes, filetype)
    }

    /// The root of a category, or `None` if the catalog does not hold it or it
    /// may not be changed.
    pub fn deleteable_filetype_path(&self, filetype: &str) -> (root: Option<&String>)
        ensures
            root.deep_view() == self.deleteable_root_of(filetype@),
    {
        if self.is_deleteable(filetype) {
            self.filetype_path(filetype)
        } else {
            None
        }
    }
}

/// The pair for a category whose directory is configured, none otherwise.
pub open spec fn named_dir(name: Seq<char>, dir: Option<Seq<char>>) -> Seq<(Seq<char>, Seq<char>)> {
    match dir {
        Some(dir) => seq![(name, dir)],
        None => seq![],
    }
}

/// The name of a category whose directory is configured, none otherwise.
pub open spec fn name_if_set(name: Seq<char>, dir: Option<Seq<char>>) -> Seq<Seq<char>> {
    match dir {
        Some(_) => seq![name],
        None => seq![],
    }
}

/// The categories that a device configuration gives, in order: `datafiles`,
/// `backup`, `compile_cache`, `source_cache` and `packages`, each only if its
/// directory is configured.
pub open spec fn runner_pairs(runner: RunnerConfig) -> Seq<(Seq<char>, Seq<char>)> {
    named_dir("datafiles"@, runner.datafile_dir.deep_view()) + named_dir(
        "backup"@,
        runner.backup_dir.deep_view(),
    ) + named_dir("compile_cache"@, runner.compile_cache_dir.deep_view()) + named_dir(
        "source_cache"@,
        runner.source_cache_dir.deep_view(),
    ) + named_dir("packages"@, runner.package_dir.deep_view())
}

/// The categories of a device configuration that may be changed: `datafiles`
/// and `packages`, each only if its directory is configured.
pub open spec fn runner_deleteable(runner: RunnerConfig) -> Seq<Seq<char>> {
    name_if_set("datafiles"@, runner.datafile_dir.deep_view()) + name_if_set(
        "packages"@,
        runner.package_dir.deep_view(),
    )
}

fn push_named_dir(pairs: &mut Vec<(String, String)>, name: &str, dir: Option<String>)
    ensures
        final(pairs).deep_view() == old(pairs).deep_view() + named_dir(name@, dir.deep_view()),
{
    match dir {
        Some(dir) => {
            let ghost pair = (name@, dir@);
            pairs.push((String::from_str(name), dir));
            assert(pairs.deep_view() =~= old(pairs).deep_view() + seq![pair]);
        },
        None => {
            assert(pairs.deep_view() =~= old(pairs).deep_view() + named_dir(name@, None));
        },
    }
}

fn push_name_if_set(names: &mut Vec<String>, name: &str, dir: &Option<String>)
    ensures
        final(names).deep_view() == old(names).deep_view() + name_if_set(name@, dir.deep_view()),
{
    match dir {
        Some(_) => {
            names.push(String::from_str(name));
            assert(names.deep_view() =~= old(names).deep_view() + seq![name@]);
        },
        None => {
            assert(names.deep_view() =~= old(names).deep_view() + name_if_set(name@, None));
        },
    }
}

impl Config {
    /// The catalog for a device configuration.
    pub fn from_runner(runner: RunnerConfig) -> (config: Self)
        ensures
            config.filetype_paths.deep_view() == runner_pairs(runner),
            config.deleteable_filetypes.deep_view() == runner_deleteable(runner),
            config._package_dir.deep_view() == runner.package_dir.deep_view(),
    {
        let mut deleteable: Vec<String> = Vec::new();
        assert(deleteable.deep_view() =~= Seq::<Seq<char>>::empty());
        push_name_if_set(&mut deleteable, "datafiles", &runner.datafile_dir);
        push_name_if_set(&mut deleteable, "packages", &runner.package_dir);
        assert(deleteable.deep_view() =~= runner_deleteable(runner));
        let package_dir = match &runner.package_dir {
            Some(dir) => Some(String::from_str(dir.as_str())),
            None => None,
        };
        let mut pairs: Vec<(String, String)> = Vec::new();
        assert(pairs.deep_view() =~= Seq::<(Seq<char>, Seq<char>)>::empty());
        push_named_dir(&mut pairs, "datafiles", runner.datafile_dir);
        push_named_dir(&mut pairs, "backup", runner.backup_dir);
        push_named_dir(&mut pairs, "compile_cache", runner.compile_cache_dir);
        push_named_dir(&mut pairs, "source_cache", runner.source_cache_dir);
        push_named_dir(&mut pairs, "packages", runner.package_dir);
        assert(pairs.deep_view() =~= runner_pairs(runner));
        Config::new(pairs, deleteable, package_dir)
    }
}

/// The part of a path behind a leading `~/`, which stands for the home
/// directory; `None` for a path that does not start so.
pub fn home_relative(path: &str) -> (rest: Option<String>)
    ensures
        rest.deep_view() == if "~/"@.is_prefix_of(path@) {
            Some(path@.skip(2))
        } else {
            None
        },
{
    proof {
        reveal_strlit("~/");
    }
    let len = path.unicode_len();
    if len >= 2 && path.get_char(0) == '~' && path.get_char(1) == '/' {
        assert("~/"@ =~= path@.subrange(0, 2));
        assert(path@.subrange(2, len as int) =~= path@.skip(2));
        Some(String::from_str(path.substring_char(2, len)))
    } else {
        assert(len >= 2 ==> "~/"@[0] == '~' && "~/"@[1] == '/');
        None
    }
}

} // verus!
