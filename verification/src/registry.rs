//! The lock-guarded bytecode file cache.
//!
//! The registry lazily materializes compiled code per file path: a path is
//! looked up in the cache first and only parsed when absent, so repeated
//! lookups never re-parse. Reading a file from disk and decoding it happen
//! outside this core; the registry is built over the table of compiled
//! units the loader can supply, which stands for the file system.
use vstd::prelude::*;

use crate::compiled_code::{CodeView, CompiledCode};
use crate::error::RunError;

verus! {

/// The views of a sequence of path/code pairs, in order.
pub open spec fn entry_views(s: Seq<(String, CompiledCode)>) -> Seq<(Seq<char>, CodeView)> {
    Seq::new(s.len(), |i: int| (s[i].0@, s[i].1@))
}

/// The mathematical shape of the registry: the files the loader can
/// supply, and the cache built so far.
#[verifier::ext_equal]
pub struct RegistryView {
    pub sources: Seq<(Seq<char>, CodeView)>,
    pub entries: Seq<(Seq<char>, CodeView)>,
}

/// Whether `table` has an entry for `path`.
pub open spec fn contains_path_spec(table: Seq<(Seq<char>, CodeView)>, path: Seq<char>) -> bool {
    exists|i: int| 0 <= i < table.len() && #[trigger] table[i].0 == path
}

/// The first entry for `path` in `table`, if any.
pub open spec fn find_path(table: Seq<(Seq<char>, CodeView)>, path: Seq<char>) -> Option<CodeView>
    decreases table.len(),
{
    if table.len() == 0 {
        None
    } else if table[0].0 == path {
        Some(table[0].1)
    } else {
        find_path(table.drop_first(), path)
    }
}

/// `find_path` succeeds exactly when `contains_path_spec` holds.
pub proof fn lemma_find_contains(table: Seq<(Seq<char>, CodeView)>, path: Seq<char>)
    ensures
        find_path(table, path) is Some <==> contains_path_spec(table, path),
    decreases table.len(),
{
    if table.len() > 0 && table[0].0 != path {
        lemma_find_contains(table.drop_first(), path);
        assert forall|i: int|
            0 <= i < table.len() && #[trigger] table[i].0 == path implies contains_path_spec(
            table.drop_first(),
            path,
        ) by {
            assert(table.drop_first()[i - 1].0 == path);
        }
    }
}

/// Appending an entry for a path the table lacks makes that entry the one
/// `find_path` yields.
pub proof fn lemma_find_after_insert(
    table: Seq<(Seq<char>, CodeView)>,
    path: Seq<char>,
    code: CodeView,
)
    requires
        !contains_path_spec(table, path),
    ensures
        find_path(table.push((path, code)), path) == Some(code),
    decreases table.len(),
{
    let pushed = table.push((path, code));
    if table.len() == 0 {
        assert(pushed[0].0 == path);
    } else {
        assert(pushed[0] == table[0]);
        assert(table[0].0 != path);
        assert forall|i: int|
            0 <= i < table.drop_first().len() implies #[trigger] table.drop_first()[i].0
            != path by {
            assert(table.drop_first()[i] == table[i + 1]);
        }
        lemma_find_after_insert(table.drop_first(), path, code);
        assert(pushed.drop_first() =~= table.drop_first().push((path, code)));
    }
}

/// What one `get_or_set` call does to the registry: a cached path is
/// returned as is; an uncached but available path is parsed and cached;
/// anything else fails and changes nothing.
pub open spec fn get_or_set_transition(
    pre: RegistryView,
    post: RegistryView,
    path: Seq<char>,
    result: Option<CodeView>,
) -> bool {
    if contains_path_spec(pre.entries, path) {
        post == pre && result == find_path(pre.entries, path)
    } else if contains_path_spec(pre.sources, path) {
        let code = find_path(pre.sources, path).unwrap();
        &&& post.sources == pre.sources
        &&& post.entries == pre.entries.push((path, code))
        &&& result == Some(code)
    } else {
        post == pre && result is None
    }
}

/// Law: once a path is cached, every further `get_or_set` of that path
/// yields the identical compiled unit and leaves the registry unchanged,
/// so the underlying parse happens at most once per path.
pub proof fn lemma_get_or_set_idempotent(
    r0: RegistryView,
    r1: RegistryView,
    r2: RegistryView,
    path: Seq<char>,
    c1: CodeView,
    c2: CodeView,
)
    requires
        get_or_set_transition(r0, r1, path, Some(c1)),
        get_or_set_transition(r1, r2, path, Some(c2)),
    ensures
        c2 == c1,
        r2 == r1,
{
    if contains_path_spec(r0.entries, path) {
        lemma_find_contains(r0.entries, path);
    } else {
        assert(contains_path_spec(r1.entries, path)) by {
            assert(r1.entries[r1.entries.len() - 1].0 == path);
        }
        lemma_find_after_insert(r0.entries, path, c1);
    }
}

/// A path → compiled-code cache.
///
/// Concurrent use is guarded by the embedder's reader/writer lock around
/// the whole registry: lookups share a read section, population takes the
/// exclusive write section, so no caller observes a partial insertion.
pub struct BytecodeFileRegistry {
    /// The compiled form of each bytecode file the loader can supply.
    sources: Vec<(String, CompiledCode)>,
    /// The cache: every file materialized so far.
    entries: Vec<(String, CompiledCode)>,
}

impl View for BytecodeFileRegistry {
    type V = RegistryView;

    closed spec fn view(&self) -> RegistryView {
        RegistryView { sources: entry_views(self.sources@), entries: entry_views(self.entries@) }
    }
}

/// Finds the first entry for `path` in `list`.
fn scan(list: &Vec<(String, CompiledCode)>, path: &String) -> (r: Option<usize>)
    ensures
        match r {
            Some(i) => i < list@.len() && entry_views(list@)[i as int].0 == path@ && forall|j: int|
                0 <= j < i ==> #[trigger] entry_views(list@)[j].0 != path@,
            None => !contains_path_spec(entry_views(list@), path@),
        },
{
    let n = list.len();
    let mut i: usize = 0;
    while i < n
        invariant
            i <= n,
            n == list@.len(),
            forall|j: int| 0 <= j < i ==> #[trigger] entry_views(list@)[j].0 != path@,
        decreases n - i,
    {
        if list[i].0 == *path {
            return Some(i);
        }
        i = i + 1;
    }
    None
}

/// The first match `scan` reports is the one `find_path` yields.
proof fn lemma_scan_find(table: Seq<(Seq<char>, CodeView)>, path: Seq<char>, i: int)
    requires
        0 <= i < table.len(),
        table[i].0 == path,
        forall|j: int| 0 <= j < i ==> #[trigger] table[j].0 != path,
    ensures
        find_path(table, path) == Some(table[i].1),
    decreases i,
{
    if i > 0 {
        assert forall|j: int|
            0 <= j < i - 1 implies #[trigger] table.drop_first()[j].0 != path by {
            assert(table.drop_first()[j] == table[j + 1]);
        }
        assert(table.drop_first()[i - 1] == table[i]);
        lemma_scan_find(table.drop_first(), path, i - 1);
    }
}

impl BytecodeFileRegistry {
    /// A registry over the given loader table, with an empty cache.
    pub fn new(sources: Vec<(String, CompiledCode)>) -> (reg: BytecodeFileRegistry)
        ensures
            reg@.sources == entry_views(sources@),
            reg@.entries.len() == 0,
    {
        let reg = BytecodeFileRegistry { sources, entries: Vec::new() };
        proof {
            assert(entry_views(reg.entries@) =~= Seq::<(Seq<char>, CodeView)>::empty());
        }
        reg
    }

    /// Whether `path` has been materialized into the cache.
    ///
    /// A pure membership check: it never triggers population.
    pub fn contains_path(&self, path: &String) -> (r: bool)
        ensures
            r == contains_path_spec(self@.entries, path@),
    {
        scan(&self.entries, path).is_some()
    }

    /// The compiled code cached for `path`, materializing it on the first
    /// call.
    ///
    /// Succeeds exactly when `path` is already cached or the loader can
    /// supply it; a failed load leaves the registry unchanged for `path`,
    /// so a later call may retry.
    pub fn get_or_set(&mut self, path: &String) -> (r: Result<CompiledCode, RunError>)
        ensures
            match r {
                Ok(code) => get_or_set_transition(old(self)@, final(self)@, path@, Some(code@)),
                Err(e) => e == RunError::LoadError && get_or_set_transition(
                    old(self)@,
                    final(self)@,
                    path@,
                    None,
                ),
            },
    {
        match scan(&self.entries, path) {
            Some(i) => {
                let code = self.entries[i].1.clone();
                proof {
                    lemma_scan_find(entry_views(self.entries@), path@, i as int);
                    assert(contains_path_spec(self@.entries, path@));
                }
                Ok(code)
            },
            None => {
                match scan(&self.sources, path) {
                    Some(i) => {
                        let code = self.sources[i].1.clone();
                        let entry = (path.clone(), code.clone());
                        let ghost pre = self@;
                        self.entries.push(entry);
                        proof {
                            lemma_scan_find(entry_views(self.sources@), path@, i as int);
                            assert(entry_views(self.entries@) =~= pre.entries.push(
                                (path@, code@),
                            ));
                        }
                        Ok(code)
                    },
                    None => Err(RunError::LoadError),
                }
            },
        }
    }
}

} // verus!
