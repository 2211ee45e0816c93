//! The layered configuration aggregate.
//!
//! A [`ConfigSet`] merges the entries of zero or more configuration sources,
//! in the order the sources are added; for a key present in several sources
//! the most recently merged source wins. Typed lookups read the merged view:
//! a key that no source defined, or whose text an integer cannot be read
//! from, is reported as absent, never as an error. Parsing a source file
//! into its entries is the job of an external engine; the aggregate receives
//! each source as its path together with the entries that were parsed from
//! it, already in file order.

use vstd::prelude::*;

use crate::intparse::{config_int_of, parse_config_int};
use crate::text::contains_nul;

verus! {

/// One key/value pair of a configuration source, in the order the engine
/// parsed it.
pub struct Entry {
    pub key: String,
    pub value: String,
}

/// The mathematical content of an [`Entry`].
#[verifier::ext_equal]
pub struct EntryView {
    pub key: Seq<char>,
    pub value: Seq<char>,
}

impl View for Entry {
    type V = EntryView;

    open spec fn view(&self) -> EntryView {
        EntryView { key: self.key@, value: self.value@ }
    }
}

/// One configuration source: the path it was read from, and the entries the
/// external engine parsed out of it, in file order.
pub struct SourceFile {
    pub path: String,
    pub entries: Vec<Entry>,
}

/// The mathematical content of a [`SourceFile`].
#[verifier::ext_equal]
pub struct SourceFileView {
    pub path: Seq<char>,
    pub entries: Seq<EntryView>,
}

impl View for SourceFile {
    type V = SourceFileView;

    open spec fn view(&self) -> SourceFileView {
        SourceFileView { path: self.path@, entries: self.entries@.map_values(|e: Entry| e@) }
    }
}

/// Why an operation on the aggregate failed. A missing key is not an error:
/// lookups report absence through `Option`.
#[derive(Debug)]
pub enum ConfigError {
    /// A supplied path or key cannot be represented as a NUL-terminated
    /// text buffer: it contains an embedded NUL character. `text` is the
    /// offending path or key.
    Encoding { text: String },
    /// The external engine could not allocate its aggregate object.
    /// Produced only at the engine boundary, never by the verified core.
    Alloc,
    /// The external engine rejected the source at `path` as malformed.
    /// Produced only at the engine boundary, never by the verified core.
    Parse { path: String },
}

/// The merged value of `key`: the value of the last entry whose key equals
/// `key`, over all entries in merge order, or `None` if no entry has it.
pub open spec fn lookup(entries: Seq<EntryView>, key: Seq<char>) -> Option<Seq<char>>
    decreases entries.len(),
{
    if entries.len() == 0 {
        None
    } else if entries.last().key == key {
        Some(entries.last().value)
    } else {
        lookup(entries.drop_last(), key)
    }
}

/// True when some entry defines `key`.
pub open spec fn contains_key(entries: Seq<EntryView>, key: Seq<char>) -> bool {
    exists|i: int| 0 <= i < entries.len() && entries[i].key == key
}

/// The merged value of `key` read as an integer, under the coercion rules
/// of [`config_int_of`]; `None` both when the key is absent and when its
/// text is not an integer.
pub open spec fn int_lookup(entries: Seq<EntryView>, key: Seq<char>) -> Option<i64> {
    match lookup(entries, key) {
        Some(v) => config_int_of(v),
        None => None,
    }
}

/// All entries of `files`, concatenated in merge order.
pub open spec fn flatten_sources(files: Seq<SourceFileView>) -> Seq<EntryView>
    decreases files.len(),
{
    if files.len() == 0 {
        Seq::empty()
    } else {
        flatten_sources(files.drop_last()) + files.last().entries
    }
}

/// The paths of `files`, in order.
pub open spec fn paths_of(files: Seq<SourceFileView>) -> Seq<Seq<char>> {
    files.map_values(|f: SourceFileView| f.path)
}

/// A merged view over an ordered list of configuration sources.
///
/// The aggregate is created empty, grows only by [`ConfigSet::add_files`],
/// answers lookups without mutation, and is torn down exactly once, by
/// [`ConfigSet::release`] or by going out of scope.
pub struct ConfigSet {
    entries: Vec<Entry>,
    sources: Vec<String>,
}

/// The mathematical content of a [`ConfigSet`]: its merged entries and the
/// paths of the sources merged so far, both in merge order.
#[verifier::ext_equal]
pub struct ConfigSetView {
    pub entries: Seq<EntryView>,
    pub sources: Seq<Seq<char>>,
}

impl View for ConfigSet {
    type V = ConfigSetView;

    closed spec fn view(&self) -> ConfigSetView {
        ConfigSetView {
            entries: self.entries@.map_values(|e: Entry| e@),
            sources: self.sources@.map_values(|s: String| s@),
        }
    }
}

impl ConfigSet {
    /// A new, empty aggregate: no entries, no sources.
    pub fn new() -> (r: ConfigSet)
        ensures
            r@.entries == Seq::<EntryView>::empty(),
            r@.sources == Seq::<Seq<char>>::empty(),
    {
        let r = ConfigSet { entries: Vec::new(), sources: Vec::new() };
        proof {
            assert(r@.entries =~= Seq::<EntryView>::empty());
            assert(r@.sources =~= Seq::<Seq<char>>::empty());
        }
        r
    }

    /// Merges `files` into the aggregate, in order, each file as one atomic
    /// step. A path with an embedded NUL fails with an `Encoding` error
    /// naming it; the files before it stay merged, the failing file and
    /// everything after it are not merged at all.
    pub fn add_files(&mut self, files: &Vec<SourceFile>) -> (r: Result<(), ConfigError>)
        ensures
            match r {
                Ok(()) => {
                    &&& forall|i: int|
                        0 <= i < files@.len() ==> !(#[trigger] files@[i])@.path.contains('\0')
                    &&& final(self)@.entries == old(self)@.entries + flatten_sources(
                        files@.map_values(|f: SourceFile| f@),
                    )
                    &&& final(self)@.sources == old(self)@.sources + paths_of(
                        files@.map_values(|f: SourceFile| f@),
                    )
                },
                Err(e) => exists|i: int|
                    {
                        &&& 0 <= i < files@.len()
                        &&& (#[trigger] files@[i])@.path.contains('\0')
                        &&& forall|j: int| 0 <= j < i ==> !(#[trigger] files@[j])@.path.contains(
                            '\0',
                        )
                        &&& final(self)@.entries == old(self)@.entries + flatten_sources(
                            files@.map_values(|f: SourceFile| f@).take(i),
                        )
                        &&& final(self)@.sources == old(self)@.sources + paths_of(
                            files@.map_values(|f: SourceFile| f@).take(i),
                        )
                        &&& e matches ConfigError::Encoding { text } && text@ == files@[i]@.path
                    },
            },
    {
        let ghost fviews = files@.map_values(|f: SourceFile| f@);
        let ghost entries0 = self@.entries;
        let ghost sources0 = self@.sources;
        let mut i: usize = 0;
        proof {
            assert(self@.entries =~= entries0 + flatten_sources(fviews.take(0)));
            assert(self@.sources =~= sources0 + paths_of(fviews.take(0)));
        }
        while i < files.len()
            invariant
                0 <= i <= files.len(),
                fviews == files@.map_values(|f: SourceFile| f@),
                entries0 == old(self)@.entries,
                sources0 == old(self)@.sources,
                forall|j: int| 0 <= j < i ==> !(#[trigger] files@[j])@.path.contains('\0'),
                self@.entries == entries0 + flatten_sources(fviews.take(i as int)),
                self@.sources == sources0 + paths_of(fviews.take(i as int)),
            decreases files.len() - i,
        {
            let file = &files[i];
            if contains_nul(file.path.as_str()) {
                proof {
                    assert(fviews[i as int] == files@[i as int]@);
                    assert(files@[i as int]@.path.contains('\0'));
                }
                return Err(ConfigError::Encoding { text: file.path.clone() });
            }
            let ghost pre_entries = self@.entries;
            let mut j: usize = 0;
            proof {
                assert(self@.entries =~= pre_entries + fviews[i as int].entries.take(0));
            }
            while j < file.entries.len()
                invariant
                    0 <= j <= file.entries.len(),
                    fviews == files@.map_values(|f: SourceFile| f@),
                    entries0 == old(self)@.entries,
                    sources0 == old(self)@.sources,
                    0 <= i < files.len(),
                    file == &files[i as int],
                    forall|t: int| 0 <= t <= i ==> !(#[trigger] files@[t])@.path.contains('\0'),
                    pre_entries == entries0 + flatten_sources(fviews.take(i as int)),
                    self@.entries == pre_entries + fviews[i as int].entries.take(j as int),
                    self@.sources == sources0 + paths_of(fviews.take(i as int)),
                decreases file.entries.len() - j,
            {
                let e = &file.entries[j];
                let copied = Entry { key: e.key.clone(), value: e.value.clone() };
                let ghost before = self@.entries;
                self.entries.push(copied);
                proof {
                    assert(self@.entries =~= before.push(e@));
                    assert(fviews[i as int].entries.take(j + 1) =~= fviews[
                        i as int
                    ].entries.take(j as int).push(fviews[i as int].entries[j as int]));
                    assert(fviews[i as int].entries[j as int] == e@);
                }
                j += 1;
            }
            let ghost before_src = self@.sources;
            self.sources.push(file.path.clone());
            proof {
                assert(fviews[i as int].entries.take(fviews[i as int].entries.len() as int)
                    =~= fviews[i as int].entries);
                assert(fviews.take(i + 1).drop_last() =~= fviews.take(i as int));
                assert(flatten_sources(fviews.take(i + 1)) == flatten_sources(
                    fviews.take(i as int),
                ) + fviews[i as int].entries);
                assert(self@.entries =~= entries0 + flatten_sources(fviews.take(i + 1)));
                assert(self@.sources =~= before_src.push(file.path@));
                assert(paths_of(fviews.take(i + 1)) =~= paths_of(fviews.take(i as int)).push(
                    fviews[i as int].path,
                ));
                assert(self@.sources =~= sources0 + paths_of(fviews.take(i + 1)));
            }
            i += 1;
        }
        proof {
            assert(fviews.take(files@.len() as int) =~= fviews);
        }
        Ok(())
    }

    /// The merged value of `key`, borrowed from the aggregate's storage:
    /// the value of the last entry whose key equals `key`, or `None`.
    fn lookup_value(&self, key: &str) -> (r: Option<&String>)
        ensures
            match r {
                Some(v) => lookup(self@.entries, key@) == Some(v@),
                None => lookup(self@.entries, key@) is None,
            },
    {
        let k: String = key.to_owned();
        let mut i: usize = self.entries.len();
        proof {
            assert(self@.entries.take(i as int) =~= self@.entries);
        }
        while i > 0
            invariant
                0 <= i <= self.entries.len(),
                k@ == key@,
                lookup(self@.entries, key@) == lookup(self@.entries.take(i as int), key@),
            decreases i,
        {
            let e = &self.entries[i - 1];
            proof {
                assert(self@.entries.take(i as int).last() == e@);
            }
            if e.key == k {
                return Some(&e.value);
            }
            proof {
                assert(self@.entries.take(i as int).drop_last() =~= self@.entries.take(
                    i - 1,
                ));
            }
            i -= 1;
        }
        proof {
            assert(self@.entries.take(0) =~= Seq::<EntryView>::empty());
        }
        None
    }

    /// The merged value of `key` read as an integer. Absence — the key in
    /// no source, or its text not an integer under [`config_int_of`] — is
    /// `Ok(None)`; a key with an embedded NUL is an `Encoding` error
    /// naming it. The aggregate is not changed.
    pub fn get_int(&self, key: &str) -> (r: Result<Option<i64>, ConfigError>)
        ensures
            match r {
                Ok(opt) => !key@.contains('\0') && opt == int_lookup(self@.entries, key@),
                Err(e) => key@.contains('\0') && (e matches ConfigError::Encoding { text }
                    && text@ == key@),
            },
    {
        if contains_nul(key) {
            return Err(ConfigError::Encoding { text: key.to_owned() });
        }
        match self.lookup_value(key) {
            Some(v) => Ok(parse_config_int(v.as_str())),
            None => Ok(None),
        }
    }

    /// A fresh, independently owned copy of the merged value of `key`, or
    /// `Ok(None)` if no source defines it; a key with an embedded NUL is an
    /// `Encoding` error naming it. The aggregate is not changed, and the
    /// returned copy has no tie to its storage.
    pub fn get_string(&self, key: &str) -> (r: Result<Option<String>, ConfigError>)
        ensures
            match r {
                Ok(opt) => !key@.contains('\0') && (match opt {
                    Some(v) => lookup(self@.entries, key@) == Some(v@),
                    None => lookup(self@.entries, key@) is None,
                }),
                Err(e) => key@.contains('\0') && (e matches ConfigError::Encoding { text }
                    && text@ == key@),
            },
    {
        if contains_nul(key) {
            return Err(ConfigError::Encoding { text: key.to_owned() });
        }
        match self.lookup_value(key) {
            Some(v) => Ok(Some(v.clone())),
            None => Ok(None),
        }
    }

    /// The paths of the sources merged so far, in merge order, kept for
    /// diagnostics. The aggregate is not changed.
    pub fn source_paths(&self) -> (r: &Vec<String>)
        ensures
            r@.map_values(|s: String| s@) == self@.sources,
    {
        &self.sources
    }

    /// Releases the aggregate. Ownership is consumed, so after this call
    /// every further operation on the value is rejected at compile time;
    /// the release happens exactly once.
    pub fn release(self) {
    }
}

impl Default for ConfigSet {
    /// The same empty aggregate as [`ConfigSet::new`].
    fn default() -> (r: ConfigSet)
        ensures
            r@.entries == Seq::<EntryView>::empty(),
            r@.sources == Seq::<Seq<char>>::empty(),
    {
        ConfigSet::new()
    }
}

} // verus!
