use vstd::prelude::*;

use crate::config::{clone_groups, FolderPreset};
use crate::text::text_eq;
use crate::order::{lemma_str_less_irreflexive, lemma_str_less_total, lemma_str_less_transitive, str_less, str_less_exec};

verus! {

/// A named folder preset.
#[derive(Debug, Clone)]
pub struct PresetEntry {
    pub name: String,
    pub preset: FolderPreset,
}

/// Folder presets by name, kept in ascending name order (the order of a `BTreeMap<String, _>`).
#[derive(Debug)]
pub struct Presets {
    entries: Vec<PresetEntry>,
}

/// Whether the names in `s` are strictly ascending.
pub open spec fn names_ascending(s: Seq<PresetEntry>) -> bool {
    forall|i: int, j: int| 0 <= i < j < s.len() ==> str_less(#[trigger] s[i].name@, #[trigger] s[j].name@)
}

/// Whether some entry of `s` is named `name`.
pub open spec fn has_name(s: Seq<PresetEntry>, name: Seq<char>) -> bool {
    exists|i: int| 0 <= i < s.len() && (#[trigger] s[i]).name@ == name
}

/// A position of an entry named `name` in `s` (meaningful when there is one).
pub open spec fn name_index(s: Seq<PresetEntry>, name: Seq<char>) -> int {
    choose|i: int| 0 <= i < s.len() && (#[trigger] s[i]).name@ == name
}

/// The preset named `name` in `s`, if any.
pub open spec fn lookup(s: Seq<PresetEntry>, name: Seq<char>) -> Option<FolderPreset> {
    if has_name(s, name) {
        Some(s[name_index(s, name)].preset)
    } else {
        None
    }
}

/// In an ascending sequence, no two entries share a name.
pub proof fn lemma_names_unique(s: Seq<PresetEntry>, i: int, j: int)
    requires
        names_ascending(s),
        0 <= i < s.len(),
        0 <= j < s.len(),
        s[i].name@ == s[j].name@,
    ensures
        i == j,
{
    if i < j {
        lemma_str_less_irreflexive(s[i].name@);
    } else if j < i {
        lemma_str_less_irreflexive(s[i].name@);
    }
}

/// In an ascending sequence, the entry at `i` is what its name looks up.
pub proof fn lemma_lookup_at(s: Seq<PresetEntry>, i: int)
    requires
        names_ascending(s),
        0 <= i < s.len(),
    ensures
        lookup(s, s[i].name@) == Some(s[i].preset),
{
    let name = s[i].name@;
    assert(0 <= i < s.len() && (#[trigger] s[i]).name@ == name);
    assert(has_name(s, name));
    let k = name_index(s, name);
    lemma_names_unique(s, i, k);
}

proof fn lemma_replace_lookup(old_s: Seq<PresetEntry>, s: Seq<PresetEntry>, pos: int)
    requires
        names_ascending(old_s),
        names_ascending(s),
        0 <= pos < old_s.len(),
        s.len() == old_s.len(),
        s[pos].name@ == old_s[pos].name@,
        forall|i: int| 0 <= i < s.len() && i != pos ==> s[i] == old_s[i],
    ensures
        forall|k: Seq<char>|
            #[trigger] lookup(s, k) == if k == s[pos].name@ {
                Some(s[pos].preset)
            } else {
                lookup(old_s, k)
            },
        forall|k: Seq<char>| #[trigger] has_name(s, k) == has_name(old_s, k),
{
    assert forall|k: Seq<char>| #[trigger] has_name(s, k) == has_name(old_s, k) by {
        if has_name(s, k) {
            let i = name_index(s, k);
            if i == pos {
                assert(old_s[pos].name@ == k);
            } else {
                assert(old_s[i] == s[i]);
            }
        }
        if has_name(old_s, k) {
            let i = name_index(old_s, k);
            if i == pos {
                assert(s[pos].name@ == k);
            } else {
                assert(old_s[i] == s[i]);
            }
        }
    }
    assert forall|k: Seq<char>|
        #[trigger] lookup(s, k) == if k == s[pos].name@ {
            Some(s[pos].preset)
        } else {
            lookup(old_s, k)
        } by {
        if k == s[pos].name@ {
            lemma_lookup_at(s, pos);
        } else if has_name(old_s, k) {
            let i = name_index(old_s, k);
            lemma_lookup_at(old_s, i);
            assert(i != pos);
            assert(s[i] == old_s[i]);
            lemma_lookup_at(s, i);
        } else {
            assert(!has_name(s, k));
        }
    }
}

proof fn lemma_insert_lookup(old_s: Seq<PresetEntry>, s: Seq<PresetEntry>, pos: int)
    requires
        names_ascending(old_s),
        names_ascending(s),
        0 <= pos <= old_s.len(),
        s == old_s.insert(pos, s[pos]),
    ensures
        forall|k: Seq<char>|
            #[trigger] lookup(s, k) == if k == s[pos].name@ {
                Some(s[pos].preset)
            } else {
                lookup(old_s, k)
            },
        forall|k: Seq<char>|
            #[trigger] has_name(s, k) == (k == s[pos].name@ || has_name(old_s, k)),
{
    assert forall|k: Seq<char>|
        #[trigger] has_name(s, k) == (k == s[pos].name@ || has_name(old_s, k)) by {
        if has_name(s, k) {
            let i = name_index(s, k);
            if i < pos {
                assert(old_s[i] == s[i]);
            } else if i > pos {
                assert(old_s[i - 1] == s[i]);
            }
        }
        if k == s[pos].name@ {
            assert(0 <= pos < s.len() && s[pos].name@ == k);
        } else if has_name(old_s, k) {
            let i = name_index(old_s, k);
            if i < pos {
                assert(old_s[i] == s[i]);
                assert(0 <= i < s.len() && s[i].name@ == k);
            } else {
                assert(old_s[i] == s[i + 1]);
                assert(0 <= i + 1 < s.len() && s[i + 1].name@ == k);
            }
        }
    }
    assert forall|k: Seq<char>|
        #[trigger] lookup(s, k) == if k == s[pos].name@ {
            Some(s[pos].preset)
        } else {
            lookup(old_s, k)
        } by {
        if k == s[pos].name@ {
            lemma_lookup_at(s, pos);
        } else if has_name(old_s, k) {
            let i = name_index(old_s, k);
            lemma_lookup_at(old_s, i);
            if i < pos {
                assert(s[i] == old_s[i]);
                lemma_lookup_at(s, i);
            } else {
                assert(s[i + 1] == old_s[i]);
                lemma_lookup_at(s, i + 1);
            }
        } else {
            assert(!has_name(s, k));
        }
    }
}

impl Presets {
    /// The entries, in ascending name order.
    pub closed spec fn entries(&self) -> Seq<PresetEntry> {
        self.entries@
    }

    #[verifier::type_invariant]
    spec fn ascending(&self) -> bool {
        names_ascending(self.entries@)
    }

    /// No presets.
    pub fn new() -> (r: Self)
        ensures
            r.entries().len() == 0,
    {
        Presets { entries: Vec::new() }
    }

    /// Number of presets. (The entries are always in strictly ascending name order.)
    pub fn len(&self) -> (r: usize)
        ensures
            r == self.entries().len(),
            names_ascending(self.entries()),
    {
        proof {
            use_type_invariant(self);
        }
        self.entries.len()
    }

    /// The entry at position `index` in name order.
    pub fn entry(&self, index: usize) -> (r: &PresetEntry)
        requires
            index < self.entries().len(),
        ensures
            *r == self.entries()[index as int],
    {
        &self.entries[index]
    }

    /// Position of the preset named `name`, if there is one.
    pub fn position(&self, name: &str) -> (r: Option<usize>)
        ensures
            match r {
                Some(i) => i < self.entries().len() && self.entries()[i as int].name@ == name@,
                None => !has_name(self.entries(), name@),
            },
            names_ascending(self.entries()),
    {
        proof {
            use_type_invariant(self);
        }
        let mut i: usize = 0;
        while i < self.entries.len()
            invariant
                i <= self.entries@.len(),
                forall|j: int| 0 <= j < i ==> (#[trigger] self.entries@[j]).name@ != name@,
                names_ascending(self.entries()),
            decreases self.entries@.len() - i,
        {
            if text_eq(self.entries[i].name.as_str(), name) {
                return Some(i);
            }
            i += 1;
        }
        None
    }

    /// Whether a preset named `name` exists.
    pub fn contains_key(&self, name: &str) -> (r: bool)
        ensures
            r == has_name(self.entries(), name@),
    {
        self.position(name).is_some()
    }

    /// The preset named `name`, if any.
    pub fn get(&self, name: &str) -> (r: Option<&FolderPreset>)
        ensures
            match r {
                Some(p) => lookup(self.entries(), name@) == Some(*p),
                None => lookup(self.entries(), name@) is None,
            },
    {
        proof {
            use_type_invariant(self);
        }
        match self.position(name) {
            Some(i) => {
                proof {
                    lemma_lookup_at(self.entries@, i as int);
                }
                Some(&self.entries[i].preset)
            },
            None => None,
        }
    }

    /// Replaces the preset at position `index`, keeping its name.
    pub fn set_preset(&mut self, index: usize, preset: FolderPreset)
        requires
            index < old(self).entries().len(),
        ensures
            final(self).entries() == old(self).entries().update(
                index as int,
                PresetEntry { name: old(self).entries()[index as int].name, preset },
            ),
    {
        proof {
            use_type_invariant(&*self);
        }
        let name = self.entries[index].name.clone();
        let mut entries: Vec<PresetEntry> = Vec::new();
        std::mem::swap(&mut entries, &mut self.entries);
        assert(names_ascending(entries@));
        entries.set(index, PresetEntry { name, preset });
        assert(names_ascending(entries@)) by {
            assert forall|i: int, j: int| 0 <= i < j < entries@.len() implies str_less(
                #[trigger] entries@[i].name@,
                #[trigger] entries@[j].name@,
            ) by {
                assert(entries@[i].name@ == old(self).entries()[i].name@);
                assert(entries@[j].name@ == old(self).entries()[j].name@);
            }
        }
        self.entries = entries;
    }

    /// Binds the preset at position `index` to `hotkey`, leaving its folders as they are.
    pub fn set_hotkey(&mut self, index: usize, hotkey: Option<u8>)
        requires
            index < old(self).entries().len(),
        ensures
            final(self).entries().len() == old(self).entries().len(),
            forall|i: int|
                0 <= i < old(self).entries().len() && i != index ==> #[trigger] final(self).entries()[i] == old(self).entries()[i],
            final(self).entries()[index as int].name == old(self).entries()[index as int].name,
            final(self).entries()[index as int].preset.mp4_folder_paths.deep_view() == old(self).entries()[index as int].preset.mp4_folder_paths.deep_view(),
            final(self).entries()[index as int].preset.mp3_folder_path@ == old(self).entries()[index as int].preset.mp3_folder_path@,
            final(self).entries()[index as int].preset.hotkey == hotkey,
    {
        let groups = clone_groups(&self.entries[index].preset.mp4_folder_paths);
        let mp3 = self.entries[index].preset.mp3_folder_path.clone();
        self.set_preset(index, FolderPreset { mp4_folder_paths: groups, mp3_folder_path: mp3, hotkey });
    }

    /// Adds or replaces the preset named `name`, keeping the names in ascending order.
    pub fn insert(&mut self, name: String, preset: FolderPreset)
        ensures
            names_ascending(final(self).entries()),
            forall|k: Seq<char>|
                #[trigger] lookup(final(self).entries(), k) == if k == name@ {
                    Some(preset)
                } else {
                    lookup(old(self).entries(), k)
                },
            forall|k: Seq<char>|
                #[trigger] has_name(final(self).entries(), k) == (k == name@ || has_name(
                    old(self).entries(),
                    k,
                )),
    {
        proof {
            use_type_invariant(&*self);
        }
        let mut entries: Vec<PresetEntry> = Vec::new();
        std::mem::swap(&mut entries, &mut self.entries);
        let ghost old_entries = entries@;
        let mut pos: usize = 0;
        while pos < entries.len() && str_less_exec(entries[pos].name.as_str(), name.as_str())
            invariant
                entries@ == old_entries,
                names_ascending(old_entries),
                pos <= entries.len(),
                forall|j: int| 0 <= j < pos ==> str_less(#[trigger] old_entries[j].name@, name@),
            decreases entries.len() - pos,
        {
            pos += 1;
        }
        if pos < entries.len() && entries[pos].name == name {
            entries.set(pos, PresetEntry { name, preset });
            proof {
                let s = entries@;
                assert(names_ascending(s)) by {
                    assert forall|i: int, j: int| 0 <= i < j < s.len() implies str_less(
                        #[trigger] s[i].name@,
                        #[trigger] s[j].name@,
                    ) by {
                        assert(s[i].name@ == old_entries[i].name@);
                        assert(s[j].name@ == old_entries[j].name@);
                    }
                }
                lemma_replace_lookup(old_entries, s, pos as int);
            }
        } else {
            proof {
                if pos < old_entries.len() {
                    lemma_str_less_total(old_entries[pos as int].name@, name@);
                }
            }
            entries.insert(pos, PresetEntry { name, preset });
            proof {
                let s = entries@;
                assert(names_ascending(s)) by {
                    assert forall|i: int, j: int| 0 <= i < j < s.len() implies str_less(
                        #[trigger] s[i].name@,
                        #[trigger] s[j].name@,
                    ) by {
                        if j < pos {
                        } else if j == pos {
                        } else if i == pos {
                            if j - 1 > pos {
                                lemma_str_less_transitive(s[i].name@, old_entries[pos as int].name@, old_entries[j - 1].name@);
                            }
                        } else if i < pos {
                            assert(s[j] == old_entries[j - 1]);
                        } else {
                            assert(s[i] == old_entries[i - 1]);
                            assert(s[j] == old_entries[j - 1]);
                        }
                    }
                }
                lemma_insert_lookup(old_entries, s, pos as int);
            }
        }
        self.entries = entries;
    }

    /// Removes the preset named `name`, returning it if it was there.
    pub fn remove(&mut self, name: &str) -> (r: Option<FolderPreset>)
        ensures
            r == lookup(old(self).entries(), name@),
            names_ascending(final(self).entries()),
            forall|k: Seq<char>|
                #[trigger] lookup(final(self).entries(), k) == if k == name@ {
                    None
                } else {
                    lookup(old(self).entries(), k)
                },
            forall|k: Seq<char>|
                #[trigger] has_name(final(self).entries(), k) == (k != name@ && has_name(
                    old(self).entries(),
                    k,
                )),
    {
        proof {
            use_type_invariant(&*self);
        }
        match self.position(name) {
            None => {
                assert forall|k: Seq<char>| #[trigger] lookup(self.entries(), k) == if k == name@ {
                    None
                } else {
                    lookup(old(self).entries(), k)
                } by {}
                None
            },
            Some(pos) => {
                proof {
                    lemma_lookup_at(self.entries@, pos as int);
                }
                let mut entries: Vec<PresetEntry> = Vec::new();
                std::mem::swap(&mut entries, &mut self.entries);
                let ghost old_entries = entries@;
                let removed = entries.remove(pos);
                proof {
                    let s = entries@;
                    assert(old_entries == s.insert(pos as int, old_entries[pos as int])) by {
                        assert(old_entries =~= s.insert(pos as int, old_entries[pos as int]));
                    }
                    assert(names_ascending(s)) by {
                        assert forall|i: int, j: int| 0 <= i < j < s.len() implies str_less(
                            #[trigger] s[i].name@,
                            #[trigger] s[j].name@,
                        ) by {
                            let oi = if i < pos { i } else { i + 1 };
                            let oj = if j < pos { j } else { j + 1 };
                            assert(s[i] == old_entries[oi]);
                            assert(s[j] == old_entries[oj]);
                        }
                    }
                    lemma_insert_lookup(s, old_entries, pos as int);
                    assert forall|k: Seq<char>|
                        #[trigger] lookup(s, k) == if k == name@ {
                            None
                        } else {
                            lookup(old_entries, k)
                        } by {
                        if k == name@ {
                            if has_name(s, k) {
                                let i = name_index(s, k);
                                let oi = if i < pos { i } else { i + 1 };
                                assert(s[i] == old_entries[oi]);
                                lemma_names_unique(old_entries, oi, pos as int);
                            }
                        }
                    }
                }
                self.entries = entries;
                Some(removed.preset)
            },
        }
    }
}

} // verus!
