use vstd::prelude::*;

use crate::config::{
    law_supported_hotkeys_are_the_offered_keys, PRESET_FUNCTION_KEYS,
    law_normalize_groups_idempotent, law_normalized_groups_shape, NUM_GROUPS,
    clone_groups, empty_folder_groups, empty_groups_spec, groups_equal, is_preset_function_key,
    normalize_folder_groups, normalize_groups_spec, supports_preset_hotkey, FolderPreset,
};
use crate::presets::{
    has_name, lemma_lookup_at, lemma_names_unique, lookup, name_index, names_ascending, PresetEntry, Presets,
};
use crate::text::{is_blank, is_blank_spec, text_eq, trim, trim_spec};

verus! {

/// The persisted settings that the application's logic reads. (Volume and the multiview tile
/// size are floating-point values; they travel beside this type.)
#[derive(Debug)]
pub struct AppSettings {
    pub mp4_folder_paths: Vec<Vec<String>>,
    pub mp3_folder_path: String,
    pub multiview_enabled: bool,
    pub numpad_folder_switching: bool,
    pub presets: Presets,
    pub active_preset: Option<String>,
}

impl Default for AppSettings {
    fn default() -> (r: Self)
        ensures
            r.mp4_folder_paths.deep_view() == empty_groups_spec(),
            r.mp3_folder_path@ == Seq::<char>::empty(),
            !r.multiview_enabled,
            !r.numpad_folder_switching,
            r.presets.entries().len() == 0,
            r.active_preset is None,
    {
        AppSettings {
            mp4_folder_paths: empty_folder_groups(),
            mp3_folder_path: String::new(),
            multiview_enabled: false,
            numpad_folder_switching: false,
            presets: Presets::new(),
            active_preset: None,
        }
    }
}

/// The hotkey that normalization leaves on entry `i`: a supported key that no earlier entry
/// (in name order) was bound to; anything else is cleared.
pub open spec fn kept_hotkey(s: Seq<PresetEntry>, i: int) -> Option<u8> {
    match s[i].preset.hotkey {
        Some(key) => if is_preset_function_key(key) && forall|j: int|
            0 <= j < i ==> (#[trigger] s[j]).preset.hotkey != Some(key) {
            Some(key)
        } else {
            None
        },
        None => None,
    }
}

/// Entry `new` is entry `old` normalized at position `i` of `s` (the entries before
/// normalization).
pub open spec fn normalized_entry(s: Seq<PresetEntry>, i: int, new: PresetEntry) -> bool {
    &&& new.name == s[i].name
    &&& new.preset.mp4_folder_paths.deep_view() == normalize_groups_spec(
        s[i].preset.mp4_folder_paths.deep_view(),
    )
    &&& new.preset.mp3_folder_path@ == s[i].preset.mp3_folder_path@
    &&& new.preset.hotkey == kept_hotkey(s, i)
}

/// Every hotkey bound in `s` is a supported function key, and no key is bound to two presets.
pub open spec fn hotkeys_consistent(s: Seq<PresetEntry>) -> bool {
    &&& forall|i: int|
        0 <= i < s.len() ==> ((#[trigger] s[i]).preset.hotkey matches Some(k) ==> is_preset_function_key(k))
    &&& forall|i: int, j: int|
        0 <= i < j < s.len() && (#[trigger] s[i]).preset.hotkey is Some ==> s[i].preset.hotkey
            != (#[trigger] s[j]).preset.hotkey
}

/// [`hotkeys_consistent`], said of the presets looked up by name.
spec fn hotkeys_consistent_by_name(s: Seq<PresetEntry>) -> bool {
    &&& forall|k: Seq<char>|
        #![trigger lookup(s, k)]
        lookup(s, k) is Some && lookup(s, k)->0.hotkey is Some ==> is_preset_function_key(
            lookup(s, k)->0.hotkey->0,
        )
    &&& forall|k1: Seq<char>, k2: Seq<char>|
        #![trigger lookup(s, k1), lookup(s, k2)]
        k1 != k2 && lookup(s, k1) is Some && lookup(s, k2) is Some && lookup(s, k1)->0.hotkey is Some
            ==> lookup(s, k1)->0.hotkey != lookup(s, k2)->0.hotkey
}

proof fn lemma_consistent_by_name(s: Seq<PresetEntry>)
    requires
        hotkeys_consistent(s),
    ensures
        hotkeys_consistent_by_name(s),
{
    assert forall|k: Seq<char>|
        lookup(s, k) is Some && lookup(s, k)->0.hotkey is Some implies is_preset_function_key(
            lookup(s, k)->0.hotkey->0,
        ) by {
        let i = name_index(s, k);
        assert(s[i].preset == lookup(s, k)->0);
    }
    assert forall|k1: Seq<char>, k2: Seq<char>|
        k1 != k2 && lookup(s, k1) is Some && lookup(s, k2) is Some && lookup(s, k1)->0.hotkey is Some implies
        lookup(s, k1)->0.hotkey != lookup(s, k2)->0.hotkey by {
        let i1 = name_index(s, k1);
        let i2 = name_index(s, k2);
        assert(s[i1].name@ == k1);
        assert(s[i2].name@ == k2);
        if i1 < i2 {
            assert(s[i1].preset.hotkey != s[i2].preset.hotkey);
        } else if i2 < i1 {
            if s[i2].preset.hotkey is Some {
                assert(s[i2].preset.hotkey != s[i1].preset.hotkey);
            }
        }
    }
}

proof fn lemma_consistent_by_index(s: Seq<PresetEntry>)
    requires
        names_ascending(s),
        hotkeys_consistent_by_name(s),
    ensures
        hotkeys_consistent(s),
{
    assert forall|i: int|
        0 <= i < s.len() implies ((#[trigger] s[i]).preset.hotkey matches Some(k) ==> is_preset_function_key(k)) by {
        lemma_lookup_at(s, i);
        assert(lookup(s, s[i].name@) == Some(s[i].preset));
    }
    assert forall|i: int, j: int|
        0 <= i < j < s.len() && (#[trigger] s[i]).preset.hotkey is Some implies s[i].preset.hotkey
        != (#[trigger] s[j]).preset.hotkey by {
        lemma_lookup_at(s, i);
        lemma_lookup_at(s, j);
        if s[i].name@ == s[j].name@ {
            lemma_names_unique(s, i, j);
        }
        assert(lookup(s, s[i].name@) == Some(s[i].preset));
        assert(lookup(s, s[j].name@) == Some(s[j].preset));
    }
}

proof fn lemma_kept_hotkeys_consistent(s: Seq<PresetEntry>, t: Seq<PresetEntry>)
    requires
        t.len() == s.len(),
        forall|i: int| 0 <= i < s.len() ==> (#[trigger] t[i]).preset.hotkey == kept_hotkey(s, i),
    ensures
        hotkeys_consistent(t),
{
    assert forall|i: int, j: int|
        0 <= i < j < t.len() && (#[trigger] t[i]).preset.hotkey is Some implies t[i].preset.hotkey
        != (#[trigger] t[j]).preset.hotkey by {
        assert(t[i].preset.hotkey == kept_hotkey(s, i));
        assert(t[j].preset.hotkey == kept_hotkey(s, j));
    }
    assert forall|i: int|
        0 <= i < t.len() implies ((#[trigger] t[i]).preset.hotkey matches Some(k) ==> is_preset_function_key(k)) by {
        assert(t[i].preset.hotkey == kept_hotkey(s, i));
    }
}

/// The active preset after normalization: kept only when a preset of that name exists.
pub open spec fn kept_active(active: Option<String>, s: Seq<PresetEntry>) -> Option<String> {
    match active {
        Some(name) => if has_name(s, name@) {
            Some(name)
        } else {
            None
        },
        None => None,
    }
}

/// `after` is `before` normalized: folder groups normalized, other fields kept, each preset
/// normalized in place, and the active preset kept only when a preset of that name exists.
pub open spec fn is_normalization(before: AppSettings, after: AppSettings) -> bool {
    &&& after.mp4_folder_paths.deep_view() == normalize_groups_spec(before.mp4_folder_paths.deep_view())
    &&& after.mp3_folder_path == before.mp3_folder_path
    &&& after.multiview_enabled == before.multiview_enabled
    &&& after.numpad_folder_switching == before.numpad_folder_switching
    &&& after.presets.entries().len() == before.presets.entries().len()
    &&& forall|i: int|
        0 <= i < before.presets.entries().len() ==> normalized_entry(
            before.presets.entries(),
            i,
            #[trigger] after.presets.entries()[i],
        )
    &&& after.active_preset == kept_active(before.active_preset, before.presets.entries())
}

/// Whether preset `p` holds exactly the given folders.
pub open spec fn preset_matches(p: FolderPreset, groups: Seq<Seq<Seq<char>>>, mp3: Seq<char>) -> bool {
    p.mp4_folder_paths.deep_view() == groups && p.mp3_folder_path@ == mp3
}

/// Whether `groups` has a first folder in its first group.
pub open spec fn has_first_folder(groups: Seq<Seq<Seq<char>>>) -> bool {
    groups.len() > 0 && groups[0].len() > 0
}

/// The list of supported hotkeys bound to entries `0..i` of `s`, as a set.
spec fn used_hotkeys(s: Seq<PresetEntry>, i: int) -> Set<u8> {
    Set::new(
        |k: u8|
            is_preset_function_key(k) && exists|j: int|
                0 <= j < i && (#[trigger] s[j]).preset.hotkey == Some(k),
    )
}

proof fn lemma_used_step(s: Seq<PresetEntry>, i: int, before: Seq<u8>, after: Seq<u8>)
    requires
        0 <= i < s.len(),
        forall|k: u8| #[trigger] before.contains(k) == used_hotkeys(s, i).contains(k),
        after == (if s[i].preset.hotkey is Some && is_preset_function_key(s[i].preset.hotkey->0)
            && !before.contains(s[i].preset.hotkey->0) {
            before.push(s[i].preset.hotkey->0)
        } else {
            before
        }),
    ensures
        forall|k: u8| #[trigger] after.contains(k) == used_hotkeys(s, i + 1).contains(k),
{
    assert forall|k: u8| #[trigger] after.contains(k) == used_hotkeys(s, i + 1).contains(k) by {
        if used_hotkeys(s, i + 1).contains(k) {
            let j = choose|j: int| 0 <= j < i + 1 && (#[trigger] s[j]).preset.hotkey == Some(k);
            if j < i {
                assert(used_hotkeys(s, i).contains(k));
                assert(before.contains(k));
                let m = choose|m: int| 0 <= m < before.len() && before[m] == k;
                if after != before {
                    assert(after[m] == k);
                }
            } else {
                if before.contains(k) {
                    let m = choose|m: int| 0 <= m < before.len() && before[m] == k;
                    if after != before {
                        assert(after[m] == k);
                    }
                } else {
                    assert(after[before.len() as int] == k);
                }
            }
        }
        if after.contains(k) {
            let m = choose|m: int| 0 <= m < after.len() && after[m] == k;
            if m < before.len() {
                assert(before[m] == k);
                assert(before.contains(k));
                let j = choose|j: int| 0 <= j < i && (#[trigger] s[j]).preset.hotkey == Some(k);
                assert(0 <= j < i + 1 && s[j].preset.hotkey == Some(k));
            } else {
                assert(s[i].preset.hotkey == Some(k));
                assert(0 <= i < i + 1 && s[i].preset.hotkey == Some(k));
            }
        }
    }
}

impl AppSettings {
    /// Brings the settings to the shape the application relies on: the folder groups and every
    /// preset's groups normalized, hotkeys kept only where supported and first in name order,
    /// and the active preset cleared when no preset of that name exists.
    pub fn normalize(&mut self)
        ensures
            is_normalization(*old(self), *final(self)),
    {
        let mut groups: Vec<Vec<String>> = Vec::new();
        std::mem::swap(&mut groups, &mut self.mp4_folder_paths);
        self.mp4_folder_paths = normalize_folder_groups(groups);

        let ghost s = self.presets.entries();
        let n = self.presets.len();
        let mut used: Vec<u8> = Vec::new();
        let mut i: usize = 0;
        while i < n
            invariant
                n == s.len(),
                i <= n,
                self.presets.entries().len() == n,
                forall|j: int|
                    0 <= j < i ==> normalized_entry(s, j, #[trigger] self.presets.entries()[j]),
                forall|j: int| i <= j < n ==> #[trigger] self.presets.entries()[j] == s[j],
                forall|k: u8| #[trigger] used@.contains(k) == used_hotkeys(s, i as int).contains(k),
                self.mp4_folder_paths.deep_view() == normalize_groups_spec(
                    old(self).mp4_folder_paths.deep_view(),
                ),
                self.mp3_folder_path == old(self).mp3_folder_path,
                self.multiview_enabled == old(self).multiview_enabled,
                self.numpad_folder_switching == old(self).numpad_folder_switching,
                self.active_preset == old(self).active_preset,
                s == old(self).presets.entries(),
            decreases n - i,
        {
            let ghost used_before = used@;
            let entry = self.presets.entry(i);
            let groups = normalize_folder_groups(clone_groups(&entry.preset.mp4_folder_paths));
            let mp3 = entry.preset.mp3_folder_path.clone();
            let hotkey = match entry.preset.hotkey {
                Some(key) => {
                    if supports_preset_hotkey(key) && !contains_u8(&used, key) {
                        used.push(key);
                        Some(key)
                    } else {
                        None
                    }
                },
                None => None,
            };
            proof {
                assert(hotkey == kept_hotkey(s, i as int)) by {
                    if let Some(key) = s[i as int].preset.hotkey {
                        if is_preset_function_key(key) {
                            if used_hotkeys(s, i as int).contains(key) {
                                let j = choose|j: int|
                                    0 <= j < i && (#[trigger] s[j]).preset.hotkey == Some(key);
                                assert(s[j].preset.hotkey == Some(key));
                            }
                        }
                    }
                }
            }
            self.presets.set_preset(
                i,
                FolderPreset { mp4_folder_paths: groups, mp3_folder_path: mp3, hotkey },
            );
            proof {
                lemma_used_step(s, i as int, used_before, used@);
            }
            i += 1;
        }

        let clear = match &self.active_preset {
            Some(name) => !self.presets.contains_key(name.as_str()),
            None => false,
        };
        proof {
            assert forall|k: Seq<char>|
                has_name(self.presets.entries(), k) == has_name(s, k) by {
                if has_name(s, k) {
                    let j = choose|j: int| 0 <= j < s.len() && (#[trigger] s[j]).name@ == k;
                    assert(self.presets.entries()[j].name == s[j].name);
                }
                if has_name(self.presets.entries(), k) {
                    let j = choose|j: int|
                        0 <= j < s.len() && (#[trigger] self.presets.entries()[j]).name@ == k;
                    assert(self.presets.entries()[j].name == s[j].name);
                }
            }
        }
        if clear {
            self.active_preset = None;
        }
    }
}

/// Whether `v` holds `x`.
pub fn contains_u8(v: &Vec<u8>, x: u8) -> (r: bool)
    ensures
        r == v@.contains(x),
{
    let mut i: usize = 0;
    while i < v.len()
        invariant
            i <= v.len(),
            forall|j: int| 0 <= j < i ==> v@[j] != x,
        decreases v.len() - i,
    {
        if v[i] == x {
            return true;
        }
        i += 1;
    }
    false
}

/// Position of the first preset in `s` (name order) that holds exactly the given folders.
pub open spec fn is_first_match(s: Seq<PresetEntry>, i: int, groups: Seq<Seq<Seq<char>>>, mp3: Seq<char>) -> bool {
    &&& 0 <= i < s.len()
    &&& preset_matches(s[i].preset, groups, mp3)
    &&& forall|j: int| 0 <= j < i ==> !preset_matches(#[trigger] s[j].preset, groups, mp3)
}

/// Why a preset operation was refused.
#[derive(Debug, Clone, Copy, PartialEq, Eq, Structural)]
pub enum PresetError {
    /// The name to save under is blank.
    EmptyName,
    /// No preset is selected.
    NoSelection,
    /// The selected preset does not exist.
    NotFound,
}

/// Why edited settings were refused.
#[derive(Debug, Clone, Copy, PartialEq, Eq, Structural)]
pub enum SettingsError {
    /// The first MP4 folder or the MP3 folder is blank.
    MissingRequiredFolder,
}

impl AppSettings {
    /// When no preset is active, marks the first preset (in name order) whose folders equal the
    /// current ones as active. Returns whether it did.
    pub fn restore_active_preset(&mut self) -> (r: bool)
        ensures
            final(self).mp4_folder_paths == old(self).mp4_folder_paths,
            final(self).mp3_folder_path == old(self).mp3_folder_path,
            final(self).multiview_enabled == old(self).multiview_enabled,
            final(self).numpad_folder_switching == old(self).numpad_folder_switching,
            final(self).presets == old(self).presets,
            old(self).active_preset is Some ==> !r && final(self).active_preset == old(self).active_preset,
            old(self).active_preset is None ==> (r == exists|i: int|
                is_first_match(
                    old(self).presets.entries(),
                    i,
                    old(self).mp4_folder_paths.deep_view(),
                    old(self).mp3_folder_path@,
                )),
            r ==> exists|i: int|
                #![trigger old(self).presets.entries()[i]]
                is_first_match(
                    old(self).presets.entries(),
                    i,
                    old(self).mp4_folder_paths.deep_view(),
                    old(self).mp3_folder_path@,
                ) && final(self).active_preset == Some(old(self).presets.entries()[i].name),
            !r ==> final(self).active_preset == old(self).active_preset,
    {
        if self.active_preset.is_some() {
            return false;
        }
        let ghost groups = self.mp4_folder_paths.deep_view();
        let ghost mp3 = self.mp3_folder_path@;
        let ghost s = self.presets.entries();
        let n = self.presets.len();
        let mut i: usize = 0;
        while i < n
            invariant
                n == s.len(),
                s == self.presets.entries(),
                self.mp4_folder_paths == old(self).mp4_folder_paths,
                self.mp3_folder_path == old(self).mp3_folder_path,
                self.multiview_enabled == old(self).multiview_enabled,
                self.numpad_folder_switching == old(self).numpad_folder_switching,
                self.presets == old(self).presets,
                self.active_preset == old(self).active_preset,
                old(self).active_preset is None,
                groups == self.mp4_folder_paths.deep_view(),
                mp3 == self.mp3_folder_path@,
                i <= n,
                forall|j: int| 0 <= j < i ==> !preset_matches(#[trigger] s[j].preset, groups, mp3),
            decreases n - i,
        {
            let entry = self.presets.entry(i);
            if groups_equal(&entry.preset.mp4_folder_paths, &self.mp4_folder_paths)
                && entry.preset.mp3_folder_path == self.mp3_folder_path {
                let name = entry.name.clone();
                self.active_preset = Some(name);
                assert(is_first_match(s, i as int, groups, mp3));
                return true;
            }
            i += 1;
        }
        proof {
            assert forall|k: int| !is_first_match(s, k, groups, mp3) by {
                if 0 <= k < s.len() {
                    assert(!preset_matches(s[k].preset, groups, mp3));
                }
            }
        }
        false
    }

    /// Whether the first MP4 folder and the MP3 folder are both set (not blank).
    pub fn is_configured(&self) -> (r: bool)
        requires
            has_first_folder(self.mp4_folder_paths.deep_view()),
        ensures
            r == (!is_blank_spec(self.mp4_folder_paths.deep_view()[0][0]) && !is_blank_spec(
                self.mp3_folder_path@,
            )),
    {
        assert(self.mp4_folder_paths@[0].deep_view() == self.mp4_folder_paths.deep_view()[0]);
        !is_blank(self.mp4_folder_paths[0][0].as_str()) && !is_blank(self.mp3_folder_path.as_str())
    }

    /// Switches the folders to those of the preset named `name` (normalized) and marks it
    /// active. Returns false, changing nothing, when there is no such preset.
    pub fn activate_preset(&mut self, name: &str) -> (r: bool)
        ensures
            r == has_name(old(self).presets.entries(), name@),
            !r ==> *final(self) == *old(self),
            r ==> {
                let p = lookup(old(self).presets.entries(), name@)->0;
                &&& final(self).mp4_folder_paths.deep_view() == normalize_groups_spec(
                    p.mp4_folder_paths.deep_view(),
                )
                &&& final(self).mp3_folder_path@ == p.mp3_folder_path@
                &&& final(self).multiview_enabled == old(self).multiview_enabled
                &&& final(self).numpad_folder_switching == old(self).numpad_folder_switching
                &&& final(self).presets.entries().len() == old(self).presets.entries().len()
                &&& forall|i: int|
                    0 <= i < old(self).presets.entries().len() ==> normalized_entry(
                        old(self).presets.entries(),
                        i,
                        #[trigger] final(self).presets.entries()[i],
                    )
                &&& final(self).active_preset matches Some(a) && a@ == name@
            },
    {
        let (groups, mp3) = match self.presets.get(name) {
            Some(preset) => (clone_groups(&preset.mp4_folder_paths), preset.mp3_folder_path.clone()),
            None => {
                return false;
            },
        };
        self.mp4_folder_paths = groups;
        self.mp3_folder_path = mp3;
        self.normalize();
        self.active_preset = Some(String::from_str(name));
        true
    }

    /// Saves the given folders as a preset named by the trimmed `name_input`, keeping the
    /// hotkey of a preset it replaces. Returns the name used.
    pub fn save_preset(&mut self, name_input: &str, folders: &Vec<Vec<String>>, mp3: &String) -> (r:
        Result<String, PresetError>)
        ensures
            r is Err <==> trim_spec(name_input@).len() == 0,
            r is Err ==> r == Err::<String, PresetError>(PresetError::EmptyName) && *final(self) == *old(self),
            hotkeys_consistent(old(self).presets.entries()) ==> hotkeys_consistent(final(self).presets.entries()),
            r matches Ok(name) ==> {
                &&& name@ == trim_spec(name_input@)
                &&& lookup(final(self).presets.entries(), name@) matches Some(p) && p.mp4_folder_paths.deep_view()
                    == folders.deep_view() && p.mp3_folder_path@ == mp3@ && p.hotkey == match lookup(
                    old(self).presets.entries(),
                    name@,
                ) {
                    Some(q) => q.hotkey,
                    None => None,
                }
                &&& forall|k: Seq<char>|
                    k != name@ ==> #[trigger] lookup(final(self).presets.entries(), k) == lookup(
                        old(self).presets.entries(),
                        k,
                    )
                &&& forall|k: Seq<char>|
                    #[trigger] has_name(final(self).presets.entries(), k) == (k == name@
                        || has_name(old(self).presets.entries(), k))
                &&& final(self).mp4_folder_paths == old(self).mp4_folder_paths
                &&& final(self).mp3_folder_path == old(self).mp3_folder_path
                &&& final(self).multiview_enabled == old(self).multiview_enabled
                &&& final(self).numpad_folder_switching == old(self).numpad_folder_switching
                &&& final(self).active_preset == old(self).active_preset
            },
    {
        let name = trim(name_input);
        if name.unicode_len() == 0 {
            return Err(PresetError::EmptyName);
        }
        let hotkey = match self.presets.get(name.as_str()) {
            Some(existing) => existing.hotkey,
            None => None,
        };
        let preset = FolderPreset {
            mp4_folder_paths: clone_groups(folders),
            mp3_folder_path: mp3.clone(),
            hotkey,
        };
        let ghost before = self.presets.entries();
        self.presets.insert(name.clone(), preset);
        proof {
            let t = self.presets.entries();
            if hotkeys_consistent(before) {
                lemma_consistent_by_name(before);
                assert forall|k: Seq<char>|
                    lookup(t, k) is Some && lookup(t, k)->0.hotkey is Some implies is_preset_function_key(
                        lookup(t, k)->0.hotkey->0,
                    ) by {
                    assert(lookup(before, k) == lookup(before, k));
                    assert(lookup(before, name@) == lookup(before, name@));
                }
                assert forall|k1: Seq<char>, k2: Seq<char>|
                    k1 != k2 && lookup(t, k1) is Some && lookup(t, k2) is Some && lookup(t, k1)->0.hotkey is Some
                        implies lookup(t, k1)->0.hotkey != lookup(t, k2)->0.hotkey by {
                    assert(lookup(before, k1) == lookup(before, k1));
                    assert(lookup(before, k2) == lookup(before, k2));
                    assert(lookup(before, name@) == lookup(before, name@));
                }
                lemma_consistent_by_index(t);
            }
        }
        Ok(name)
    }

    /// The folders of the selected preset, for editing.
    pub fn load_preset(&self, selected: &str) -> (r: Result<(Vec<Vec<String>>, String), PresetError>)
        ensures
            selected@.len() == 0 ==> r == Err::<(Vec<Vec<String>>, String), PresetError>(PresetError::NoSelection),
            selected@.len() > 0 && !has_name(self.presets.entries(), selected@) ==> r == Err::<
                (Vec<Vec<String>>, String),
                PresetError,
            >(PresetError::NotFound),
            selected@.len() > 0 && has_name(self.presets.entries(), selected@) ==> (r matches Ok(
                (groups, mp3),
            ) && groups.deep_view() == lookup(self.presets.entries(), selected@)->0.mp4_folder_paths.deep_view()
                && mp3@ == lookup(self.presets.entries(), selected@)->0.mp3_folder_path@),
    {
        if selected.unicode_len() == 0 {
            return Err(PresetError::NoSelection);
        }
        match self.presets.get(selected) {
            Some(preset) => Ok((clone_groups(&preset.mp4_folder_paths), preset.mp3_folder_path.clone())),
            None => Err(PresetError::NotFound),
        }
    }

    /// Deletes the selected preset; when it was the active one, no preset is active anymore.
    pub fn delete_preset(&mut self, selected: &str) -> (r: Result<(), PresetError>)
        ensures
            selected@.len() == 0 <==> r is Err,
            r is Err ==> r == Err::<(), PresetError>(PresetError::NoSelection) && *final(self) == *old(self),
            hotkeys_consistent(old(self).presets.entries()) ==> hotkeys_consistent(final(self).presets.entries()),
            r is Ok ==> {
                &&& forall|k: Seq<char>|
                    #[trigger] lookup(final(self).presets.entries(), k) == if k == selected@ {
                        None
                    } else {
                        lookup(old(self).presets.entries(), k)
                    }
                &&& forall|k: Seq<char>|
                    #[trigger] has_name(final(self).presets.entries(), k) == (k != selected@
                        && has_name(old(self).presets.entries(), k))
                &&& final(self).active_preset == match old(self).active_preset {
                    Some(a) => if a@ == selected@ {
                        None
                    } else {
                        Some(a)
                    },
                    None => None,
                }
                &&& final(self).mp4_folder_paths == old(self).mp4_folder_paths
                &&& final(self).mp3_folder_path == old(self).mp3_folder_path
                &&& final(self).multiview_enabled == old(self).multiview_enabled
                &&& final(self).numpad_folder_switching == old(self).numpad_folder_switching
            },
    {
        if selected.unicode_len() == 0 {
            return Err(PresetError::NoSelection);
        }
        let ghost before = self.presets.entries();
        let _ = self.presets.remove(selected);
        proof {
            let t = self.presets.entries();
            if hotkeys_consistent(before) {
                lemma_consistent_by_name(before);
                assert forall|k: Seq<char>|
                    lookup(t, k) is Some && lookup(t, k)->0.hotkey is Some implies is_preset_function_key(
                        lookup(t, k)->0.hotkey->0,
                    ) by {
                    assert(lookup(before, k) == lookup(before, k));
                }
                assert forall|k1: Seq<char>, k2: Seq<char>|
                    k1 != k2 && lookup(t, k1) is Some && lookup(t, k2) is Some && lookup(t, k1)->0.hotkey is Some
                        implies lookup(t, k1)->0.hotkey != lookup(t, k2)->0.hotkey by {
                    assert(lookup(before, k1) == lookup(before, k1));
                    assert(lookup(before, k2) == lookup(before, k2));
                }
                lemma_consistent_by_index(t);
            }
        }
        let clear = match &self.active_preset {
            Some(a) => text_eq(a.as_str(), selected),
            None => false,
        };
        if clear {
            self.active_preset = None;
        }
        Ok(())
    }

    /// Binds the preset named `name` to `hotkey`, first taking that key away from every other
    /// preset.
    pub fn assign_preset_hotkey(&mut self, name: &str, hotkey: Option<u8>)
        ensures
            final(self).presets.entries().len() == old(self).presets.entries().len(),
            hotkeys_consistent(old(self).presets.entries()) && (hotkey matches Some(k) ==> is_preset_function_key(k))
                ==> hotkeys_consistent(final(self).presets.entries()),
            forall|i: int|
                0 <= i < old(self).presets.entries().len() ==> {
                    let e = #[trigger] final(self).presets.entries()[i];
                    let o = old(self).presets.entries()[i];
                    &&& e.name == o.name
                    &&& e.preset.mp4_folder_paths.deep_view() == o.preset.mp4_folder_paths.deep_view()
                    &&& e.preset.mp3_folder_path@ == o.preset.mp3_folder_path@
                    &&& e.preset.hotkey == if o.name@ == name@ {
                        hotkey
                    } else if hotkey is Some && o.preset.hotkey == hotkey {
                        None
                    } else {
                        o.preset.hotkey
                    }
                },
            final(self).mp4_folder_paths == old(self).mp4_folder_paths,
            final(self).mp3_folder_path == old(self).mp3_folder_path,
            final(self).multiview_enabled == old(self).multiview_enabled,
            final(self).numpad_folder_switching == old(self).numpad_folder_switching,
            final(self).active_preset == old(self).active_preset,
    {
        let ghost s = self.presets.entries();
        let n = self.presets.len();
        let mut i: usize = 0;
        while i < n
            invariant
                n == s.len(),
                s == old(self).presets.entries(),
                i <= n,
                self.presets.entries().len() == n,
                forall|j: int|
                    0 <= j < i ==> {
                        let e = #[trigger] self.presets.entries()[j];
                        let o = s[j];
                        &&& e.name == o.name
                        &&& e.preset.mp4_folder_paths.deep_view() == o.preset.mp4_folder_paths.deep_view()
                        &&& e.preset.mp3_folder_path@ == o.preset.mp3_folder_path@
                        &&& e.preset.hotkey == if o.name@ == name@ {
                            hotkey
                        } else if hotkey is Some && o.preset.hotkey == hotkey {
                            None
                        } else {
                            o.preset.hotkey
                        }
                    },
                forall|j: int| i <= j < n ==> #[trigger] self.presets.entries()[j] == s[j],
                self.mp4_folder_paths == old(self).mp4_folder_paths,
                self.mp3_folder_path == old(self).mp3_folder_path,
                self.multiview_enabled == old(self).multiview_enabled,
                self.numpad_folder_switching == old(self).numpad_folder_switching,
                self.active_preset == old(self).active_preset,
            decreases n - i,
        {
            let entry = self.presets.entry(i);
            let is_target = text_eq(entry.name.as_str(), name);
            let current = entry.preset.hotkey;
            let new_key = if is_target {
                hotkey
            } else if hotkey.is_some() && current == hotkey {
                None
            } else {
                current
            };
            self.presets.set_hotkey(i, new_key);
            i += 1;
        }
        proof {
            let t = self.presets.entries();
            if hotkeys_consistent(s) && (hotkey matches Some(k) ==> is_preset_function_key(k)) {
                assert forall|a: int, b: int|
                    0 <= a < b < t.len() && (#[trigger] t[a]).preset.hotkey is Some implies t[a].preset.hotkey
                    != (#[trigger] t[b]).preset.hotkey by {
                    if s[a].name@ == s[b].name@ {
                        lemma_names_unique(s, a, b);
                    }
                }
                assert forall|a: int|
                    0 <= a < t.len() implies ((#[trigger] t[a]).preset.hotkey matches Some(k) ==> is_preset_function_key(
                        k,
                    )) by {
                    assert(t[a].preset.hotkey == s[a].preset.hotkey || t[a].preset.hotkey == hotkey
                        || t[a].preset.hotkey is None);
                }
            }
        }
    }

    /// Takes the edited folders and switches into the settings, normalizes them, and keeps the
    /// selected preset (when it exists) in step with the new folders as the active preset.
    /// Refused, changing nothing, when the first MP4 folder or the MP3 folder is blank.
    pub fn apply_inputs(
        &mut self,
        folder_inputs: &Vec<Vec<String>>,
        mp3_input: &String,
        multiview_enabled: bool,
        numpad_folder_switching: bool,
        selected_preset: &str,
    ) -> (r: Result<Option<String>, SettingsError>)
        requires
            has_first_folder(folder_inputs.deep_view()),
        ensures
            r is Err <==> (is_blank_spec(folder_inputs.deep_view()[0][0]) || is_blank_spec(mp3_input@)),
            r is Err ==> *final(self) == *old(self),
            r is Ok ==> hotkeys_consistent(final(self).presets.entries()),
            r matches Ok(updated) ==> {
                &&& final(self).mp4_folder_paths.deep_view() == normalize_groups_spec(
                    folder_inputs.deep_view(),
                )
                &&& final(self).mp3_folder_path@ == mp3_input@
                &&& final(self).multiview_enabled == multiview_enabled
                &&& final(self).numpad_folder_switching == numpad_folder_switching
                &&& final(self).active_preset == updated
                &&& final(self).presets.entries().len() == old(self).presets.entries().len()
                &&& (updated is Some <==> (selected_preset@.len() > 0 && has_name(
                    old(self).presets.entries(),
                    selected_preset@,
                )))
                &&& updated matches Some(u) ==> u@ == selected_preset@
                &&& forall|i: int|
                    0 <= i < old(self).presets.entries().len() ==> {
                        let e = #[trigger] final(self).presets.entries()[i];
                        let o = old(self).presets.entries()[i];
                        if updated is Some && o.name@ == selected_preset@ {
                            &&& e.name == o.name
                            &&& e.preset.mp4_folder_paths.deep_view() == final(self).mp4_folder_paths.deep_view()
                            &&& e.preset.mp3_folder_path@ == mp3_input@
                            &&& e.preset.hotkey == kept_hotkey(old(self).presets.entries(), i)
                        } else {
                            normalized_entry(old(self).presets.entries(), i, e)
                        }
                    }
            },
    {
        assert(folder_inputs@[0].deep_view() == folder_inputs.deep_view()[0]);
        if is_blank(folder_inputs[0][0].as_str()) || is_blank(mp3_input.as_str()) {
            return Err(SettingsError::MissingRequiredFolder);
        }
        self.mp4_folder_paths = clone_groups(folder_inputs);
        self.mp3_folder_path = mp3_input.clone();
        self.multiview_enabled = multiview_enabled;
        self.numpad_folder_switching = numpad_folder_switching;
        let ghost before = self.presets.entries();
        self.normalize();
        let ghost normalized = self.presets.entries();
        let updated = if selected_preset.unicode_len() > 0 {
            match self.presets.position(selected_preset) {
                Some(pos) => {
                    let groups = clone_groups(&self.mp4_folder_paths);
                    let mp3 = self.mp3_folder_path.clone();
                    let hotkey = self.presets.entry(pos).preset.hotkey;
                    self.presets.set_preset(
                        pos,
                        FolderPreset { mp4_folder_paths: groups, mp3_folder_path: mp3, hotkey },
                    );
                    assert(self.presets.entries()[pos as int].preset.mp4_folder_paths.deep_view()
                        == self.mp4_folder_paths.deep_view());
                    assert(self.presets.entries()[pos as int].preset.mp3_folder_path@
                        == self.mp3_folder_path@);
                    proof {
                        assert forall|i: int|
                            0 <= i < before.len() && i != pos implies #[trigger] before[i].name@ != selected_preset@ by {
                            if before[i].name@ == selected_preset@ {
                                assert(normalized[i].name == before[i].name);
                                lemma_names_unique(normalized, i, pos as int);
                            }
                        }
                    }
                    Some(String::from_str(selected_preset))
                },
                None => {
                    proof {
                        assert forall|i: int|
                            0 <= i < before.len() implies #[trigger] before[i].name@ != selected_preset@ by {
                            assert(normalized[i].name == before[i].name);
                        }
                    }
                    None
                },
            }
        } else {
            None
        };
        proof {
            assert(has_name(before, selected_preset@) == has_name(normalized, selected_preset@)) by {
                if has_name(before, selected_preset@) {
                    let j = choose|j: int| 0 <= j < before.len() && (#[trigger] before[j]).name@ == selected_preset@;
                    assert(normalized[j].name == before[j].name);
                }
                if has_name(normalized, selected_preset@) {
                    let j = choose|j: int| 0 <= j < before.len() && (#[trigger] normalized[j]).name@ == selected_preset@;
                    assert(normalized[j].name == before[j].name);
                }
            }
        }
        proof {
            let t = self.presets.entries();
            assert forall|i: int| 0 <= i < before.len() implies (#[trigger] t[i]).preset.hotkey == kept_hotkey(
                before,
                i,
            ) by {
                assert(normalized_entry(before, i, normalized[i]));
                assert(t[i].preset.hotkey == normalized[i].preset.hotkey);
            }
            lemma_kept_hotkeys_consistent(before, t);
        }
        self.active_preset = match &updated {
            Some(u) => Some(u.clone()),
            None => None,
        };
        Ok(updated)
    }

    /// The first preset (in name order) whose hotkey is a function key among `pressed`.
    pub fn pressed_preset_name(&self, pressed: &Vec<u8>) -> (r: Option<String>)
        ensures
            r is Some <==> exists|i: int|
                0 <= i < self.presets.entries().len() && hotkey_pressed(
                    #[trigger] self.presets.entries()[i].preset.hotkey,
                    pressed@,
                ),
            r matches Some(name) ==> exists|i: int|
                0 <= i < self.presets.entries().len() && hotkey_pressed(
                    #[trigger] self.presets.entries()[i].preset.hotkey,
                    pressed@,
                ) && name@ == self.presets.entries()[i].name@ && forall|j: int|
                    0 <= j < i ==> !hotkey_pressed(
                        #[trigger] self.presets.entries()[j].preset.hotkey,
                        pressed@,
                    ),
    {
        let n = self.presets.len();
        let mut i: usize = 0;
        while i < n
            invariant
                n == self.presets.entries().len(),
                i <= n,
                forall|j: int|
                    0 <= j < i ==> !hotkey_pressed(
                        #[trigger] self.presets.entries()[j].preset.hotkey,
                        pressed@,
                    ),
            decreases n - i,
        {
            let entry = self.presets.entry(i);
            if let Some(key) = entry.preset.hotkey {
                if function_key(key).is_some() && contains_u8(pressed, key) {
                    return Some(entry.name.clone());
                }
            }
            i += 1;
        }
        None
    }
}

/// Whether a preset bound to `hotkey` is triggered by the function keys in `pressed`.
pub open spec fn hotkey_pressed(hotkey: Option<u8>, pressed: Seq<u8>) -> bool {
    hotkey matches Some(k) && 1 <= k <= 12 && pressed.contains(k)
}

/// The function key with number `number` (F1 to F12), if there is one.
pub fn function_key(number: u8) -> (r: Option<u8>)
    ensures
        r == if 1 <= number <= 12 {
            Some(number)
        } else {
            None::<u8>
        },
{
    if 1 <= number && number <= 12 {
        Some(number)
    } else {
        None
    }
}

impl PresetError {
    /// The message shown to the user.
    pub fn message(&self) -> (r: String)
        ensures
            r@ == match *self {
                PresetError::EmptyName => "プリセット名を入力してください"@,
                PresetError::NoSelection => "プリセットを選択してください"@,
                PresetError::NotFound => "プリセットが見つかりません"@,
            },
    {
        match self {
            PresetError::EmptyName => String::from_str("プリセット名を入力してください"),
            PresetError::NoSelection => String::from_str("プリセットを選択してください"),
            PresetError::NotFound => String::from_str("プリセットが見つかりません"),
        }
    }
}

impl SettingsError {
    /// The message shown to the user.
    pub fn message(&self) -> (r: String)
        ensures
            r@ == "MP4 Folder 1 と MP3 Folder は必須です"@,
    {
        match self {
            SettingsError::MissingRequiredFolder => String::from_str("MP4 Folder 1 と MP3 Folder は必須です"),
        }
    }
}

proof fn lemma_normalization_keeps_names(a: AppSettings, b: AppSettings, k: Seq<char>)
    requires
        is_normalization(a, b),
    ensures
        has_name(b.presets.entries(), k) == has_name(a.presets.entries(), k),
{
    let s = a.presets.entries();
    let t = b.presets.entries();
    if has_name(s, k) {
        let j = choose|j: int| 0 <= j < s.len() && (#[trigger] s[j]).name@ == k;
        assert(normalized_entry(s, j, t[j]));
        assert(0 <= j < t.len() && t[j].name@ == k);
    }
    if has_name(t, k) {
        let j = choose|j: int| 0 <= j < t.len() && (#[trigger] t[j]).name@ == k;
        assert(normalized_entry(s, j, t[j]));
        assert(0 <= j < s.len() && s[j].name@ == k);
    }
}

/// Normalized settings are consistent: the folder groups have their fixed shape, every kept
/// hotkey is a supported function key, no key is bound to two presets, and an active preset
/// names an existing preset.
pub proof fn law_normalized_settings_are_consistent(before: AppSettings, after: AppSettings)
    requires
        is_normalization(before, after),
    ensures
        after.mp4_folder_paths.deep_view().len() == NUM_GROUPS,
        forall|g: int|
            0 <= g < NUM_GROUPS ==> (#[trigger] after.mp4_folder_paths.deep_view()[g]).len() > 0,
        forall|i: int|
            0 <= i < after.presets.entries().len() ==> ((#[trigger] after.presets.entries()[i]).preset.hotkey matches Some(
                k,
            ) ==> is_preset_function_key(k)),
        forall|i: int, j: int|
            0 <= i < j < after.presets.entries().len() && (#[trigger] after.presets.entries()[i]).preset.hotkey is Some
                ==> after.presets.entries()[i].preset.hotkey != (#[trigger] after.presets.entries()[j]).preset.hotkey,
        after.active_preset matches Some(name) ==> has_name(after.presets.entries(), name@),
{
    law_normalized_groups_shape(before.mp4_folder_paths.deep_view());
    let s = before.presets.entries();
    let t = after.presets.entries();
    assert forall|i: int, j: int|
        0 <= i < j < t.len() && (#[trigger] t[i]).preset.hotkey is Some implies t[i].preset.hotkey
        != (#[trigger] t[j]).preset.hotkey by {
        assert(normalized_entry(s, i, t[i]));
        assert(normalized_entry(s, j, t[j]));
    }
    assert forall|i: int|
        0 <= i < t.len() implies ((#[trigger] t[i]).preset.hotkey matches Some(k) ==> is_preset_function_key(k)) by {
        assert(normalized_entry(s, i, t[i]));
    }
    if let Some(name) = after.active_preset {
        lemma_normalization_keeps_names(before, after, name@);
    }
}

/// Normalizing settings that were just normalized changes nothing: the same folders, the same
/// presets with the same hotkeys, and the same active preset come out.
pub proof fn law_normalize_idempotent(a: AppSettings, b: AppSettings, c: AppSettings)
    requires
        is_normalization(a, b),
        is_normalization(b, c),
    ensures
        c.mp4_folder_paths.deep_view() == b.mp4_folder_paths.deep_view(),
        c.mp3_folder_path == b.mp3_folder_path,
        c.multiview_enabled == b.multiview_enabled,
        c.numpad_folder_switching == b.numpad_folder_switching,
        c.presets.entries().len() == b.presets.entries().len(),
        forall|i: int|
            0 <= i < b.presets.entries().len() ==> {
                let x = #[trigger] c.presets.entries()[i];
                let y = b.presets.entries()[i];
                &&& x.name == y.name
                &&& x.preset.mp4_folder_paths.deep_view() == y.preset.mp4_folder_paths.deep_view()
                &&& x.preset.mp3_folder_path@ == y.preset.mp3_folder_path@
                &&& x.preset.hotkey == y.preset.hotkey
            },
        c.active_preset == b.active_preset,
{
    law_normalize_groups_idempotent(a.mp4_folder_paths.deep_view());
    let s = a.presets.entries();
    let t = b.presets.entries();
    let u = c.presets.entries();
    assert forall|i: int| 0 <= i < t.len() implies {
        let x = #[trigger] u[i];
        let y = t[i];
        &&& x.name == y.name
        &&& x.preset.mp4_folder_paths.deep_view() == y.preset.mp4_folder_paths.deep_view()
        &&& x.preset.mp3_folder_path@ == y.preset.mp3_folder_path@
        &&& x.preset.hotkey == y.preset.hotkey
    } by {
        assert(normalized_entry(s, i, t[i]));
        assert(normalized_entry(t, i, u[i]));
        law_normalize_groups_idempotent(s[i].preset.mp4_folder_paths.deep_view());
        if let Some(k) = t[i].preset.hotkey {
            assert forall|j: int| 0 <= j < i implies (#[trigger] t[j]).preset.hotkey != Some(k) by {
                assert(normalized_entry(s, j, t[j]));
            }
        }
    }
    if let Some(name) = b.active_preset {
        lemma_normalization_keeps_names(b, c, name@);
        lemma_normalization_keeps_names(a, b, name@);
    }
}

/// Normalization keeps a preset's hotkey exactly when the key is one of
/// [`PRESET_FUNCTION_KEYS`] and no preset before it in name order has that key; any other
/// hotkey is cleared.
pub proof fn law_normalize_keeps_offered_unused_hotkeys(before: AppSettings, after: AppSettings, i: int)
    requires
        is_normalization(before, after),
        0 <= i < before.presets.entries().len(),
    ensures
        after.presets.entries()[i].preset.hotkey == match before.presets.entries()[i].preset.hotkey {
            Some(k) => if PRESET_FUNCTION_KEYS@.contains(k) && forall|j: int|
                0 <= j < i ==> (#[trigger] before.presets.entries()[j]).preset.hotkey != Some(k) {
                Some(k)
            } else {
                None
            },
            None => None,
        },
{
    let s = before.presets.entries();
    assert(normalized_entry(s, i, after.presets.entries()[i]));
    if let Some(k) = s[i].preset.hotkey {
        law_supported_hotkeys_are_the_offered_keys(k);
    }
}

} // verus!
