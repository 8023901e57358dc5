use vstd::prelude::*;

use crate::text::{is_blank, is_blank_spec};

verus! {

/// The application's name, used for the settings directory.
pub const APP_NAME: &'static str = "rndWalker";

/// Number of MP4 folder groups shown when the numeric keypad is not used for switching.
pub const DEFAULT_GROUPS: usize = 3;

/// Number of MP4 folder groups kept in the settings.
pub const NUM_GROUPS: usize = 9;

/// Most folders a single MP4 folder group holds.
pub const MAX_FOLDERS_PER_GROUP: usize = 4;

/// Whether another folder can be added to a group that has `count` folders.
pub fn can_add_folder(count: usize) -> (r: bool)
    ensures
        r == (count < MAX_FOLDERS_PER_GROUP),
{
    count < MAX_FOLDERS_PER_GROUP
}

/// Function keys (by number) that a folder preset may be bound to.
pub const PRESET_FUNCTION_KEYS: [u8; 10] = [1, 2, 3, 4, 6, 7, 8, 9, 10, 12];

/// Whether `key` is one of [`PRESET_FUNCTION_KEYS`].
pub open spec fn is_preset_function_key(key: u8) -> bool {
    key == 1 || key == 2 || key == 3 || key == 4 || key == 6 || key == 7 || key == 8 || key == 9
        || key == 10 || key == 12
}

/// Whether `key` is one of [`PRESET_FUNCTION_KEYS`].
pub fn supports_preset_hotkey(key: u8) -> (r: bool)
    ensures
        r == is_preset_function_key(key),
        r == PRESET_FUNCTION_KEYS@.contains(key),
{
    proof {
        law_supported_hotkeys_are_the_offered_keys(key);
    }
    let mut i: usize = 0;
    while i < PRESET_FUNCTION_KEYS.len()
        invariant
            i <= 10,
            PRESET_FUNCTION_KEYS@ == seq![1u8, 2, 3, 4, 6, 7, 8, 9, 10, 12],
            forall|j: int| 0 <= j < i ==> PRESET_FUNCTION_KEYS@[j] != key,
        decreases 10 - i,
    {
        if PRESET_FUNCTION_KEYS[i] == key {
            return true;
        }
        i += 1;
    }
    false
}

/// A group after its trailing blank folders (beyond the first) are dropped.
pub open spec fn strip_trailing_blank(g: Seq<Seq<char>>) -> Seq<Seq<char>>
    decreases g.len(),
{
    if g.len() > 1 && is_blank_spec(g.last()) {
        strip_trailing_blank(g.drop_last())
    } else {
        g
    }
}

/// A normalized folder group: trailing blank folders dropped, and never empty.
pub open spec fn normalize_group_spec(g: Seq<Seq<char>>) -> Seq<Seq<char>> {
    if strip_trailing_blank(g).len() == 0 {
        seq![Seq::<char>::empty()]
    } else {
        strip_trailing_blank(g)
    }
}

/// The groups after normalization: exactly [`NUM_GROUPS`] of them, missing ones added empty,
/// each group normalized.
pub open spec fn normalize_groups_spec(groups: Seq<Seq<Seq<char>>>) -> Seq<Seq<Seq<char>>> {
    Seq::new(
        NUM_GROUPS as nat,
        |i: int|
            normalize_group_spec(
                if i < groups.len() {
                    groups[i]
                } else {
                    Seq::empty()
                },
            ),
    )
}

/// The groups of a fresh configuration: [`NUM_GROUPS`] groups of one empty folder each.
pub open spec fn empty_groups_spec() -> Seq<Seq<Seq<char>>> {
    Seq::new(NUM_GROUPS as nat, |i: int| seq![Seq::<char>::empty()])
}

/// A folder preset: the folders it switches to and the function key bound to it.
#[derive(Debug, Clone)]
pub struct FolderPreset {
    pub mp4_folder_paths: Vec<Vec<String>>,
    pub mp3_folder_path: String,
    pub hotkey: Option<u8>,
}

impl Default for FolderPreset {
    fn default() -> (r: Self)
        ensures
            r.mp4_folder_paths.deep_view() == empty_groups_spec(),
            r.mp3_folder_path@ == Seq::<char>::empty(),
            r.hotkey is None,
    {
        FolderPreset {
            mp4_folder_paths: empty_folder_groups(),
            mp3_folder_path: String::new(),
            hotkey: None,
        }
    }
}

/// [`NUM_GROUPS`] groups holding one empty folder each.
pub fn empty_folder_groups() -> (r: Vec<Vec<String>>)
    ensures
        r.deep_view() == empty_groups_spec(),
{
    let mut groups: Vec<Vec<String>> = Vec::new();
    let mut i: usize = 0;
    while i < NUM_GROUPS
        invariant
            i <= NUM_GROUPS,
            groups.len() == i,
            forall|j: int| 0 <= j < i ==> (#[trigger] groups@[j]).deep_view() == seq![Seq::<char>::empty()],
        decreases NUM_GROUPS - i,
    {
        let mut group: Vec<String> = Vec::new();
        group.push(String::new());
        assert(group.deep_view() =~= seq![Seq::<char>::empty()]);
        groups.push(group);
        i += 1;
    }
    assert(groups.deep_view() =~= empty_groups_spec());
    groups
}

/// Copies a list of strings.
pub fn clone_strings(v: &Vec<String>) -> (r: Vec<String>)
    ensures
        r.deep_view() == v.deep_view(),
{
    let mut out: Vec<String> = Vec::new();
    let mut i: usize = 0;
    while i < v.len()
        invariant
            i <= v.len(),
            out.len() == i,
            forall|j: int| 0 <= j < i ==> (#[trigger] out@[j])@ == v@[j]@,
        decreases v.len() - i,
    {
        out.push(v[i].clone());
        i += 1;
    }
    assert(out.deep_view() =~= v.deep_view());
    out
}

/// Copies a list of folder groups.
pub fn clone_groups(v: &Vec<Vec<String>>) -> (r: Vec<Vec<String>>)
    ensures
        r.deep_view() == v.deep_view(),
{
    let mut out: Vec<Vec<String>> = Vec::new();
    let mut i: usize = 0;
    while i < v.len()
        invariant
            i <= v.len(),
            out.len() == i,
            forall|j: int| 0 <= j < i ==> (#[trigger] out@[j]).deep_view() == v@[j].deep_view(),
        decreases v.len() - i,
    {
        out.push(clone_strings(&v[i]));
        i += 1;
    }
    assert(out.deep_view() =~= v.deep_view());
    out
}

/// Whether two lists of strings hold the same strings in the same order.
pub fn strings_equal(a: &Vec<String>, b: &Vec<String>) -> (r: bool)
    ensures
        r == (a.deep_view() == b.deep_view()),
{
    if a.len() != b.len() {
        assert(a.deep_view().len() != b.deep_view().len());
        return false;
    }
    let mut i: usize = 0;
    while i < a.len()
        invariant
            a.len() == b.len(),
            i <= a.len(),
            forall|j: int| 0 <= j < i ==> a@[j]@ == b@[j]@,
        decreases a.len() - i,
    {
        if a[i] != b[i] {
            assert(a.deep_view()[i as int] != b.deep_view()[i as int]);
            return false;
        }
        i += 1;
    }
    assert(a.deep_view() =~= b.deep_view());
    true
}

/// Whether two lists of folder groups are equal.
pub fn groups_equal(a: &Vec<Vec<String>>, b: &Vec<Vec<String>>) -> (r: bool)
    ensures
        r == (a.deep_view() == b.deep_view()),
{
    if a.len() != b.len() {
        assert(a.deep_view().len() != b.deep_view().len());
        return false;
    }
    let mut i: usize = 0;
    while i < a.len()
        invariant
            a.len() == b.len(),
            i <= a.len(),
            forall|j: int| 0 <= j < i ==> a@[j].deep_view() == b@[j].deep_view(),
        decreases a.len() - i,
    {
        if !strings_equal(&a[i], &b[i]) {
            assert(a.deep_view()[i as int] != b.deep_view()[i as int]);
            return false;
        }
        i += 1;
    }
    assert(a.deep_view() =~= b.deep_view());
    true
}

/// Normalizes one folder group: drops trailing blank folders after the first, and gives an
/// empty group one empty folder.
pub fn normalize_group(group: Vec<String>) -> (r: Vec<String>)
    ensures
        r.deep_view() == normalize_group_spec(group.deep_view()),
{
    let mut g = group;
    while g.len() > 1 && is_blank(g[g.len() - 1].as_str())
        invariant
            strip_trailing_blank(g.deep_view()) == strip_trailing_blank(group.deep_view()),
        decreases g.len(),
    {
        let ghost before = g.deep_view();
        g.pop();
        assert(g.deep_view() =~= before.drop_last());
    }
    assert(strip_trailing_blank(g.deep_view()) == g.deep_view());
    if g.len() == 0 {
        g.push(String::new());
        assert(g.deep_view() =~= seq![Seq::<char>::empty()]);
    }
    g
}

/// Brings folder groups to the shape the application relies on: exactly [`NUM_GROUPS`] groups
/// (extra ones dropped, missing ones added), each ending in its last non-blank folder and
/// holding at least one folder.
pub fn normalize_folder_groups(groups: Vec<Vec<String>>) -> (r: Vec<Vec<String>>)
    ensures
        r.deep_view() == normalize_groups_spec(groups.deep_view()),
{
    let mut out: Vec<Vec<String>> = Vec::new();
    let mut i: usize = 0;
    while i < NUM_GROUPS
        invariant
            i <= NUM_GROUPS,
            out.len() == i,
            forall|j: int|
                0 <= j < i ==> (#[trigger] out@[j]).deep_view() == normalize_groups_spec(
                    groups.deep_view(),
                )[j],
        decreases NUM_GROUPS - i,
    {
        let group = if i < groups.len() {
            clone_strings(&groups[i])
        } else {
            Vec::new()
        };
        assert(group.deep_view() =~= (if i < groups.len() {
            groups.deep_view()[i as int]
        } else {
            Seq::empty()
        }));
        out.push(normalize_group(group));
        i += 1;
    }
    assert(out.deep_view() =~= normalize_groups_spec(groups.deep_view()));
    out
}

proof fn lemma_strip_shape(g: Seq<Seq<char>>)
    ensures
        strip_trailing_blank(g).len() <= 1 || !is_blank_spec(strip_trailing_blank(g).last()),
        strip_trailing_blank(g).len() == 0 ==> g.len() == 0,
    decreases g.len(),
{
    if g.len() > 1 && is_blank_spec(g.last()) {
        lemma_strip_shape(g.drop_last());
    }
}

proof fn lemma_normalize_group_idempotent(g: Seq<Seq<char>>)
    ensures
        normalize_group_spec(normalize_group_spec(g)) == normalize_group_spec(g),
        normalize_group_spec(g).len() > 0,
{
    lemma_strip_shape(g);
    let h = normalize_group_spec(g);
    if strip_trailing_blank(g).len() == 0 {
        assert(h.len() == 1);
        assert(strip_trailing_blank(h) == h);
    } else {
        assert(strip_trailing_blank(h) == h);
    }
}

/// Normalizing folder groups twice gives what normalizing them once gives.
pub proof fn law_normalize_groups_idempotent(groups: Seq<Seq<Seq<char>>>)
    ensures
        normalize_groups_spec(normalize_groups_spec(groups)) == normalize_groups_spec(groups),
{
    let once = normalize_groups_spec(groups);
    assert forall|i: int| 0 <= i < NUM_GROUPS implies #[trigger] normalize_groups_spec(once)[i]
        == once[i] by {
        let g = if i < groups.len() {
            groups[i]
        } else {
            Seq::empty()
        };
        lemma_normalize_group_idempotent(g);
    }
    assert(normalize_groups_spec(once) =~= once);
}

/// Normalized folder groups are exactly [`NUM_GROUPS`] groups, none of them empty.
pub proof fn law_normalized_groups_shape(groups: Seq<Seq<Seq<char>>>)
    ensures
        normalize_groups_spec(groups).len() == NUM_GROUPS,
        forall|i: int|
            0 <= i < NUM_GROUPS ==> (#[trigger] normalize_groups_spec(groups)[i]).len() > 0,
{
    assert forall|i: int|
        0 <= i < NUM_GROUPS implies (#[trigger] normalize_groups_spec(groups)[i]).len() > 0 by {
        let g = if i < groups.len() {
            groups[i]
        } else {
            Seq::empty()
        };
        lemma_normalize_group_idempotent(g);
    }
}

/// A key is a supported preset hotkey exactly when it is one of [`PRESET_FUNCTION_KEYS`], the
/// keys the settings window offers.
pub proof fn law_supported_hotkeys_are_the_offered_keys(key: u8)
    ensures
        is_preset_function_key(key) <==> PRESET_FUNCTION_KEYS@.contains(key),
{
    assert(PRESET_FUNCTION_KEYS@ == seq![1u8, 2, 3, 4, 6, 7, 8, 9, 10, 12]);
    if is_preset_function_key(key) {
        let i: int = if key == 1 {
            0
        } else if key == 2 {
            1
        } else if key == 3 {
            2
        } else if key == 4 {
            3
        } else if key == 6 {
            4
        } else if key == 7 {
            5
        } else if key == 8 {
            6
        } else if key == 9 {
            7
        } else if key == 10 {
            8
        } else {
            9
        };
        assert(PRESET_FUNCTION_KEYS@[i] == key);
    }
}

} // verus!
