use vstd::prelude::*;

use crate::config::{clone_strings, NUM_GROUPS};
use crate::settings::AppSettings;
use crate::text::{is_blank, trim, trim_spec};

verus! {

/// The files of the library: the MP4 files of each folder group, and the MP3 files.
#[derive(Debug, Clone)]
pub struct MediaLibrary {
    pub mp4_sets: Vec<Vec<String>>,
    pub mp3_files: Vec<String>,
}

/// The folders to scan for a library: per group, the trimmed non-blank MP4 folders, and the MP3
/// folder when it is not blank.
#[derive(Debug, Clone)]
pub struct ScanPlan {
    pub video_folders: Vec<Vec<String>>,
    pub audio_folder: Option<String>,
}

/// All sequences of `s`, one after the other.
pub open spec fn concat_all(s: Seq<Seq<Seq<char>>>) -> Seq<Seq<char>>
    decreases s.len(),
{
    if s.len() == 0 {
        Seq::empty()
    } else {
        concat_all(s.drop_last()) + s.last()
    }
}

/// The total number of entries in the sequences of `s`.
pub open spec fn total_len(s: Seq<Seq<Seq<char>>>) -> nat
    decreases s.len(),
{
    if s.len() == 0 {
        0
    } else {
        total_len(s.drop_last()) + s.last().len()
    }
}

/// The number of non-empty sequences in `s`.
pub open spec fn non_empty_count(s: Seq<Seq<Seq<char>>>) -> nat
    decreases s.len(),
{
    if s.len() == 0 {
        0
    } else {
        non_empty_count(s.drop_last()) + if s.last().len() > 0 {
            1nat
        } else {
            0nat
        }
    }
}

/// The trimmed, non-blank folders of a group, in order.
pub open spec fn scan_folders_of(group: Seq<Seq<char>>) -> Seq<Seq<char>>
    decreases group.len(),
{
    if group.len() == 0 {
        Seq::empty()
    } else {
        let rest = scan_folders_of(group.drop_last());
        let t = trim_spec(group.last());
        if t.len() > 0 {
            rest.push(t)
        } else {
            rest
        }
    }
}

/// The videos played when the active folder is `active`: one group, or all groups in order.
pub open spec fn active_videos_spec(sets: Seq<Seq<Seq<char>>>, active: Option<usize>) -> Seq<Seq<char>> {
    match active {
        Some(i) => if i < sets.len() {
            sets[i as int]
        } else {
            Seq::empty()
        },
        None => concat_all(sets),
    }
}

/// The concatenation of the first `n` groups extends by the next group.
proof fn lemma_concat_step(s: Seq<Seq<Seq<char>>>, n: int)
    requires
        0 <= n < s.len(),
    ensures
        concat_all(s.take(n + 1)) == concat_all(s.take(n)) + s[n],
        total_len(s.take(n + 1)) == total_len(s.take(n)) + s[n].len(),
        non_empty_count(s.take(n + 1)) == non_empty_count(s.take(n)) + if s[n].len() > 0 {
            1nat
        } else {
            0nat
        },
{
    assert(s.take(n + 1).drop_last() =~= s.take(n));
}

impl Default for MediaLibrary {
    fn default() -> (r: Self)
        ensures
            r.mp4_sets.deep_view() == Seq::new(NUM_GROUPS as nat, |i: int| Seq::<Seq<char>>::empty()),
            r.mp3_files@.len() == 0,
    {
        MediaLibrary::new()
    }
}

impl MediaLibrary {
    /// A library with [`NUM_GROUPS`] empty groups and no MP3 files.
    pub fn new() -> (r: Self)
        ensures
            r.mp4_sets.deep_view() == Seq::new(NUM_GROUPS as nat, |i: int| Seq::<Seq<char>>::empty()),
            r.mp3_files@.len() == 0,
    {
        let mut sets: Vec<Vec<String>> = Vec::new();
        let mut i: usize = 0;
        while i < NUM_GROUPS
            invariant
                i <= NUM_GROUPS,
                sets.len() == i,
                forall|j: int| 0 <= j < i ==> (#[trigger] sets@[j]).deep_view() == Seq::<Seq<char>>::empty(),
            decreases NUM_GROUPS - i,
        {
            let v: Vec<String> = Vec::new();
            assert(v.deep_view() =~= Seq::<Seq<char>>::empty());
            sets.push(v);
            i += 1;
        }
        assert(sets.deep_view() =~= Seq::new(NUM_GROUPS as nat, |i: int| Seq::<Seq<char>>::empty()));
        MediaLibrary { mp4_sets: sets, mp3_files: Vec::new() }
    }

    /// Assembles a library from what scanning found: the files of each scanned folder of each
    /// group (in scan-plan order), and the MP3 files.
    pub fn from_scans(video_files: &Vec<Vec<Vec<String>>>, mp3_files: Vec<String>) -> (r: Self)
        ensures
            r.mp4_sets.deep_view().len() == NUM_GROUPS,
            forall|g: int|
                0 <= g < NUM_GROUPS ==> #[trigger] r.mp4_sets.deep_view()[g] == if g < video_files@.len() {
                    concat_all(video_files@[g].deep_view())
                } else {
                    Seq::empty()
                },
            r.mp3_files == mp3_files,
    {
        let mut sets: Vec<Vec<String>> = Vec::new();
        let mut g: usize = 0;
        while g < NUM_GROUPS
            invariant
                g <= NUM_GROUPS,
                sets.len() == g,
                forall|j: int|
                    0 <= j < g ==> #[trigger] sets@[j].deep_view() == if j < video_files@.len() {
                        concat_all(video_files@[j].deep_view())
                    } else {
                        Seq::empty()
                    },
            decreases NUM_GROUPS - g,
        {
            let mut files: Vec<String> = Vec::new();
            if g < video_files.len() {
                let folders = &video_files[g];
                let ghost fs = folders.deep_view();
                let mut f: usize = 0;
                assert(fs.take(0) =~= Seq::<Seq<Seq<char>>>::empty());
                while f < folders.len()
                    invariant
                        fs == folders.deep_view(),
                        f <= folders.len(),
                        files.deep_view() == concat_all(fs.take(f as int)),
                    decreases folders.len() - f,
                {
                    proof {
                        lemma_concat_step(fs, f as int);
                    }
                    let ghost before = files.deep_view();
                    let part = &folders[f];
                    let mut k: usize = 0;
                    while k < part.len()
                        invariant
                            k <= part.len(),
                            files.deep_view() == before + part.deep_view().take(k as int),
                        decreases part.len() - k,
                    {
                        let ghost prev = files.deep_view();
                        let item = part[k].clone();
                        assert(part.deep_view()[k as int] == item@);
                        files.push(item);
                        assert(files.deep_view() =~= prev.push(item@));
                        assert(files.deep_view() =~= before + part.deep_view().take(k + 1));
                        k += 1;
                    }
                    assert(part.deep_view().take(k as int) =~= part.deep_view());
                    assert(fs[f as int] == part.deep_view());
                    f += 1;
                }
                assert(fs.take(f as int) =~= fs);
            } else {
                assert(files.deep_view() =~= Seq::<Seq<char>>::empty());
            }
            sets.push(files);
            g += 1;
        }
        MediaLibrary { mp4_sets: sets, mp3_files }
    }

    /// The videos to choose from for `active_folder`: that group's files (none when there is no
    /// such group), or every group's files in order.
    pub fn active_videos(&self, active_folder: Option<usize>) -> (r: Vec<String>)
        ensures
            r.deep_view() == active_videos_spec(self.mp4_sets.deep_view(), active_folder),
    {
        match active_folder {
            Some(index) => {
                if index < self.mp4_sets.len() {
                    clone_strings(&self.mp4_sets[index])
                } else {
                    let v: Vec<String> = Vec::new();
                    assert(v.deep_view() =~= Seq::<Seq<char>>::empty());
                    v
                }
            },
            None => {
                let ghost s = self.mp4_sets.deep_view();
                let mut out: Vec<String> = Vec::new();
                let mut g: usize = 0;
                assert(s.take(0) =~= Seq::<Seq<Seq<char>>>::empty());
                assert(out.deep_view() =~= Seq::<Seq<char>>::empty());
                while g < self.mp4_sets.len()
                    invariant
                        s == self.mp4_sets.deep_view(),
                        g <= self.mp4_sets.len(),
                        out.deep_view() == concat_all(s.take(g as int)),
                    decreases self.mp4_sets.len() - g,
                {
                    proof {
                        lemma_concat_step(s, g as int);
                    }
                    let ghost before = out.deep_view();
                    let part = &self.mp4_sets[g];
                    let mut k: usize = 0;
                    while k < part.len()
                        invariant
                            k <= part.len(),
                            out.deep_view() == before + part.deep_view().take(k as int),
                        decreases part.len() - k,
                    {
                        let ghost prev = out.deep_view();
                        let item = part[k].clone();
                        assert(part.deep_view()[k as int] == item@);
                        out.push(item);
                        assert(out.deep_view() =~= prev.push(item@));
                        assert(out.deep_view() =~= before + part.deep_view().take(k + 1));
                        k += 1;
                    }
                    assert(part.deep_view().take(k as int) =~= part.deep_view());
                    assert(s[g as int] == part.deep_view());
                    g += 1;
                }
                assert(s.take(g as int) =~= s);
                out
            },
        }
    }

    /// How many videos `active_videos(active_folder)` holds.
    pub fn active_video_count(&self, active_folder: Option<usize>) -> (r: usize)
        ensures
            r == active_videos_spec(self.mp4_sets.deep_view(), active_folder).len(),
    {
        match active_folder {
            Some(index) => {
                if index < self.mp4_sets.len() {
                    assert(self.mp4_sets.deep_view()[index as int] == self.mp4_sets@[index as int].deep_view());
                    self.mp4_sets[index].len()
                } else {
                    0
                }
            },
            None => {
                let ghost s = self.mp4_sets.deep_view();
                let mut total: usize = 0;
                let mut g: usize = 0;
                assert(s.take(0) =~= Seq::<Seq<Seq<char>>>::empty());
                proof {
                    law_video_total_is_all_videos_len(s);
                }
                while g < self.mp4_sets.len()
                    invariant
                        s == self.mp4_sets.deep_view(),
                        g <= self.mp4_sets.len(),
                        total == total_len(s.take(g as int)),
                        total_len(s) == concat_all(s).len(),
                    decreases self.mp4_sets.len() - g,
                {
                    proof {
                        lemma_concat_step(s, g as int);
                        lemma_total_len_prefix(s, g + 1);
                    }
                    assert(s[g as int] == self.mp4_sets@[g as int].deep_view());
                    total = match total.checked_add(self.mp4_sets[g].len()) {
                        Some(sum) => sum,
                        // A total beyond `usize` cannot be a count of videos held in memory; the
                        // list of all videos is measured instead.
                        None => return self.active_videos(None).len(),
                    };
                    g += 1;
                }
                assert(s.take(g as int) =~= s);
                total
            },
        }
    }

    /// How many groups hold at least one video.
    pub fn non_empty_group_count(&self) -> (r: usize)
        ensures
            r == non_empty_count(self.mp4_sets.deep_view()),
    {
        let ghost s = self.mp4_sets.deep_view();
        let mut count: usize = 0;
        let mut g: usize = 0;
        assert(s.take(0) =~= Seq::<Seq<Seq<char>>>::empty());
        while g < self.mp4_sets.len()
            invariant
                s == self.mp4_sets.deep_view(),
                g <= self.mp4_sets.len(),
                count == non_empty_count(s.take(g as int)),
                count <= g,
            decreases self.mp4_sets.len() - g,
        {
            proof {
                lemma_concat_step(s, g as int);
            }
            assert(s[g as int] == self.mp4_sets@[g as int].deep_view());
            if self.mp4_sets[g].len() > 0 {
                count = count + 1;
            }
            g += 1;
        }
        assert(s.take(g as int) =~= s);
        count
    }
}

/// The number of videos of all groups is the length of the list of all their videos: the count
/// of [`MediaLibrary::active_video_count`] for all groups fits exactly when that list's length
/// does.
pub proof fn law_video_total_is_all_videos_len(s: Seq<Seq<Seq<char>>>)
    ensures
        total_len(s) == concat_all(s).len(),
    decreases s.len(),
{
    if s.len() > 0 {
        law_video_total_is_all_videos_len(s.drop_last());
    }
}

proof fn lemma_total_len_prefix(s: Seq<Seq<Seq<char>>>, n: int)
    requires
        0 <= n <= s.len(),
    ensures
        total_len(s.take(n)) <= total_len(s),
    decreases s.len() - n,
{
    if n < s.len() {
        lemma_total_len_prefix(s, n + 1);
        lemma_concat_step(s, n);
    } else {
        assert(s.take(n) =~= s);
    }
}

/// What to scan for `settings`: per group, the trimmed non-blank MP4 folders; and the MP3
/// folder, as written, when it is not blank.
pub fn scan_plan(settings: &AppSettings) -> (r: ScanPlan)
    requires
        settings.mp4_folder_paths.deep_view().len() >= NUM_GROUPS,
    ensures
        r.video_folders.deep_view().len() == NUM_GROUPS,
        forall|g: int|
            0 <= g < NUM_GROUPS ==> #[trigger] r.video_folders.deep_view()[g] == scan_folders_of(
                settings.mp4_folder_paths.deep_view()[g],
            ),
        r.audio_folder matches Some(f) ==> f@ == settings.mp3_folder_path@,
        r.audio_folder is Some <==> !crate::text::is_blank_spec(settings.mp3_folder_path@),
{
    let mut video_folders: Vec<Vec<String>> = Vec::new();
    let mut g: usize = 0;
    while g < NUM_GROUPS
        invariant
            g <= NUM_GROUPS,
            settings.mp4_folder_paths.deep_view().len() >= NUM_GROUPS,
            video_folders.len() == g,
            forall|j: int|
                0 <= j < g ==> #[trigger] video_folders@[j].deep_view() == scan_folders_of(
                    settings.mp4_folder_paths.deep_view()[j],
                ),
        decreases NUM_GROUPS - g,
    {
        let group = &settings.mp4_folder_paths[g];
        let ghost gs = group.deep_view();
        assert(gs == settings.mp4_folder_paths.deep_view()[g as int]);
        let mut folders: Vec<String> = Vec::new();
        let mut f: usize = 0;
        assert(gs.take(0) =~= Seq::<Seq<char>>::empty());
        while f < group.len()
            invariant
                gs == group.deep_view(),
                f <= group.len(),
                folders.deep_view() == scan_folders_of(gs.take(f as int)),
            decreases group.len() - f,
        {
            assert(gs.take(f + 1).drop_last() =~= gs.take(f as int));
            let t = trim(group[f].as_str());
            if t.unicode_len() > 0 {
                folders.push(t);
            }
            assert(folders.deep_view() =~= scan_folders_of(gs.take(f + 1)));
            f += 1;
        }
        assert(gs.take(f as int) =~= gs);
        video_folders.push(folders);
        g += 1;
    }
    assert(video_folders.deep_view().len() == NUM_GROUPS);
    let audio_folder = if is_blank(settings.mp3_folder_path.as_str()) {
        None
    } else {
        Some(settings.mp3_folder_path.clone())
    };
    ScanPlan { video_folders, audio_folder }
}

/// A uniformly random index below `len`, from `fastrand::usize(..len)`. Nothing is promised
/// of which index comes back beyond its range.
#[verifier::external_body]
fn random_index(len: usize) -> (r: usize)
    requires
        len > 0,
    ensures
        r < len,
{
    fastrand::usize(..len)
}

/// The path at `index` of `paths`: what a random choice picks once its index is drawn.
pub fn path_at(paths: &Vec<String>, index: usize) -> (r: String)
    requires
        index < paths@.len(),
    ensures
        r@ == paths.deep_view()[index as int],
{
    let p = paths[index].clone();
    assert(paths.deep_view()[index as int] == p@);
    p
}

/// One of `paths` at random, or `None` when there are none.
pub fn choose_random_path(paths: &Vec<String>) -> (r: Option<String>)
    ensures
        r is None <==> paths@.len() == 0,
        r matches Some(p) ==> paths.deep_view().contains(p@),
{
    if paths.len() == 0 {
        None
    } else {
        let i = random_index(paths.len());
        let p = path_at(paths, i);
        assert(paths.deep_view()[i as int] == p@);
        Some(p)
    }
}

/// `p` is none of the first `k` entries of `recent`.
pub open spec fn avoids(p: Seq<char>, recent: Seq<Seq<char>>, k: int) -> bool {
    forall|j: int| 0 <= j < k && j < recent.len() ==> recent[j] != p
}

/// Some path is none of the first `k` recent ones.
pub open spec fn has_candidate(paths: Seq<Seq<char>>, recent: Seq<Seq<char>>, k: int) -> bool {
    exists|i: int| 0 <= i < paths.len() && avoids(#[trigger] paths[i], recent, k)
}

/// How many of the most recent paths are excluded: the largest count up to `limit` that still
/// leaves a path to choose, or 0 when even one exclusion leaves nothing.
pub open spec fn exclusion_depth(paths: Seq<Seq<char>>, recent: Seq<Seq<char>>, limit: int) -> int
    decreases limit,
{
    if limit <= 0 {
        0
    } else if has_candidate(paths, recent, limit) {
        limit
    } else {
        exclusion_depth(paths, recent, limit - 1)
    }
}

/// The number of recent paths considered: at most `max_recent`.
pub open spec fn recent_limit(recent_len: int, max_recent: int) -> int {
    if recent_len < max_recent {
        recent_len
    } else {
        max_recent
    }
}

/// Whether `p` is among the first `k` entries of `recent`.
fn in_prefix(p: &String, recent: &Vec<String>, k: usize) -> (r: bool)
    ensures
        r == !avoids(p@, recent.deep_view(), k as int),
{
    let mut j: usize = 0;
    while j < k && j < recent.len()
        invariant
            forall|m: int| 0 <= m < j ==> recent.deep_view()[m] != p@,
            j <= recent.len(),
        decreases recent.len() - j,
    {
        if recent[j] == *p {
            assert(recent.deep_view()[j as int] == p@);
            return true;
        }
        assert(recent.deep_view()[j as int] == recent@[j as int]@);
        j += 1;
    }
    false
}

/// The entries of `paths`, in order, that are none of the first `k` recent paths.
pub open spec fn avoiding(paths: Seq<Seq<char>>, recent: Seq<Seq<char>>, k: int) -> Seq<Seq<char>>
    decreases paths.len(),
{
    if paths.len() == 0 {
        Seq::empty()
    } else {
        let rest = avoiding(paths.drop_last(), recent, k);
        if avoids(paths.last(), recent, k) {
            rest.push(paths.last())
        } else {
            rest
        }
    }
}

/// The paths a choice that avoids recent paths picks from: those that avoid the deepest
/// exclusion of the first `max_recent` recent paths that leaves any (all paths when none does).
pub open spec fn recent_avoiding_candidates_spec(paths: Seq<Seq<char>>, recent: Seq<Seq<char>>, max_recent: int) -> Seq<
    Seq<char>,
> {
    avoiding(paths, recent, exclusion_depth(paths, recent, recent_limit(recent.len() as int, max_recent)))
}

/// What the paths avoiding recent ones are: paths that avoid them, found exactly when some path
/// does; without an exclusion, all paths.
proof fn lemma_avoiding(paths: Seq<Seq<char>>, recent: Seq<Seq<char>>, k: int)
    ensures
        forall|c: int|
            0 <= c < avoiding(paths, recent, k).len() ==> paths.contains(#[trigger] avoiding(paths, recent, k)[c])
                && avoids(avoiding(paths, recent, k)[c], recent, k),
        avoiding(paths, recent, k).len() > 0 <==> has_candidate(paths, recent, k),
        k <= 0 ==> avoiding(paths, recent, k) == paths,
    decreases paths.len(),
{
    if paths.len() > 0 {
        let init = paths.drop_last();
        lemma_avoiding(init, recent, k);
        let rest = avoiding(init, recent, k);
        let last = paths.last();
        assert forall|c: int| 0 <= c < avoiding(paths, recent, k).len() implies paths.contains(
            #[trigger] avoiding(paths, recent, k)[c],
        ) && avoids(avoiding(paths, recent, k)[c], recent, k) by {
            if c < rest.len() {
                assert(avoiding(paths, recent, k)[c] == rest[c]);
                let m = choose|m: int| 0 <= m < init.len() && init[m] == rest[c];
                assert(paths[m] == init[m]);
            } else {
                assert(paths[paths.len() - 1] == last);
            }
        }
        if has_candidate(paths, recent, k) {
            let m = choose|m: int| 0 <= m < paths.len() && avoids(#[trigger] paths[m], recent, k);
            if m < init.len() {
                assert(init[m] == paths[m]);
                assert(has_candidate(init, recent, k));
            }
        }
        if has_candidate(init, recent, k) {
            let m = choose|m: int| 0 <= m < init.len() && avoids(#[trigger] init[m], recent, k);
            assert(paths[m] == init[m]);
        }
        if avoids(last, recent, k) {
            assert(paths[paths.len() - 1] == last);
        }
        if k <= 0 {
            assert(avoiding(paths, recent, k) =~= paths);
        }
    } else {
        if k <= 0 {
            assert(avoiding(paths, recent, k) =~= paths);
        }
    }
}

/// The entries of `paths`, in order, that are none of the first `k` of `recent`.
fn paths_avoiding(paths: &Vec<String>, recent: &Vec<String>, k: usize) -> (r: Vec<String>)
    ensures
        r.deep_view() == avoiding(paths.deep_view(), recent.deep_view(), k as int),
{
    let ghost ps = paths.deep_view();
    let ghost rs = recent.deep_view();
    let mut out: Vec<String> = Vec::new();
    let mut i: usize = 0;
    assert(ps.take(0) =~= Seq::<Seq<char>>::empty());
    while i < paths.len()
        invariant
            ps == paths.deep_view(),
            rs == recent.deep_view(),
            i <= paths.len(),
            out.deep_view() == avoiding(ps.take(i as int), rs, k as int),
        decreases paths.len() - i,
    {
        let ghost prev = out.deep_view();
        assert(ps.take(i + 1).drop_last() =~= ps.take(i as int));
        assert(ps.take(i + 1).last() == ps[i as int]);
        assert(ps[i as int] == paths@[i as int]@);
        if !in_prefix(&paths[i], recent, k) {
            let item = paths[i].clone();
            out.push(item);
            assert(out.deep_view() =~= prev.push(ps[i as int]));
        }
        i += 1;
    }
    assert(ps.take(i as int) =~= ps);
    out
}

/// The paths a choice that avoids the first `max_recent` of `recent_paths` picks from: the
/// exclusion is relaxed one path at a time until some path is left; with none left even then,
/// all paths.
pub fn recent_avoiding_candidates(paths: &Vec<String>, recent_paths: &Vec<String>, max_recent: usize) -> (r: Vec<
    String,
>)
    ensures
        r.deep_view() == recent_avoiding_candidates_spec(
            paths.deep_view(),
            recent_paths.deep_view(),
            max_recent as int,
        ),
{
    let ghost ps = paths.deep_view();
    let ghost rs = recent_paths.deep_view();
    let limit = if recent_paths.len() < max_recent {
        recent_paths.len()
    } else {
        max_recent
    };
    let mut count = limit;
    while count >= 1
        invariant
            ps == paths.deep_view(),
            rs == recent_paths.deep_view(),
            limit == recent_limit(recent_paths@.len() as int, max_recent as int),
            count <= limit,
            exclusion_depth(ps, rs, limit as int) == exclusion_depth(ps, rs, count as int),
        decreases count,
    {
        let candidates = paths_avoiding(paths, recent_paths, count);
        proof {
            lemma_avoiding(ps, rs, count as int);
        }
        if candidates.len() > 0 {
            return candidates;
        }
        count = count - 1;
    }
    paths_avoiding(paths, recent_paths, 0)
}

/// A random path that avoids as many of the most recent paths (the first `max_recent` of
/// `recent_paths`) as the library allows: the exclusion is relaxed one path at a time until
/// something is left; with no path left even then, any path. `None` when `paths` is empty.
pub fn choose_random_path_avoiding_recent(
    paths: &Vec<String>,
    recent_paths: &Vec<String>,
    max_recent: usize,
) -> (r: Option<String>)
    ensures
        r is None <==> paths@.len() == 0,
        r matches Some(p) ==> recent_avoiding_candidates_spec(
            paths.deep_view(),
            recent_paths.deep_view(),
            max_recent as int,
        ).contains(p@),
        r matches Some(p) ==> paths.deep_view().contains(p@) && avoids(
            p@,
            recent_paths.deep_view(),
            exclusion_depth(
                paths.deep_view(),
                recent_paths.deep_view(),
                recent_limit(recent_paths@.len() as int, max_recent as int),
            ),
        ),
{
    if paths.len() == 0 {
        return None;
    }
    let candidates = recent_avoiding_candidates(paths, recent_paths, max_recent);
    let ghost ps = paths.deep_view();
    let ghost rs = recent_paths.deep_view();
    let ghost depth = exclusion_depth(ps, rs, recent_limit(rs.len() as int, max_recent as int));
    proof {
        law_exclusion_is_deepest_possible(ps, rs, recent_limit(rs.len() as int, max_recent as int));
        lemma_avoiding(ps, rs, depth);
        if depth <= 0 {
            assert(ps.len() > 0);
        }
    }
    let chosen = choose_random_path(&candidates);
    proof {
        if let Some(p) = &chosen {
            let c = choose|c: int| 0 <= c < candidates.deep_view().len() && candidates.deep_view()[c] == p@;
            assert(ps.contains(candidates.deep_view()[c]));
        }
    }
    chosen
}

/// The exclusion used is the deepest one that leaves a choice: at that depth some path is left
/// (when the depth is above zero), and every deeper exclusion up to `limit` leaves none. In
/// particular, when some path avoids all of the `limit` most recent ones, the choice does.
pub proof fn law_exclusion_is_deepest_possible(paths: Seq<Seq<char>>, recent: Seq<Seq<char>>, limit: int)
    requires
        0 <= limit,
    ensures
        0 <= exclusion_depth(paths, recent, limit) <= limit,
        exclusion_depth(paths, recent, limit) > 0 ==> has_candidate(paths, recent, exclusion_depth(paths, recent, limit)),
        forall|k: int| exclusion_depth(paths, recent, limit) < k <= limit ==> !has_candidate(paths, recent, k),
        limit > 0 && has_candidate(paths, recent, limit) ==> exclusion_depth(paths, recent, limit) == limit,
    decreases limit,
{
    if limit > 0 && !has_candidate(paths, recent, limit) {
        law_exclusion_is_deepest_possible(paths, recent, limit - 1);
    }
}

proof fn lemma_concat_positions(s: Seq<Seq<Seq<char>>>, n: int)
    requires
        0 <= n <= s.len(),
    ensures
        concat_all(s.take(n)).len() == total_len(s.take(n)),
        forall|g: int, j: int|
            0 <= g < n && 0 <= j < s[g].len() ==> concat_all(s.take(n))[total_len(s.take(g)) + j] == #[trigger] s[g][j],
    decreases n,
{
    if n > 0 {
        lemma_concat_positions(s, n - 1);
        lemma_concat_step(s, n - 1);
        assert forall|g: int, j: int|
            0 <= g < n && 0 <= j < s[g].len() implies concat_all(s.take(n))[total_len(s.take(g)) + j]
            == #[trigger] s[g][j] by {
            if g < n - 1 {
                lemma_concat_step(s, g);
                assert(s.take(n - 1).take(g + 1) =~= s.take(g + 1));
                lemma_total_len_prefix(s.take(n - 1), g + 1);
            }
        }
    } else {
        assert(s.take(0) =~= Seq::<Seq<Seq<char>>>::empty());
    }
}

/// With all groups active, the videos are every video of every group, group after group: as
/// many as all groups hold together, video `j` of group `g` standing right after the videos of
/// the groups before `g`.
pub proof fn law_all_groups_hold_every_video(sets: Seq<Seq<Seq<char>>>)
    ensures
        active_videos_spec(sets, None).len() == total_len(sets),
        forall|g: int, j: int|
            0 <= g < sets.len() && 0 <= j < sets[g].len() ==> active_videos_spec(sets, None)[total_len(sets.take(g)) + j]
                == #[trigger] sets[g][j],
        forall|g: int, j: int|
            0 <= g < sets.len() && 0 <= j < sets[g].len() ==> active_videos_spec(sets, None).contains(
                #[trigger] sets[g][j],
            ),
{
    lemma_concat_positions(sets, sets.len() as int);
    assert(sets.take(sets.len() as int) =~= sets);
    assert forall|g: int, j: int|
        0 <= g < sets.len() && 0 <= j < sets[g].len() implies active_videos_spec(sets, None).contains(
        #[trigger] sets[g][j],
    ) by {
        lemma_concat_step(sets, g);
        assert(sets.take(g + 1) =~= sets.take(sets.len() as int).take(g + 1));
        lemma_total_len_prefix(sets, g + 1);
        assert(active_videos_spec(sets, None)[total_len(sets.take(g)) + j] == sets[g][j]);
    }
}

/// The trimmed text of every folder of a group.
pub open spec fn trimmed_folders(group: Seq<Seq<char>>) -> Seq<Seq<char>> {
    group.map_values(|f: Seq<char>| trim_spec(f))
}

/// Every non-blank folder of a group is scanned, and nothing else: the folders scanned are the
/// group's folders, trimmed, in order, without the blank ones; in particular each folder whose
/// trimmed text is not empty is among them.
pub proof fn law_every_nonblank_folder_is_scanned(group: Seq<Seq<char>>)
    ensures
        scan_folders_of(group) == trimmed_folders(group).filter(|t: Seq<char>| t.len() > 0),
        forall|f: int|
            0 <= f < group.len() && trim_spec(group[f]).len() > 0 ==> scan_folders_of(group).contains(
                trim_spec(#[trigger] group[f]),
            ),
        scan_folders_of(group).len() <= group.len(),
    decreases group.len(),
{
    let pred = |t: Seq<char>| t.len() > 0;
    let trimmed = trimmed_folders(group);
    reveal(Seq::filter);
    if group.len() > 0 {
        law_every_nonblank_folder_is_scanned(group.drop_last());
        assert(trimmed.drop_last() =~= trimmed_folders(group.drop_last()));
        assert(trimmed.last() == trim_spec(group.last()));
    }
    assert(scan_folders_of(group) == trimmed.filter(pred));
    trimmed.filter_lemma(pred);
    assert forall|f: int|
        0 <= f < group.len() && trim_spec(group[f]).len() > 0 implies scan_folders_of(group).contains(
        trim_spec(#[trigger] group[f]),
    ) by {
        assert(trimmed[f] == trim_spec(group[f]));
        assert(pred(trimmed[f]));
    }
}

} // verus!
