use vstd::prelude::*;

use crate::media::{
    active_videos_spec, avoids, has_candidate, choose_random_path_avoiding_recent, exclusion_depth, MediaLibrary,
};
use crate::playback::RANDOM_RECENT_EXCLUSION_COUNT;

verus! {

/// The most tiles multiview shows.
pub const MULTIVIEW_MAX_TILES: usize = 64;

/// How many finished or failed videos multiview remembers.
pub const MULTIVIEW_RECENT_LIMIT: usize = 128;

/// How many times one tile tries to load before giving up.
pub const MULTIVIEW_MAX_TILE_ATTEMPTS: u8 = 3;

/// A multiview cell: still loading its first player, or showing a video.
#[derive(Debug, Clone, PartialEq, Eq)]
pub enum TileState {
    Loading,
    /// Shows `path`; `replacing` while its replacement is being loaded.
    Ready { path: String, replacing: bool },
}

/// The multiview tiles, the recently shown videos, and the loads in flight per tile.
#[derive(Debug)]
pub struct MultiviewState {
    pub tiles: Vec<TileState>,
    /// Finished or failed videos, oldest first.
    pub recent: Vec<String>,
    /// The path being loaded for a tile index; at most one entry per index.
    pub inflight: Vec<(usize, String)>,
}

/// What became of a finished tile load.
#[derive(Debug, Clone, PartialEq, Eq)]
pub enum TileLoadOutcome {
    /// The tile no longer exists; the player is dropped.
    Discarded,
    /// The player now shows in the tile (any earlier player of the tile is stopped).
    Installed,
    /// The load failed; another path is being loaded, with the given attempt count.
    Retry { path: String, attempts: u8 },
    /// The load failed and no other path is available right now.
    NoAlternative,
    /// The load failed too often; the error is reported.
    GaveUp,
}

/// A correction of the number of tiles.
#[derive(Debug, Clone, PartialEq, Eq)]
pub enum TileCountChange {
    Unchanged,
    /// A tile was added at `index`; `path` is what it loads, if anything was available.
    Added { index: usize, path: Option<String> },
    /// The last tile was removed; `was_ready` when it showed a video (its player is stopped).
    Removed { was_ready: bool },
}

/// The path a tile shows, if it is ready.
pub open spec fn tile_path(t: TileState) -> Option<Seq<char>> {
    match t {
        TileState::Ready { path, .. } => Some(path@),
        TileState::Loading => None,
    }
}

/// Whether a tile shows a video whose replacement has not been requested.
pub open spec fn shows_unreplaced(t: TileState) -> bool {
    match t {
        TileState::Ready { replacing, .. } => !replacing,
        TileState::Loading => false,
    }
}

/// Paths of the ready tiles among the first `n`, except tile `skip`.
pub open spec fn ready_paths(tiles: Seq<TileState>, skip: Option<usize>, n: int) -> Seq<Seq<char>>
    decreases n,
{
    if n <= 0 {
        Seq::empty()
    } else {
        let rest = ready_paths(tiles, skip, n - 1);
        match tile_path(tiles[n - 1]) {
            Some(p) => if skip == Some((n - 1) as usize) {
                rest
            } else {
                rest.push(p)
            },
            None => rest,
        }
    }
}

/// Paths of the first `n` loads in flight, except the one for tile `skip`.
pub open spec fn inflight_paths(inflight: Seq<(usize, String)>, skip: Option<usize>, n: int) -> Seq<
    Seq<char>,
>
    decreases n,
{
    if n <= 0 {
        Seq::empty()
    } else {
        let rest = inflight_paths(inflight, skip, n - 1);
        if skip == Some(inflight[n - 1].0) {
            rest
        } else {
            rest.push(inflight[n - 1].1@)
        }
    }
}

/// The paths on screen or on their way, except for tile `skip`: the ready tiles in order, then
/// the loads in flight.
pub open spec fn occupied_spec(tiles: Seq<TileState>, inflight: Seq<(usize, String)>, skip: Option<usize>) -> Seq<
    Seq<char>,
> {
    ready_paths(tiles, skip, tiles.len() as int) + inflight_paths(inflight, skip, inflight.len() as int)
}

/// The most recent entries of `recent`, newest first, at most [`RANDOM_RECENT_EXCLUSION_COUNT`].
pub open spec fn newest_recent(recent: Seq<Seq<char>>) -> Seq<Seq<char>> {
    let n: int = if recent.len() < RANDOM_RECENT_EXCLUSION_COUNT {
        recent.len() as int
    } else {
        RANDOM_RECENT_EXCLUSION_COUNT as int
    };
    Seq::new(n as nat, |k: int| recent[recent.len() - 1 - k])
}

/// `recent` after `path` was appended and the oldest entries beyond the limit dropped.
pub open spec fn pushed_recent(recent: Seq<Seq<char>>, path: Seq<char>) -> Seq<Seq<char>> {
    let all = recent.push(path);
    if all.len() > MULTIVIEW_RECENT_LIMIT {
        all.skip(all.len() - MULTIVIEW_RECENT_LIMIT)
    } else {
        all
    }
}

/// Whether the loads in flight have at most one entry per tile index.
pub open spec fn keys_unique(inflight: Seq<(usize, String)>) -> bool {
    forall|i: int, j: int|
        0 <= i < inflight.len() && 0 <= j < inflight.len() && i != j ==> (#[trigger] inflight[i]).0
            != (#[trigger] inflight[j]).0
}

/// Whether tile `index` has a load in flight.
pub open spec fn has_inflight(inflight: Seq<(usize, String)>, index: usize) -> bool {
    exists|i: int| 0 <= i < inflight.len() && (#[trigger] inflight[i]).0 == index
}

/// What a new load for tile `index` must avoid: the other tiles' paths and loads, then the
/// newest recent videos.
pub open spec fn avoided_for(state: MultiviewState, index: usize) -> Seq<Seq<char>> {
    occupied_spec(state.tiles@, state.inflight@, Some(index)) + newest_recent(state.recent.deep_view())
}

/// `p` is a proper choice among `videos` when `avoided` must be avoided as far as possible.
pub open spec fn good_choice(p: Seq<char>, videos: Seq<Seq<char>>, avoided: Seq<Seq<char>>) -> bool {
    &&& videos.contains(p)
    &&& avoids(p, avoided, exclusion_depth(videos, avoided, avoided.len() as int))
}

proof fn lemma_inflight_paths_agree(a: Seq<(usize, String)>, b: Seq<(usize, String)>, skip: Option<usize>, n: int)
    requires
        0 <= n <= a.len(),
        n <= b.len(),
        forall|i: int| 0 <= i < n ==> a[i] == b[i],
    ensures
        inflight_paths(a, skip, n) == inflight_paths(b, skip, n),
    decreases n,
{
    if n > 0 {
        lemma_inflight_paths_agree(a, b, skip, n - 1);
    }
}

proof fn lemma_ready_paths_agree(a: Seq<TileState>, b: Seq<TileState>, skip: Option<usize>, n: int)
    requires
        0 <= n <= a.len(),
        n <= b.len(),
        forall|i: int| 0 <= i < n ==> a[i] == b[i],
    ensures
        ready_paths(a, skip, n) == ready_paths(b, skip, n),
    decreases n,
{
    if n > 0 {
        lemma_ready_paths_agree(a, b, skip, n - 1);
    }
}

/// `after` is `before` without the entry for tile `index` (if there was one).
pub open spec fn inflight_removed(before: Seq<(usize, String)>, after: Seq<(usize, String)>, index: usize) -> bool {
    &&& !has_inflight(after, index)
    &&& has_inflight(before, index) ==> exists|pos: int|
        0 <= pos < before.len() && (#[trigger] before[pos]).0 == index && after == before.remove(pos)
    &&& !has_inflight(before, index) ==> after == before
}

/// `after` is `before` with tile `index` now loading `path`.
pub open spec fn inflight_inserted(
    before: Seq<(usize, String)>,
    after: Seq<(usize, String)>,
    index: usize,
    path: String,
) -> bool {
    &&& has_inflight(before, index) ==> exists|pos: int|
        0 <= pos < before.len() && (#[trigger] before[pos]).0 == index && after == before.update(
            pos,
            (index, path),
        )
    &&& !has_inflight(before, index) ==> after == before.push((index, path))
}

/// Removing the entry of the skipped tile leaves the other loads' paths as they were.
proof fn lemma_inflight_paths_remove_skipped(s: Seq<(usize, String)>, pos: int, skip: usize)
    requires
        0 <= pos < s.len(),
        s[pos].0 == skip,
    ensures
        inflight_paths(s.remove(pos), Some(skip), s.len() - 1) == inflight_paths(s, Some(skip), s.len() as int),
{
    let t = s.remove(pos);
    assert forall|n: int| 0 <= n <= pos implies #[trigger] inflight_paths(t, Some(skip), n)
        == inflight_paths(s, Some(skip), n) by {
        lemma_inflight_paths_agree(t, s, Some(skip), n);
    }
    lemma_remove_tail(s, t, pos, skip, s.len() as int);
}

proof fn lemma_remove_tail(s: Seq<(usize, String)>, t: Seq<(usize, String)>, pos: int, skip: usize, n: int)
    requires
        0 <= pos < s.len(),
        s[pos].0 == skip,
        t == s.remove(pos),
        pos < n <= s.len(),
        inflight_paths(t, Some(skip), pos) == inflight_paths(s, Some(skip), pos),
    ensures
        inflight_paths(t, Some(skip), n - 1) == inflight_paths(s, Some(skip), n),
    decreases n,
{
    if n - 1 > pos {
        lemma_remove_tail(s, t, pos, skip, n - 1);
        assert(t[n - 2] == s[n - 1]);
    }
}

impl MultiviewState {
    /// At most one load in flight per tile.
    pub open spec fn wf(&self) -> bool {
        keys_unique(self.inflight@)
    }

    /// No tiles, nothing recent, nothing loading.
    pub fn new() -> (r: Self)
        ensures
            r.wf(),
            r.tiles@.len() == 0,
            r.recent@.len() == 0,
            r.inflight@.len() == 0,
    {
        MultiviewState { tiles: Vec::new(), recent: Vec::new(), inflight: Vec::new() }
    }

    /// Drops all tiles and forgets their loads (the players are stopped by the caller).
    pub fn stop_multiview(&mut self)
        ensures
            final(self).wf(),
            final(self).tiles@.len() == 0,
            final(self).inflight@.len() == 0,
            final(self).recent == old(self).recent,
    {
        self.tiles.clear();
        self.inflight.clear();
    }

    /// Forgets the recent videos.
    pub fn clear_recent(&mut self)
        ensures
            final(self).recent@.len() == 0,
            final(self).tiles == old(self).tiles,
            final(self).inflight == old(self).inflight,
    {
        self.recent.clear();
    }

    /// Remembers `path` as recent, keeping only the newest [`MULTIVIEW_RECENT_LIMIT`].
    pub fn push_multiview_recent(&mut self, path: String)
        ensures
            final(self).recent.deep_view() == pushed_recent(old(self).recent.deep_view(), path@),
            final(self).recent@.len() <= MULTIVIEW_RECENT_LIMIT,
            final(self).recent.deep_view().last() == path@,
            final(self).tiles == old(self).tiles,
            final(self).inflight == old(self).inflight,
    {
        let ghost before = self.recent.deep_view();
        let ghost p = path@;
        self.recent.push(path);
        let ghost all = self.recent.deep_view();
        assert(all =~= before.push(p));
        let len = self.recent.len();
        if len > MULTIVIEW_RECENT_LIMIT {
            let overflow = len - MULTIVIEW_RECENT_LIMIT;
            let mut kept: Vec<String> = Vec::new();
            let mut i: usize = overflow;
            while i < len
                invariant
                    len == self.recent.len(),
                    all == self.recent.deep_view(),
                    overflow <= i <= len,
                    kept.deep_view() == all.subrange(overflow as int, i as int),
                decreases len - i,
            {
                let item = self.recent[i].clone();
                assert(all[i as int] == item@);
                let ghost prev = kept.deep_view();
                kept.push(item);
                assert(kept.deep_view() =~= prev.push(item@));
                assert(kept.deep_view() =~= all.subrange(overflow as int, i + 1));
                i += 1;
            }
            self.recent = kept;
            assert(all.subrange(overflow as int, len as int) =~= all.skip(overflow as int));
        }
    }

    /// The paths on screen or loading, except for tile `skip`.
    pub fn occupied_tile_paths(&self, skip: Option<usize>) -> (r: Vec<String>)
        ensures
            r.deep_view() == occupied_spec(self.tiles@, self.inflight@, skip),
    {
        let mut out: Vec<String> = Vec::new();
        let mut i: usize = 0;
        while i < self.tiles.len()
            invariant
                i <= self.tiles.len(),
                out.deep_view() == ready_paths(self.tiles@, skip, i as int),
            decreases self.tiles.len() - i,
        {
            let ghost prev = out.deep_view();
            match &self.tiles[i] {
                TileState::Ready { path, .. } => {
                    if skip != Some(i) {
                        let item = path.clone();
                        out.push(item);
                        assert(out.deep_view() =~= prev.push(item@));
                    }
                },
                TileState::Loading => {},
            }
            i += 1;
        }
        let ghost first = out.deep_view();
        let mut j: usize = 0;
        while j < self.inflight.len()
            invariant
                j <= self.inflight.len(),
                first == ready_paths(self.tiles@, skip, self.tiles@.len() as int),
                out.deep_view() == first + inflight_paths(self.inflight@, skip, j as int),
            decreases self.inflight.len() - j,
        {
            let ghost prev = out.deep_view();
            if skip != Some(self.inflight[j].0) {
                let item = self.inflight[j].1.clone();
                out.push(item);
                assert(out.deep_view() =~= prev.push(item@));
            }
            j += 1;
        }
        out
    }

    /// A random video for a tile from `videos`, avoiding `occupied` and the newest recent videos
    /// as far as possible.
    pub fn choose_multiview_video_path(&self, videos: &Vec<String>, occupied: &Vec<String>) -> (r: Option<String>)
        ensures
            r is None <==> videos@.len() == 0,
            r matches Some(p) ==> good_choice(
                p@,
                videos.deep_view(),
                occupied.deep_view() + newest_recent(self.recent.deep_view()),
            ),
    {
        let mut avoided = crate::config::clone_strings(occupied);
        let ghost base = avoided.deep_view();
        let ghost rs = self.recent.deep_view();
        let len = self.recent.len();
        let mut k: usize = 0;
        while k < RANDOM_RECENT_EXCLUSION_COUNT && k < len
            invariant
                len == self.recent@.len(),
                rs == self.recent.deep_view(),
                k <= len,
                k <= RANDOM_RECENT_EXCLUSION_COUNT,
                avoided.deep_view() == base + newest_recent(rs).take(k as int),
            decreases len - k,
        {
            let item = self.recent[len - 1 - k].clone();
            assert(rs[len - 1 - k] == item@);
            let ghost prev = avoided.deep_view();
            avoided.push(item);
            assert(avoided.deep_view() =~= prev.push(item@));
            assert(newest_recent(rs)[k as int] == item@);
            assert(avoided.deep_view() =~= base + newest_recent(rs).take(k + 1));
            k += 1;
        }
        assert(newest_recent(rs).take(k as int) =~= newest_recent(rs));
        let limit = avoided.len();
        choose_random_path_avoiding_recent(videos, &avoided, limit)
    }

    /// Forgets the load in flight for tile `index`, if any.
    pub fn remove_inflight(&mut self, index: usize)
        requires
            old(self).wf(),
        ensures
            final(self).wf(),
            inflight_removed(old(self).inflight@, final(self).inflight@, index),
            final(self).tiles == old(self).tiles,
            final(self).recent == old(self).recent,
    {
        let mut i: usize = 0;
        while i < self.inflight.len()
            invariant
                i <= self.inflight@.len(),
                forall|m: int| 0 <= m < i ==> (#[trigger] self.inflight@[m]).0 != index,
                self.inflight == old(self).inflight,
                self.tiles == old(self).tiles,
                self.recent == old(self).recent,
                keys_unique(self.inflight@),
            decreases self.inflight@.len() - i,
        {
            if self.inflight[i].0 == index {
                let ghost before = self.inflight@;
                self.inflight.remove(i);
                proof {
                    let s = self.inflight@;
                    assert forall|a: int, b: int|
                        0 <= a < s.len() && 0 <= b < s.len() && a != b implies (#[trigger] s[a]).0
                            != (#[trigger] s[b]).0 by {
                        let oa = if a < i { a } else { a + 1 };
                        let ob = if b < i { b } else { b + 1 };
                        assert(s[a] == before[oa]);
                        assert(s[b] == before[ob]);
                    }
                    assert forall|m: int| 0 <= m < s.len() implies (#[trigger] s[m]).0 != index by {
                        let om = if m < i { m } else { m + 1 };
                        assert(s[m] == before[om]);
                        assert(before[i as int].0 == index);
                    }
                    assert(0 <= i < before.len() && before[i as int].0 == index);
                }
                return;
            }
            i += 1;
        }
    }

    /// Records that `path` is being loaded for tile `index`, replacing an earlier entry.
    pub fn insert_inflight(&mut self, index: usize, path: String)
        requires
            old(self).wf(),
        ensures
            final(self).wf(),
            inflight_inserted(old(self).inflight@, final(self).inflight@, index, path),
            final(self).tiles == old(self).tiles,
            final(self).recent == old(self).recent,
    {
        let mut i: usize = 0;
        while i < self.inflight.len()
            invariant
                i <= self.inflight@.len(),
                forall|m: int| 0 <= m < i ==> (#[trigger] self.inflight@[m]).0 != index,
                self.inflight == old(self).inflight,
                self.tiles == old(self).tiles,
                self.recent == old(self).recent,
                keys_unique(self.inflight@),
            decreases self.inflight@.len() - i,
        {
            if self.inflight[i].0 == index {
                let ghost before = self.inflight@;
                self.inflight.set(i, (index, path));
                proof {
                    let s = self.inflight@;
                    assert forall|a: int, b: int|
                        0 <= a < s.len() && 0 <= b < s.len() && a != b implies (#[trigger] s[a]).0
                            != (#[trigger] s[b]).0 by {
                        assert(s[a].0 == before[a].0);
                        assert(s[b].0 == before[b].0);
                    }
                    assert(0 <= i < before.len() && before[i as int].0 == index);
                    assert(s == before.update(i as int, (index, s[i as int].1)));
                }
                return;
            }
            i += 1;
        }
        let ghost before = self.inflight@;
        self.inflight.push((index, path));
        proof {
            let s = self.inflight@;
            assert forall|a: int, b: int|
                0 <= a < s.len() && 0 <= b < s.len() && a != b implies (#[trigger] s[a]).0 != (
                #[trigger] s[b]).0 by {
                if a < before.len() {
                    assert(s[a] == before[a]);
                }
                if b < before.len() {
                    assert(s[b] == before[b]);
                }
            }
        }
    }

    /// Starts a load for tile `index`: a random video of the active folder that avoids the other
    /// tiles' videos and the newest recent ones as far as possible. `None` without videos.
    pub fn enqueue_tile_load(&mut self, library: &MediaLibrary, active: Option<usize>, index: usize) -> (r:
        Option<String>)
        requires
            old(self).wf(),
        ensures
            final(self).wf(),
            r is None <==> active_videos_spec(library.mp4_sets.deep_view(), active).len() == 0,
            r is None ==> *final(self) == *old(self),
            r matches Some(p) ==> {
                &&& good_choice(p@, active_videos_spec(library.mp4_sets.deep_view(), active), avoided_for(*old(self), index))
                &&& inflight_inserted(old(self).inflight@, final(self).inflight@, index, p)
                &&& final(self).tiles == old(self).tiles
                &&& final(self).recent == old(self).recent
            },
    {
        let videos = library.active_videos(active);
        if videos.len() == 0 {
            return None;
        }
        let occupied = self.occupied_tile_paths(Some(index));
        match self.choose_multiview_video_path(&videos, &occupied) {
            Some(path) => {
                self.insert_inflight(index, path.clone());
                Some(path)
            },
            None => None,
        }
    }

    /// A tile whose replacement failed shows its video again without waiting for one.
    pub fn clear_tile_replacing(&mut self, index: usize)
        ensures
            final(self).tiles@.len() == old(self).tiles@.len(),
            forall|i: int| 0 <= i < old(self).tiles@.len() && i != index ==> #[trigger] final(self).tiles@[i] == old(self).tiles@[i],
            index < old(self).tiles@.len() ==> final(self).tiles@[index as int] == match old(self).tiles@[index as int] {
                TileState::Ready { path, .. } => TileState::Ready { path, replacing: false },
                TileState::Loading => TileState::Loading,
            },
            final(self).recent == old(self).recent,
            final(self).inflight == old(self).inflight,
    {
        if index < self.tiles.len() {
            let replacement = match &self.tiles[index] {
                TileState::Ready { path, .. } => Some(path.clone()),
                TileState::Loading => None,
            };
            if let Some(path) = replacement {
                self.tiles.set(index, TileState::Ready { path, replacing: false });
            }
        }
    }

    /// A ready tile's video finished: unless its replacement is already on the way, it is marked
    /// as being replaced and its path is returned.
    pub fn mark_finished(&mut self, index: usize) -> (r: Option<String>)
        ensures
            final(self).tiles@.len() == old(self).tiles@.len(),
            forall|i: int| 0 <= i < old(self).tiles@.len() && i != index ==> #[trigger] final(self).tiles@[i] == old(self).tiles@[i],
            r is Some <==> (index < old(self).tiles@.len() && shows_unreplaced(old(self).tiles@[index as int])),
            r matches Some(p) ==> old(self).tiles@[index as int] == (TileState::Ready { path: p, replacing: false })
                && final(self).tiles@[index as int] == (TileState::Ready { path: p, replacing: true }),
            r is None ==> final(self).tiles == old(self).tiles,
            final(self).recent == old(self).recent,
            final(self).inflight == old(self).inflight,
    {
        if index < self.tiles.len() {
            let finished = match &self.tiles[index] {
                TileState::Ready { path, replacing } => if *replacing {
                    None
                } else {
                    Some(path.clone())
                },
                TileState::Loading => None,
            };
            if let Some(path) = finished {
                self.tiles.set(index, TileState::Ready { path: path.clone(), replacing: true });
                return Some(path);
            }
        }
        None
    }

    /// A finished tile's video becomes recent and a replacement load starts; without a video to
    /// load the tile keeps showing its video and may be replaced at its next finish.
    pub fn replace_finished(&mut self, library: &MediaLibrary, active: Option<usize>, index: usize, old_path: String) -> (r:
        Option<String>)
        requires
            old(self).wf(),
        ensures
            final(self).wf(),
            final(self).recent.deep_view() == pushed_recent(old(self).recent.deep_view(), old_path@),
            r is None <==> active_videos_spec(library.mp4_sets.deep_view(), active).len() == 0,
            r matches Some(p) ==> {
                &&& good_choice(
                    p@,
                    active_videos_spec(library.mp4_sets.deep_view(), active),
                    occupied_spec(old(self).tiles@, old(self).inflight@, Some(index)) + newest_recent(
                        final(self).recent.deep_view(),
                    ),
                )
                &&& inflight_inserted(old(self).inflight@, final(self).inflight@, index, p)
                &&& final(self).tiles == old(self).tiles
            },
            r is None ==> final(self).inflight == old(self).inflight && final(self).tiles@.len() == old(self).tiles@.len()
                && (forall|i: int| 0 <= i < old(self).tiles@.len() && i != index ==> #[trigger] final(self).tiles@[i] == old(self).tiles@[i])
                && (index < old(self).tiles@.len() ==> final(self).tiles@[index as int] == match old(self).tiles@[index as int] {
                    TileState::Ready { path, .. } => TileState::Ready { path, replacing: false },
                    TileState::Loading => TileState::Loading,
                }),
    {
        self.push_multiview_recent(old_path);
        let r = self.enqueue_tile_load(library, active, index);
        if r.is_none() {
            self.clear_tile_replacing(index);
        }
        r
    }

    /// A tile load finished. The load is forgotten; for a tile that no longer exists the player
    /// is discarded; a loaded player is installed; a failed path becomes recent and, below the
    /// attempt limit, another path is loaded (with one more attempt counted); otherwise the tile
    /// keeps what it shows.
    pub fn on_tile_loaded(
        &mut self,
        library: &MediaLibrary,
        active: Option<usize>,
        index: usize,
        path: String,
        attempts: u8,
        loaded: bool,
    ) -> (r: TileLoadOutcome)
        requires
            old(self).wf(),
        ensures
            final(self).wf(),
            index >= old(self).tiles@.len() ==> r == TileLoadOutcome::Discarded && final(self).tiles == old(self).tiles
                && final(self).recent == old(self).recent && inflight_removed(old(self).inflight@, final(self).inflight@, index),
            index < old(self).tiles@.len() && loaded ==> {
                &&& r == TileLoadOutcome::Installed
                &&& final(self).tiles@ == old(self).tiles@.update(index as int, TileState::Ready { path, replacing: false })
                &&& final(self).recent == old(self).recent
                &&& inflight_removed(old(self).inflight@, final(self).inflight@, index)
            },
            index < old(self).tiles@.len() && !loaded ==> {
                &&& final(self).recent.deep_view() == pushed_recent(old(self).recent.deep_view(), path@)
                &&& attempts + 1 < MULTIVIEW_MAX_TILE_ATTEMPTS && active_videos_spec(library.mp4_sets.deep_view(), active).len() > 0
                    <==> r is Retry
                &&& r matches TileLoadOutcome::Retry { path: p, attempts: a } ==> {
                    &&& a == attempts + 1
                    &&& good_choice(
                        p@,
                        active_videos_spec(library.mp4_sets.deep_view(), active),
                        occupied_spec(old(self).tiles@, old(self).inflight@, Some(index)) + newest_recent(
                            final(self).recent.deep_view(),
                        ),
                    )
                    &&& final(self).tiles == old(self).tiles
                    &&& final(self).inflight@.len() > 0
                    &&& final(self).inflight@.last() == (index, p)
                    &&& inflight_removed(old(self).inflight@, final(self).inflight@.drop_last(), index)
                }
                &&& r == TileLoadOutcome::NoAlternative <==> (attempts + 1 < MULTIVIEW_MAX_TILE_ATTEMPTS
                    && active_videos_spec(library.mp4_sets.deep_view(), active).len() == 0)
                &&& r == TileLoadOutcome::GaveUp <==> attempts + 1 >= MULTIVIEW_MAX_TILE_ATTEMPTS
                &&& !(r is Retry) ==> {
                    &&& final(self).tiles@.len() == old(self).tiles@.len()
                    &&& forall|i: int| 0 <= i < old(self).tiles@.len() && i != index ==> #[trigger] final(self).tiles@[i] == old(self).tiles@[i]
                    &&& final(self).tiles@[index as int] == match old(self).tiles@[index as int] {
                        TileState::Ready { path, .. } => TileState::Ready { path, replacing: false },
                        TileState::Loading => TileState::Loading,
                    }
                    &&& inflight_removed(old(self).inflight@, final(self).inflight@, index)
                }
            },
    {
        self.remove_inflight(index);
        let ghost removed = self.inflight@;
        if index >= self.tiles.len() {
            return TileLoadOutcome::Discarded;
        }
        if loaded {
            self.tiles.set(index, TileState::Ready { path, replacing: false });
            return TileLoadOutcome::Installed;
        }
        self.push_multiview_recent(path);
        if (attempts as u16) + 1 < MULTIVIEW_MAX_TILE_ATTEMPTS as u16 {
            proof {
                if has_inflight(old(self).inflight@, index) {
                    let pos = choose|pos: int|
                        0 <= pos < old(self).inflight@.len() && (#[trigger] old(self).inflight@[pos]).0 == index
                            && removed == old(self).inflight@.remove(pos);
                    lemma_inflight_paths_remove_skipped(old(self).inflight@, pos, index);
                }
            }
            match self.enqueue_tile_load(library, active, index) {
                Some(p) => {
                    proof {
                        assert(!has_inflight(removed, index));
                        assert(self.inflight@ == removed.push((index, p)));
                        assert(self.inflight@.drop_last() =~= removed);
                    }
                    TileLoadOutcome::Retry { path: p, attempts: attempts + 1 }
                },
                None => {
                    self.clear_tile_replacing(index);
                    TileLoadOutcome::NoAlternative
                },
            }
        } else {
            self.clear_tile_replacing(index);
            TileLoadOutcome::GaveUp
        }
    }

    /// Corrects the tile count by at most one: adds a tile when the layout asks for more (below
    /// the maximum, with videos available), else removes the last tile when the layout used
    /// fewer tiles than there are.
    pub fn adjust_tile_count(&mut self, library: &MediaLibrary, active: Option<usize>, needs_more: bool, used_tiles: usize) -> (r:
        TileCountChange)
        requires
            old(self).wf(),
        ensures
            final(self).wf(),
            final(self).recent == old(self).recent,
            old(self).tiles@.len() <= MULTIVIEW_MAX_TILES ==> final(self).tiles@.len() <= MULTIVIEW_MAX_TILES,
            ({
                let len = old(self).tiles@.len();
                let has_videos = active_videos_spec(library.mp4_sets.deep_view(), active).len() > 0;
                if needs_more && len < MULTIVIEW_MAX_TILES && has_videos {
                    &&& r matches TileCountChange::Added { index, path }
                    &&& index == len
                    &&& final(self).tiles@ == old(self).tiles@.push(TileState::Loading)
                    &&& path matches Some(p)
                    &&& good_choice(p@, active_videos_spec(library.mp4_sets.deep_view(), active), avoided_for(*old(self), len as usize))
                    &&& inflight_inserted(old(self).inflight@, final(self).inflight@, len as usize, p)
                } else if used_tiles < len {
                    &&& r == TileCountChange::Removed { was_ready: old(self).tiles@.last() is Ready }
                    &&& final(self).tiles@ == old(self).tiles@.drop_last()
                    &&& inflight_removed(old(self).inflight@, final(self).inflight@, (len - 1) as usize)
                } else {
                    &&& r == TileCountChange::Unchanged
                    &&& *final(self) == *old(self)
                }
            }),
    {
        let len = self.tiles.len();
        let videos = library.active_videos(active);
        if needs_more && len < MULTIVIEW_MAX_TILES && videos.len() > 0 {
            self.tiles.push(TileState::Loading);
            let ghost pushed = *self;
            proof {
                lemma_ready_paths_agree(pushed.tiles@, old(self).tiles@, Some(len), len as int);
                assert(ready_paths(pushed.tiles@, Some(len), len + 1) == ready_paths(pushed.tiles@, Some(len), len as int));
            }
            let path = self.enqueue_tile_load(library, active, len);
            assert(avoided_for(pushed, len) == avoided_for(*old(self), len));
            return TileCountChange::Added { index: len, path };
        }
        if used_tiles < len {
            let last = self.tiles.pop();
            let was_ready = match last {
                Some(TileState::Ready { .. }) => true,
                _ => false,
            };
            self.remove_inflight(len - 1);
            return TileCountChange::Removed { was_ready };
        }
        TileCountChange::Unchanged
    }
}

/// The number of tiles to start with: the columns times the rows, clamped to at least one and
/// at most [`MULTIVIEW_MAX_TILES`].
pub fn initial_tile_count(cols: usize, rows: usize) -> (r: usize)
    requires
        cols * rows <= usize::MAX,
    ensures
        r == if cols * rows < 1 {
            1
        } else if cols * rows > MULTIVIEW_MAX_TILES {
            MULTIVIEW_MAX_TILES as int
        } else {
            cols * rows
        },
{
    let n = cols * rows;
    if n < 1 {
        1
    } else if n > MULTIVIEW_MAX_TILES {
        MULTIVIEW_MAX_TILES
    } else {
        n
    }
}

proof fn lemma_ready_paths_loading(tiles: Seq<TileState>, skip: Option<usize>, n: int)
    requires
        0 <= n <= tiles.len(),
        forall|i: int| 0 <= i < tiles.len() ==> #[trigger] tiles[i] == TileState::Loading,
    ensures
        ready_paths(tiles, skip, n) == Seq::<Seq<char>>::empty(),
    decreases n,
{
    if n > 0 {
        lemma_ready_paths_loading(tiles, skip, n - 1);
    }
}

proof fn lemma_inflight_paths_numbered(inflight: Seq<(usize, String)>, paths: Seq<Seq<char>>, skip: usize, n: int)
    requires
        0 <= n <= inflight.len(),
        inflight.len() == paths.len(),
        forall|j: int| 0 <= j < inflight.len() ==> (#[trigger] inflight[j]).0 == j && inflight[j].1@ == paths[j],
        inflight.len() <= skip,
    ensures
        inflight_paths(inflight, Some(skip), n) == paths.take(n),
    decreases n,
{
    if n > 0 {
        lemma_inflight_paths_numbered(inflight, paths, skip, n - 1);
        assert(paths.take(n) =~= paths.take(n - 1).push(paths[n - 1]));
    } else {
        assert(paths.take(0) =~= Seq::<Seq<char>>::empty());
    }
}

impl MultiviewState {
    /// Starts multiview afresh: all tiles and loads are dropped; with videos available,
    /// `tile_count` loading tiles are created and each gets a load, every path chosen to avoid
    /// the paths chosen before it and the newest recent videos as far as possible. Returns the
    /// paths, by tile.
    pub fn build_initial_multiview_slots(&mut self, library: &MediaLibrary, active: Option<usize>, tile_count: usize) -> (r:
        Vec<String>)
        requires
            old(self).wf(),
        ensures
            final(self).wf(),
            final(self).recent == old(self).recent,
            active_videos_spec(library.mp4_sets.deep_view(), active).len() == 0 ==> final(self).tiles@.len() == 0
                && final(self).inflight@.len() == 0 && r@.len() == 0,
            active_videos_spec(library.mp4_sets.deep_view(), active).len() > 0 ==> {
                &&& final(self).tiles@ == Seq::new(tile_count as nat, |i: int| TileState::Loading)
                &&& r@.len() == tile_count
                &&& final(self).inflight@.len() == tile_count
                &&& forall|i: int| 0 <= i < tile_count ==> #[trigger] final(self).inflight@[i] == (i as usize, r@[i])
                &&& forall|i: int|
                    0 <= i < tile_count ==> good_choice(
                        #[trigger] r.deep_view()[i],
                        active_videos_spec(library.mp4_sets.deep_view(), active),
                        r.deep_view().take(i) + newest_recent(old(self).recent.deep_view()),
                    )
            },
    {
        self.stop_multiview();
        let videos = library.active_videos(active);
        let mut out: Vec<String> = Vec::new();
        if videos.len() == 0 {
            return out;
        }
        let mut k: usize = 0;
        while k < tile_count
            invariant
                k <= tile_count,
                self.tiles@ == Seq::new(k as nat, |i: int| TileState::Loading),
                self.inflight@.len() == 0,
                self.recent == old(self).recent,
            decreases tile_count - k,
        {
            self.tiles.push(TileState::Loading);
            assert(self.tiles@ =~= Seq::new((k + 1) as nat, |i: int| TileState::Loading));
            k += 1;
        }
        let ghost vids = active_videos_spec(library.mp4_sets.deep_view(), active);
        let mut i: usize = 0;
        while i < tile_count
            invariant
                i <= tile_count,
                vids == active_videos_spec(library.mp4_sets.deep_view(), active),
                vids.len() > 0,
                self.wf(),
                self.tiles@ == Seq::new(tile_count as nat, |m: int| TileState::Loading),
                self.recent == old(self).recent,
                self.inflight@.len() == i,
                out@.len() == i,
                forall|j: int| 0 <= j < i ==> #[trigger] self.inflight@[j] == (j as usize, out@[j]),
                forall|j: int|
                    0 <= j < i ==> good_choice(
                        #[trigger] out.deep_view()[j],
                        vids,
                        out.deep_view().take(j) + newest_recent(old(self).recent.deep_view()),
                    ),
            decreases tile_count - i,
        {
            proof {
                lemma_ready_paths_loading(self.tiles@, Some(i), self.tiles@.len() as int);
                assert forall|j: int| 0 <= j < self.inflight@.len() implies (#[trigger] self.inflight@[j]).0 == j
                    && self.inflight@[j].1@ == out.deep_view()[j] by {
                    assert(self.inflight@[j] == (j as usize, out@[j]));
                }
                lemma_inflight_paths_numbered(self.inflight@, out.deep_view(), i, i as int);
                assert(out.deep_view().take(i as int) =~= out.deep_view());
                assert(avoided_for(*self, i) == out.deep_view() + newest_recent(self.recent.deep_view()));
                assert(!has_inflight(self.inflight@, i)) by {
                    if has_inflight(self.inflight@, i) {
                        let j = choose|j: int| 0 <= j < self.inflight@.len() && (#[trigger] self.inflight@[j]).0 == i;
                        assert(self.inflight@[j] == (j as usize, out@[j]));
                    }
                }
            }
            let ghost before_out = out.deep_view();
            match self.enqueue_tile_load(library, active, i) {
                Some(p) => {
                    let ghost pv = p@;
                    out.push(p);
                    proof {
                        assert(out.deep_view() =~= before_out.push(pv));
                        assert(out.deep_view().take(i as int) =~= before_out);
                        assert forall|j: int|
                            0 <= j < i + 1 implies good_choice(
                                #[trigger] out.deep_view()[j],
                                vids,
                                out.deep_view().take(j) + newest_recent(old(self).recent.deep_view()),
                            ) by {
                            if j < i {
                                assert(out.deep_view()[j] == before_out[j]);
                                assert(out.deep_view().take(j) =~= before_out.take(j));
                            }
                        }
                    }
                },
                None => {},
            }
            i += 1;
        }
        out
    }
}

/// The tiles built at the start of multiview show pairwise different videos whenever the active
/// folder has at least as many different videos as there are tiles.
pub proof fn law_initial_tiles_distinct_when_enough_videos(
    paths: Seq<Seq<char>>,
    videos: Seq<Seq<char>>,
    recent: Seq<Seq<char>>,
)
    requires
        forall|i: int|
            0 <= i < paths.len() ==> good_choice(#[trigger] paths[i], videos, paths.take(i) + newest_recent(recent)),
        videos.to_set().len() >= paths.len(),
    ensures
        forall|i: int, j: int| 0 <= i < j < paths.len() ==> paths[i] != paths[j],
{
    assert forall|i: int, j: int| 0 <= i < j < paths.len() implies paths[i] != paths[j] by {
        let chosen = paths.take(j);
        let avoided = chosen + newest_recent(recent);
        assert(good_choice(paths[j], videos, avoided));
        // Some video is none of the `j` chosen before: the chosen ones are too few.
        assert(has_candidate(videos, avoided, j)) by {
            chosen.lemma_cardinality_of_set();
            vstd::seq_lib::seq_to_set_is_finite(chosen);
            if videos.to_set().subset_of(chosen.to_set()) {
                vstd::set_lib::lemma_len_subset(videos.to_set(), chosen.to_set());
                assert(false);
            }
            let x = choose|x: Seq<char>| videos.to_set().contains(x) && !chosen.to_set().contains(x);
            let m = choose|m: int| 0 <= m < videos.len() && videos[m] == x;
            assert forall|k: int| 0 <= k < j && k < avoided.len() implies avoided[k] != videos[m] by {
                assert(avoided[k] == chosen[k]);
                assert(chosen.to_set().contains(chosen[k]));
            }
            assert(avoids(videos[m], avoided, j));
        }
        crate::media::law_exclusion_is_deepest_possible(videos, avoided, avoided.len() as int);
        assert(avoided[i] == paths[i]);
    }
}

/// A tile's video is none of the newest recent videos whenever the folder allows: when some
/// video is on no other tile, loading for none, and none of the `k + 1` most recently finished
/// videos (`k` below [`RANDOM_RECENT_EXCLUSION_COUNT`]), the chosen video is not the `k`-th most
/// recent one; in particular the video that finished last is not chosen again.
pub proof fn law_tile_choice_avoids_newest_recent(
    choice: Seq<char>,
    videos: Seq<Seq<char>>,
    occupied: Seq<Seq<char>>,
    recent: Seq<Seq<char>>,
    k: int,
)
    requires
        good_choice(choice, videos, occupied + newest_recent(recent)),
        0 <= k < RANDOM_RECENT_EXCLUSION_COUNT,
        k < recent.len(),
        exists|v: int|
            0 <= v < videos.len() && !occupied.contains(#[trigger] videos[v]) && !recent.subrange(
                recent.len() - 1 - k,
                recent.len() as int,
            ).contains(videos[v]),
    ensures
        choice != recent[recent.len() - 1 - k],
{
    let avoided = occupied + newest_recent(recent);
    let depth = occupied.len() + k + 1;
    let v = choose|v: int|
        0 <= v < videos.len() && !occupied.contains(#[trigger] videos[v]) && !recent.subrange(
            recent.len() - 1 - k,
            recent.len() as int,
        ).contains(videos[v]);
    assert forall|j: int| 0 <= j < depth && j < avoided.len() implies avoided[j] != videos[v] by {
        if j < occupied.len() {
            assert(avoided[j] == occupied[j]);
        } else {
            let m = j - occupied.len();
            assert(avoided[j] == recent[recent.len() - 1 - m]);
            let tail = recent.subrange(recent.len() - 1 - k, recent.len() as int);
            assert(tail[k - m] == recent[recent.len() - 1 - m]);
        }
    }
    assert(avoids(videos[v], avoided, depth));
    assert(has_candidate(videos, avoided, depth));
    crate::media::law_exclusion_is_deepest_possible(videos, avoided, avoided.len() as int);
    assert(avoided[occupied.len() + k] == recent[recent.len() - 1 - k]);
}

/// A tile's video differs from every video on the other tiles, loading for them, or among the
/// newest recent ones, whenever the folder has a video that is none of these.
pub proof fn law_tile_choice_avoids_when_possible(p: Seq<char>, videos: Seq<Seq<char>>, avoided: Seq<Seq<char>>)
    requires
        good_choice(p, videos, avoided),
        has_candidate(videos, avoided, avoided.len() as int),
    ensures
        !avoided.contains(p),
{
    crate::media::law_exclusion_is_deepest_possible(videos, avoided, avoided.len() as int);
    if avoided.len() == 0 {
    } else {
        if avoided.contains(p) {
            let j = choose|j: int| 0 <= j < avoided.len() && avoided[j] == p;
            assert(avoided[j] == p);
        }
    }
}

} // verus!
