use vstd::prelude::*;

use crate::config::clone_strings;
use crate::labels::{folder_label_spec, with_folder_label};
use crate::media::{
    active_videos_spec, avoids, choose_random_path_avoiding_recent, exclusion_depth,
    non_empty_count, recent_limit, MediaLibrary,
};

verus! {

/// Time before the end of a video at which the next one starts preloading.
pub const VIDEO_PRELOAD_BEFORE_END_MS: i64 = 2500;

/// Playback time after which a warming preload counts as warmed up.
pub const VIDEO_PRELOAD_WARMUP_MS: i64 = 140;

/// Time after which a warming preload is stopped even without a frame.
pub const VIDEO_PRELOAD_WARMUP_TIMEOUT_MS: u64 = 700;

/// Remaining time below which a video counts as finished when a preload is waiting.
pub const VIDEO_FINISH_GRACE_MS: i64 = 30;

/// How many recently played videos the random choice avoids.
pub const RANDOM_RECENT_EXCLUSION_COUNT: usize = 3;

/// The value after `x` in a wrapping counter.
pub open spec fn next_counter(x: u64) -> u64 {
    if x == u64::MAX {
        0
    } else {
        (x + 1) as u64
    }
}

/// A player's state as far as the playback logic distinguishes it.
#[derive(Debug, Clone, Copy, PartialEq, Eq, Structural)]
pub enum PlayerPhase {
    Stopped,
    EndOfFile,
    Paused,
    Playing,
    Other,
}

/// The warm-up state of a preloaded video.
#[derive(Debug, Clone, Copy, PartialEq, Eq, Structural)]
pub enum PreloadState {
    Cold,
    Warming,
    SeekingToStart,
    Ready,
}

/// What the player of a warming preload must do.
#[derive(Debug, Clone, Copy, PartialEq, Eq, Structural)]
pub enum PreloadAction {
    Nothing,
    /// Pause it and seek back to the start.
    PauseAndRewind,
}

/// What to do after the current video finished.
#[derive(Debug, Clone, Copy, PartialEq, Eq, Structural)]
pub enum Advance {
    /// Start the preloaded video.
    StartQueued,
    /// Load a new random video.
    PlayNext,
    /// A load is already on its way; keep the last frame.
    Wait,
}

/// The outcome of asking to step back in the history.
#[derive(Debug, Clone, PartialEq, Eq)]
pub enum PreviousVideo {
    /// Nothing before the current video.
    NoHistory,
    /// Load this path (without adding it to the history again).
    Load(String),
    /// The history holds no entry at that position; nothing happens.
    Missing,
}

/// The outcome of asking to switch the video folder.
#[derive(Debug, Clone, Copy, PartialEq, Eq, Structural)]
pub enum FolderSwitch {
    /// At most one group has videos; switching means nothing.
    Ignored,
    /// The requested group has no videos.
    Empty,
    /// Multiview: switched now; the tiles must be rebuilt.
    Immediate,
    /// Single view: takes effect after the current video.
    Deferred,
}

/// What reloading the library should start.
#[derive(Debug, Clone, Copy, PartialEq, Eq, Structural)]
pub enum ReloadAction {
    /// Videos exist and multiview is on: stop the single player and let multiview rebuild.
    StartMultiview,
    /// Videos exist: play a random video.
    PlayNext,
    /// No videos: stop and tell the user.
    NoVideos,
}

/// The recent history entries, most recent first: at most [`RANDOM_RECENT_EXCLUSION_COUNT`]
/// entries ending at the current history position.
pub open spec fn recent_spec(history: Seq<Seq<char>>, index: Option<usize>) -> Seq<Seq<char>> {
    let end: int = match index {
        Some(i) => if i + 1 < history.len() {
            i + 1
        } else {
            history.len() as int
        },
        None => history.len() as int,
    };
    let n: int = if end < RANDOM_RECENT_EXCLUSION_COUNT {
        end
    } else {
        RANDOM_RECENT_EXCLUSION_COUNT as int
    };
    Seq::new(n as nat, |k: int| history[end - 1 - k])
}

/// The history after `p` is played and added at position `index`: later entries are dropped,
/// `p` is appended.
pub open spec fn history_after_add(history: Seq<Seq<char>>, index: Option<usize>, p: Seq<char>) -> Seq<
    Seq<char>,
> {
    match index {
        Some(i) => history.take(i + 1),
        None => history,
    }.push(p)
}

/// The state of single-view playback, apart from the players themselves.
#[derive(Debug)]
pub struct PlaybackState {
    /// Played videos, oldest first.
    pub history: Vec<String>,
    /// Position of the current video in `history`.
    pub history_index: Option<usize>,
    /// The folder group videos are chosen from (`None`: all groups).
    pub active_folder: Option<usize>,
    /// A folder switch that takes effect after the current video.
    pub pending_folder: Option<Option<usize>>,
    /// Whether a preloaded next video is held.
    pub has_queued_video: bool,
    /// The folder the preloaded video was chosen for.
    pub queued_video_folder: Option<usize>,
    /// Whether a preload is being built.
    pub queued_in_flight: bool,
    /// Loads carrying another generation are stale.
    pub loader_generation: u64,
    /// The id the next single-view load gets.
    pub next_single_request_id: u64,
    /// The single-view load whose result is awaited.
    pub pending_single: Option<u64>,
    /// The video playing now.
    pub current_video: Option<String>,
}

impl PlaybackState {
    /// The history position points into the history, and is set whenever there is history.
    pub open spec fn wf(&self) -> bool {
        &&& (self.history_index matches Some(i) ==> i < self.history@.len())
        &&& (self.history@.len() > 0 ==> self.history_index is Some)
    }

    /// Nothing played, nothing loading, all groups active.
    pub fn new() -> (r: Self)
        ensures
            r.wf(),
            r.history@.len() == 0,
            r.history_index is None,
            r.active_folder is None,
            r.pending_folder is None,
            !r.has_queued_video,
            r.queued_video_folder is None,
            !r.queued_in_flight,
            r.loader_generation == 0,
            r.next_single_request_id == 0,
            r.pending_single is None,
            r.current_video is None,
    {
        PlaybackState {
            history: Vec::new(),
            history_index: None,
            active_folder: None,
            pending_folder: None,
            has_queued_video: false,
            queued_video_folder: None,
            queued_in_flight: false,
            loader_generation: 0,
            next_single_request_id: 0,
            pending_single: None,
            current_video: None,
        }
    }

    /// Makes every load in flight stale, and forgets the awaited single load and preload.
    pub fn bump_loader_generation(&mut self)
        ensures
            final(self).loader_generation == next_counter(old(self).loader_generation),
            final(self).pending_single is None,
            !final(self).queued_in_flight,
            final(self).history == old(self).history,
            final(self).history_index == old(self).history_index,
            final(self).active_folder == old(self).active_folder,
            final(self).pending_folder == old(self).pending_folder,
            final(self).has_queued_video == old(self).has_queued_video,
            final(self).queued_video_folder == old(self).queued_video_folder,
            final(self).next_single_request_id == old(self).next_single_request_id,
            final(self).current_video == old(self).current_video,
    {
        self.loader_generation = self.loader_generation.wrapping_add(1);
        self.pending_single = None;
        self.queued_in_flight = false;
    }

    /// Whether a finished load of `generation` is still wanted.
    pub fn is_current_generation(&self, generation: u64) -> (r: bool)
        ensures
            r == (generation == self.loader_generation),
    {
        generation == self.loader_generation
    }

    /// Drops the preloaded video (its player is stopped by the caller).
    pub fn clear_queued_video(&mut self)
        ensures
            !final(self).has_queued_video,
            final(self).queued_video_folder is None,
            final(self).queued_in_flight == old(self).queued_in_flight,
            final(self).history == old(self).history,
            final(self).history_index == old(self).history_index,
            final(self).active_folder == old(self).active_folder,
            final(self).pending_folder == old(self).pending_folder,
            final(self).loader_generation == old(self).loader_generation,
            final(self).next_single_request_id == old(self).next_single_request_id,
            final(self).pending_single == old(self).pending_single,
            final(self).current_video == old(self).current_video,
    {
        self.has_queued_video = false;
        self.queued_video_folder = None;
    }

    /// Starts a single-view load: the preload is dropped, and the returned request id is the
    /// only one whose result will be taken.
    pub fn begin_single_load(&mut self) -> (r: u64)
        ensures
            r == old(self).next_single_request_id,
            final(self).next_single_request_id == next_counter(r),
            final(self).pending_single == Some(r),
            !final(self).has_queued_video,
            final(self).queued_video_folder is None,
            !final(self).queued_in_flight,
            final(self).history == old(self).history,
            final(self).history_index == old(self).history_index,
            final(self).active_folder == old(self).active_folder,
            final(self).pending_folder == old(self).pending_folder,
            final(self).loader_generation == old(self).loader_generation,
            final(self).current_video == old(self).current_video,
    {
        self.clear_queued_video();
        self.queued_in_flight = false;
        let request_id = self.next_single_request_id;
        self.next_single_request_id = self.next_single_request_id.wrapping_add(1);
        self.pending_single = Some(request_id);
        request_id
    }

    /// Takes the result of single load `request_id` when it is the awaited one.
    pub fn accept_single_result(&mut self, request_id: u64) -> (r: bool)
        ensures
            r == (old(self).pending_single == Some(request_id)),
            r ==> final(self).pending_single is None,
            !r ==> final(self).pending_single == old(self).pending_single,
            final(self).history == old(self).history,
            final(self).history_index == old(self).history_index,
            final(self).active_folder == old(self).active_folder,
            final(self).pending_folder == old(self).pending_folder,
            final(self).has_queued_video == old(self).has_queued_video,
            final(self).queued_video_folder == old(self).queued_video_folder,
            final(self).queued_in_flight == old(self).queued_in_flight,
            final(self).loader_generation == old(self).loader_generation,
            final(self).next_single_request_id == old(self).next_single_request_id,
            final(self).current_video == old(self).current_video,
    {
        if self.pending_single == Some(request_id) {
            self.pending_single = None;
            true
        } else {
            false
        }
    }

    /// Records that `path` started playing; with `add_to_history`, whatever followed the
    /// current position is dropped and `path` becomes the newest history entry.
    pub fn record_started(&mut self, path: &String, add_to_history: bool)
        requires
            old(self).wf(),
        ensures
            final(self).wf(),
            final(self).current_video == Some(*path),
            add_to_history ==> final(self).history.deep_view() == history_after_add(
                old(self).history.deep_view(),
                old(self).history_index,
                path@,
            ),
            add_to_history ==> final(self).history_index == Some((final(self).history@.len() - 1) as usize),
            !add_to_history ==> final(self).history == old(self).history && final(self).history_index
                == old(self).history_index,
            final(self).active_folder == old(self).active_folder,
            final(self).pending_folder == old(self).pending_folder,
            final(self).has_queued_video == old(self).has_queued_video,
            final(self).queued_video_folder == old(self).queued_video_folder,
            final(self).queued_in_flight == old(self).queued_in_flight,
            final(self).loader_generation == old(self).loader_generation,
            final(self).next_single_request_id == old(self).next_single_request_id,
            final(self).pending_single == old(self).pending_single,
    {
        self.current_video = Some(path.clone());
        if add_to_history {
            let ghost before = self.history.deep_view();
            if let Some(index) = self.history_index {
                assert(index < self.history.len());
                self.history.truncate(index + 1);
                assert(self.history.deep_view() =~= before.take(index + 1));
            }
            let ghost mid = self.history.deep_view();
            self.history.push(path.clone());
            assert(self.history.deep_view() =~= mid.push(path@));
            self.history_index = Some(self.history.len() - 1);
        }
    }

    /// The folder group the next video is chosen from: a pending switch, else the active one.
    pub fn target_folder_for_next_video(&self) -> (r: Option<usize>)
        ensures
            r == match self.pending_folder {
                Some(f) => f,
                None => self.active_folder,
            },
    {
        match self.pending_folder {
            Some(f) => f,
            None => self.active_folder,
        }
    }

    /// The most recently played videos up to the current position, most recent first, at most
    /// [`RANDOM_RECENT_EXCLUSION_COUNT`] of them.
    pub fn recent_video_paths(&self) -> (r: Vec<String>)
        ensures
            r.deep_view() == recent_spec(self.history.deep_view(), self.history_index),
    {
        let len = self.history.len();
        let end = match self.history_index {
            Some(i) => if i < len {
                i + 1
            } else {
                len
            },
            None => len,
        };
        let ghost h = self.history.deep_view();
        let ghost spec_end: int = match self.history_index {
            Some(i) => if i + 1 < h.len() {
                i + 1
            } else {
                h.len() as int
            },
            None => h.len() as int,
        };
        assert(end == spec_end);
        let mut out: Vec<String> = Vec::new();
        let mut k: usize = 0;
        while k < RANDOM_RECENT_EXCLUSION_COUNT && k < end
            invariant
                h == self.history.deep_view(),
                end == spec_end,
                end <= len,
                len == self.history@.len(),
                k <= end,
                k <= RANDOM_RECENT_EXCLUSION_COUNT,
                out.len() == k,
                forall|m: int| 0 <= m < k ==> (#[trigger] out.deep_view()[m]) == h[end - 1 - m],
            decreases end - k,
        {
            let item = self.history[end - 1 - k].clone();
            assert(h[end - 1 - k] == item@);
            let ghost prev = out.deep_view();
            out.push(item);
            assert(out.deep_view() =~= prev.push(item@));
            k += 1;
        }
        assert(out.deep_view().len() == recent_spec(h, self.history_index).len());
        assert(out.deep_view() =~= recent_spec(h, self.history_index));
        out
    }

    /// A random video to play next from `videos`, avoiding the recent ones when possible.
    pub fn choose_next_video_path(&self, videos: &Vec<String>) -> (r: Option<String>)
        ensures
            r is None <==> videos@.len() == 0,
            r matches Some(p) ==> videos.deep_view().contains(p@) && avoids(
                p@,
                recent_spec(self.history.deep_view(), self.history_index),
                exclusion_depth(
                    videos.deep_view(),
                    recent_spec(self.history.deep_view(), self.history_index),
                    recent_limit(
                        recent_spec(self.history.deep_view(), self.history_index).len() as int,
                        RANDOM_RECENT_EXCLUSION_COUNT as int,
                    ),
                ),
            ),
    {
        let recent = self.recent_video_paths();
        choose_random_path_avoiding_recent(videos, &recent, RANDOM_RECENT_EXCLUSION_COUNT)
    }

    /// Chooses the video to preload next, unless one is held or being built. Returns the path
    /// and the folder group it was chosen for, and marks the preload as in flight.
    pub fn plan_preload(&mut self, library: &MediaLibrary) -> (r: Option<(String, Option<usize>)>)
        requires
            old(self).wf(),
        ensures
            final(self).wf(),
            (old(self).has_queued_video || old(self).queued_in_flight) ==> r is None,
            r is None ==> *final(self) == *old(self),
            !(old(self).has_queued_video || old(self).queued_in_flight) ==> {
                let target = match old(self).pending_folder {
                    Some(f) => f,
                    None => old(self).active_folder,
                };
                let videos = active_videos_spec(library.mp4_sets.deep_view(), target);
                &&& (r is None <==> videos.len() == 0)
                &&& r matches Some((p, f)) ==> {
                    &&& f == target
                    &&& videos.contains(p@)
                    &&& avoids(
                        p@,
                        recent_spec(old(self).history.deep_view(), old(self).history_index),
                        exclusion_depth(
                            videos,
                            recent_spec(old(self).history.deep_view(), old(self).history_index),
                            recent_limit(
                                recent_spec(old(self).history.deep_view(), old(self).history_index).len() as int,
                                RANDOM_RECENT_EXCLUSION_COUNT as int,
                            ),
                        ),
                    )
                    &&& final(self).queued_in_flight
                    &&& final(self).history == old(self).history
                    &&& final(self).history_index == old(self).history_index
                    &&& final(self).active_folder == old(self).active_folder
                    &&& final(self).pending_folder == old(self).pending_folder
                    &&& final(self).has_queued_video == old(self).has_queued_video
                    &&& final(self).queued_video_folder == old(self).queued_video_folder
                    &&& final(self).loader_generation == old(self).loader_generation
                    &&& final(self).next_single_request_id == old(self).next_single_request_id
                    &&& final(self).pending_single == old(self).pending_single
                    &&& final(self).current_video == old(self).current_video
                }
            },
    {
        if self.has_queued_video || self.queued_in_flight {
            return None;
        }
        let target = self.target_folder_for_next_video();
        let videos = library.active_videos(target);
        match self.choose_next_video_path(&videos) {
            Some(path) => {
                self.queued_in_flight = true;
                Some((path, target))
            },
            None => None,
        }
    }

    /// A preload finished building: with success, it is held for the given folder group.
    pub fn on_queued_loaded(&mut self, folder: Option<usize>, loaded: bool)
        ensures
            !final(self).queued_in_flight,
            final(self).has_queued_video == (loaded || old(self).has_queued_video),
            final(self).queued_video_folder == if loaded {
                folder
            } else {
                old(self).queued_video_folder
            },
            final(self).history == old(self).history,
            final(self).history_index == old(self).history_index,
            final(self).active_folder == old(self).active_folder,
            final(self).pending_folder == old(self).pending_folder,
            final(self).loader_generation == old(self).loader_generation,
            final(self).next_single_request_id == old(self).next_single_request_id,
            final(self).pending_single == old(self).pending_single,
            final(self).current_video == old(self).current_video,
    {
        self.queued_in_flight = false;
        if loaded {
            self.has_queued_video = true;
            self.queued_video_folder = folder;
        }
    }

    /// Makes a pending folder switch the active one. Returns the folder switched to.
    pub fn apply_pending_folder_switch(&mut self) -> (r: Option<Option<usize>>)
        ensures
            r == old(self).pending_folder,
            final(self).pending_folder is None,
            final(self).active_folder == match old(self).pending_folder {
                Some(f) => f,
                None => old(self).active_folder,
            },
            final(self).history == old(self).history,
            final(self).history_index == old(self).history_index,
            final(self).has_queued_video == old(self).has_queued_video,
            final(self).queued_video_folder == old(self).queued_video_folder,
            final(self).queued_in_flight == old(self).queued_in_flight,
            final(self).loader_generation == old(self).loader_generation,
            final(self).next_single_request_id == old(self).next_single_request_id,
            final(self).pending_single == old(self).pending_single,
            final(self).current_video == old(self).current_video,
    {
        match self.pending_folder {
            Some(folder) => {
                self.active_folder = folder;
                self.pending_folder = None;
                Some(folder)
            },
            None => None,
        }
    }

    /// The current video finished: a pending folder switch takes effect; the preloaded video
    /// is used when it was chosen for the (new) active folder and dropped otherwise; without
    /// it a new random video is loaded unless a load is already awaited. Also returns the
    /// folder switched to, if any.
    pub fn advance_after_video_finished(&mut self) -> (r: (Advance, Option<Option<usize>>))
        ensures
            r.1 == old(self).pending_folder,
            final(self).pending_folder is None,
            final(self).active_folder == match old(self).pending_folder {
                Some(f) => f,
                None => old(self).active_folder,
            },
            !final(self).has_queued_video,
            final(self).queued_video_folder is None,
            r.0 == if old(self).has_queued_video && old(self).queued_video_folder
                == final(self).active_folder {
                Advance::StartQueued
            } else if old(self).pending_single is None {
                Advance::PlayNext
            } else {
                Advance::Wait
            },
            final(self).history == old(self).history,
            final(self).history_index == old(self).history_index,
            final(self).queued_in_flight == old(self).queued_in_flight,
            final(self).loader_generation == old(self).loader_generation,
            final(self).next_single_request_id == old(self).next_single_request_id,
            final(self).pending_single == old(self).pending_single,
            final(self).current_video == old(self).current_video,
    {
        let switched = self.apply_pending_folder_switch();
        let use_queued = self.has_queued_video && self.queued_video_folder == self.active_folder;
        self.has_queued_video = false;
        self.queued_video_folder = None;
        let action = if use_queued {
            Advance::StartQueued
        } else if self.pending_single.is_none() {
            Advance::PlayNext
        } else {
            Advance::Wait
        };
        (action, switched)
    }

    /// Steps back one entry in the history, if there is an earlier one.
    pub fn previous_video(&mut self) -> (r: PreviousVideo)
        requires
            old(self).wf(),
        ensures
            final(self).wf(),
            (match old(self).history_index {
                None => true,
                Some(i) => i == 0,
            }) ==> r == PreviousVideo::NoHistory && *final(self) == *old(self),
            old(self).history_index matches Some(i) ==> i > 0 ==> {
                &&& r matches PreviousVideo::Load(p) && p@ == old(self).history.deep_view()[i - 1]
                &&& final(self).history_index == Some((i - 1) as usize)
                &&& final(self).history == old(self).history
                &&& final(self).active_folder == old(self).active_folder
                &&& final(self).pending_folder == old(self).pending_folder
                &&& final(self).has_queued_video == old(self).has_queued_video
                &&& final(self).queued_video_folder == old(self).queued_video_folder
                &&& final(self).queued_in_flight == old(self).queued_in_flight
                &&& final(self).loader_generation == old(self).loader_generation
                &&& final(self).next_single_request_id == old(self).next_single_request_id
                &&& final(self).pending_single == old(self).pending_single
                &&& final(self).current_video == old(self).current_video
            },
    {
        let index = match self.history_index {
            Some(i) => i,
            None => {
                return PreviousVideo::NoHistory;
            },
        };
        if index == 0 {
            return PreviousVideo::NoHistory;
        }
        let previous = index - 1;
        if previous < self.history.len() {
            self.history_index = Some(previous);
            let p = self.history[previous].clone();
            assert(self.history.deep_view()[previous as int] == p@);
            PreviousVideo::Load(p)
        } else {
            PreviousVideo::Missing
        }
    }

    /// Asks to play from folder group `folder` (`None`: all groups). Refused when at most one
    /// group has videos or the requested group has none; in multiview it switches at once
    /// (in-flight loads become stale), otherwise after the current video (the preload is
    /// dropped).
    pub fn switch_folder(&mut self, library: &MediaLibrary, folder: Option<usize>, multiview: bool) -> (r:
        FolderSwitch)
        ensures
            r == FolderSwitch::Ignored <==> non_empty_count(library.mp4_sets.deep_view()) <= 1,
            r == FolderSwitch::Empty <==> (non_empty_count(library.mp4_sets.deep_view()) > 1 && (folder matches Some(i) && (i
                >= library.mp4_sets.deep_view().len() || library.mp4_sets.deep_view()[i as int].len() == 0))),
            (r == FolderSwitch::Ignored || r == FolderSwitch::Empty) ==> *final(self) == *old(self),
            r == FolderSwitch::Immediate <==> (multiview && non_empty_count(library.mp4_sets.deep_view()) > 1
                && !(folder matches Some(i) && (i >= library.mp4_sets.deep_view().len()
                || library.mp4_sets.deep_view()[i as int].len() == 0))),
            r == FolderSwitch::Deferred <==> (!multiview && non_empty_count(library.mp4_sets.deep_view()) > 1
                && !(folder matches Some(i) && (i >= library.mp4_sets.deep_view().len()
                || library.mp4_sets.deep_view()[i as int].len() == 0))),
            r == FolderSwitch::Immediate ==> {
                &&& final(self).active_folder == folder
                &&& final(self).pending_folder is None
                &&& final(self).loader_generation == next_counter(old(self).loader_generation)
                &&& final(self).pending_single is None
                &&& !final(self).queued_in_flight
                &&& final(self).has_queued_video == old(self).has_queued_video
                &&& final(self).queued_video_folder == old(self).queued_video_folder
            },
            r == FolderSwitch::Deferred ==> {
                &&& final(self).pending_folder == Some(folder)
                &&& final(self).active_folder == old(self).active_folder
                &&& !final(self).has_queued_video
                &&& final(self).queued_video_folder is None
                &&& final(self).loader_generation == old(self).loader_generation
                &&& final(self).pending_single == old(self).pending_single
                &&& final(self).queued_in_flight == old(self).queued_in_flight
            },
            final(self).history == old(self).history,
            final(self).history_index == old(self).history_index,
            final(self).next_single_request_id == old(self).next_single_request_id,
            final(self).current_video == old(self).current_video,
    {
        if library.non_empty_group_count() <= 1 {
            return FolderSwitch::Ignored;
        }
        if let Some(index) = folder {
            let empty = if index < library.mp4_sets.len() {
                assert(library.mp4_sets.deep_view()[index as int] == library.mp4_sets@[index as int].deep_view());
                library.mp4_sets[index].len() == 0
            } else {
                true
            };
            if empty {
                return FolderSwitch::Empty;
            }
        }
        if multiview {
            self.bump_loader_generation();
            self.active_folder = folder;
            self.pending_folder = None;
            return FolderSwitch::Immediate;
        }
        self.pending_folder = Some(folder);
        self.clear_queued_video();
        FolderSwitch::Deferred
    }

    /// Forgets the playback state before the library is reloaded: loads become stale, all
    /// groups are active, no switch is pending, the preload and the history are dropped.
    pub fn reset_for_reload(&mut self)
        ensures
            final(self).wf(),
            final(self).loader_generation == next_counter(old(self).loader_generation),
            final(self).pending_single is None,
            !final(self).queued_in_flight,
            final(self).active_folder is None,
            final(self).pending_folder is None,
            !final(self).has_queued_video,
            final(self).queued_video_folder is None,
            final(self).history@.len() == 0,
            final(self).history_index is None,
            final(self).next_single_request_id == old(self).next_single_request_id,
            final(self).current_video == old(self).current_video,
    {
        self.bump_loader_generation();
        self.active_folder = None;
        self.pending_folder = None;
        self.clear_queued_video();
        self.history.clear();
        self.history_index = None;
    }

    /// The video stopped; nothing is playing.
    pub fn stop_video(&mut self)
        ensures
            final(self).current_video is None,
            final(self).history == old(self).history,
            final(self).history_index == old(self).history_index,
            final(self).active_folder == old(self).active_folder,
            final(self).pending_folder == old(self).pending_folder,
            final(self).has_queued_video == old(self).has_queued_video,
            final(self).queued_video_folder == old(self).queued_video_folder,
            final(self).queued_in_flight == old(self).queued_in_flight,
            final(self).loader_generation == old(self).loader_generation,
            final(self).next_single_request_id == old(self).next_single_request_id,
            final(self).pending_single == old(self).pending_single,
    {
        self.current_video = None;
    }
}

/// What reloading should start, given how many videos the library has for all groups.
pub fn reload_action(video_count: usize, multiview: bool) -> (r: ReloadAction)
    ensures
        r == if video_count > 0 {
            if multiview {
                ReloadAction::StartMultiview
            } else {
                ReloadAction::PlayNext
            }
        } else {
            ReloadAction::NoVideos
        },
{
    if video_count > 0 {
        if multiview {
            ReloadAction::StartMultiview
        } else {
            ReloadAction::PlayNext
        }
    } else {
        ReloadAction::NoVideos
    }
}

/// The message for a folder switch outcome, if it has one.
pub fn folder_switch_message(outcome: FolderSwitch, folder: Option<usize>) -> (r: Option<String>)
    ensures
        r matches Some(m) ==> m@ == match outcome {
            FolderSwitch::Empty => folder_label_spec(folder) + " は空です"@,
            FolderSwitch::Immediate => "再生対象: "@ + folder_label_spec(folder),
            _ => "次から: "@ + folder_label_spec(folder),
        },
        r is None <==> outcome == FolderSwitch::Ignored,
{
    match outcome {
        FolderSwitch::Ignored => None,
        FolderSwitch::Empty => Some(crate::labels::folder_label_with(folder, " は空です")),
        FolderSwitch::Immediate => Some(with_folder_label("再生対象: ", folder)),
        FolderSwitch::Deferred => Some(with_folder_label("次から: ", folder)),
    }
}

/// Time left in a video: duration minus elapsed, saturating at the `i64` bounds.
pub open spec fn remaining_spec(duration_ms: i64, elapsed_ms: i64) -> int {
    let d = duration_ms - elapsed_ms;
    if d > i64::MAX {
        i64::MAX as int
    } else if d < i64::MIN {
        i64::MIN as int
    } else {
        d
    }
}

/// Time left in a video: `duration_ms.saturating_sub(elapsed_ms)`.
pub fn remaining_ms(duration_ms: i64, elapsed_ms: i64) -> (r: i64)
    ensures
        r == remaining_spec(duration_ms, elapsed_ms),
{
    let d: i128 = duration_ms as i128 - elapsed_ms as i128;
    if d > i64::MAX as i128 {
        i64::MAX
    } else if d < i64::MIN as i128 {
        i64::MIN
    } else {
        d as i64
    }
}

/// Whether a video finished: it reached its end before or after this frame's processing, or
/// it stopped after it had started playing.
pub fn video_finished(duration_ms: i64, elapsed_ms: i64, before: PlayerPhase, after: PlayerPhase) -> (r:
    bool)
    ensures
        r == (before == PlayerPhase::EndOfFile || after == PlayerPhase::EndOfFile || (after
            == PlayerPhase::Stopped && duration_ms > 0 && elapsed_ms > 0)),
{
    let playback_started = duration_ms > 0 && elapsed_ms > 0;
    before == PlayerPhase::EndOfFile || after == PlayerPhase::EndOfFile || (after
        == PlayerPhase::Stopped && playback_started)
}

/// Whether the next video should start preloading: the video's end is near.
pub fn should_preload(duration_ms: i64, elapsed_ms: i64) -> (r: bool)
    ensures
        r == (duration_ms > 0 && remaining_spec(duration_ms, elapsed_ms) <= VIDEO_PRELOAD_BEFORE_END_MS),
{
    duration_ms > 0 && remaining_ms(duration_ms, elapsed_ms) <= VIDEO_PRELOAD_BEFORE_END_MS
}

/// Whether the single-view video is done: finished, or, with a preload waiting, within the
/// last few milliseconds.
pub fn single_video_done(
    duration_ms: i64,
    elapsed_ms: i64,
    before: PlayerPhase,
    after: PlayerPhase,
    has_queued_video: bool,
) -> (r: bool)
    ensures
        r == ((before == PlayerPhase::EndOfFile || after == PlayerPhase::EndOfFile || (after
            == PlayerPhase::Stopped && duration_ms > 0 && elapsed_ms > 0)) || (has_queued_video
            && duration_ms > 0 && remaining_spec(duration_ms, elapsed_ms) <= VIDEO_FINISH_GRACE_MS)),
{
    video_finished(duration_ms, elapsed_ms, before, after) || (has_queued_video && duration_ms > 0
        && remaining_ms(duration_ms, elapsed_ms) <= VIDEO_FINISH_GRACE_MS)
}

/// One step of a preload's warm-up: a warming video that played long enough, or warmed too
/// long, is paused and rewound; a rewound video that is paused is ready.
pub fn service_preload(state: PreloadState, elapsed_ms: i64, warming_for_ms: u64, phase: PlayerPhase) -> (r:
    (PreloadState, PreloadAction))
    ensures
        r == match state {
            PreloadState::Warming => if elapsed_ms >= VIDEO_PRELOAD_WARMUP_MS || warming_for_ms
                >= VIDEO_PRELOAD_WARMUP_TIMEOUT_MS {
                (PreloadState::SeekingToStart, PreloadAction::PauseAndRewind)
            } else {
                (PreloadState::Warming, PreloadAction::Nothing)
            },
            PreloadState::SeekingToStart => if phase == PlayerPhase::Paused {
                (PreloadState::Ready, PreloadAction::Nothing)
            } else {
                (PreloadState::SeekingToStart, PreloadAction::Nothing)
            },
            _ => (state, PreloadAction::Nothing),
        },
{
    match state {
        PreloadState::Warming => {
            if elapsed_ms >= VIDEO_PRELOAD_WARMUP_MS || warming_for_ms >= VIDEO_PRELOAD_WARMUP_TIMEOUT_MS {
                (PreloadState::SeekingToStart, PreloadAction::PauseAndRewind)
            } else {
                (PreloadState::Warming, PreloadAction::Nothing)
            }
        },
        PreloadState::SeekingToStart => {
            if phase == PlayerPhase::Paused {
                (PreloadState::Ready, PreloadAction::Nothing)
            } else {
                (PreloadState::SeekingToStart, PreloadAction::Nothing)
            }
        },
        _ => (state, PreloadAction::Nothing),
    }
}

/// Whether a prepared video resumes where its warm-up left it (rather than starting over).
pub fn resume_prepared(state: PreloadState, elapsed_ms: i64) -> (r: bool)
    ensures
        r == (state == PreloadState::Ready || (state == PreloadState::Warming && elapsed_ms
            <= VIDEO_PRELOAD_WARMUP_MS * 2)),
{
    match state {
        PreloadState::Ready => true,
        PreloadState::Warming => elapsed_ms <= VIDEO_PRELOAD_WARMUP_MS * 2,
        _ => false,
    }
}

/// Going back after playing `a` and then `b` leads to `a`; and the video just played is the
/// first one the next random choice avoids.
pub proof fn law_previous_returns_earlier_video(history: Seq<Seq<char>>, index: Option<usize>, a: Seq<char>, b: Seq<char>)
    requires
        index matches Some(i) ==> i < history.len(),
        history.len() + 2 <= usize::MAX,
    ensures
        ({
            let h1 = history_after_add(history, index, a);
            let i1 = (h1.len() - 1) as usize;
            let h2 = history_after_add(h1, Some(i1), b);
            let i2 = h2.len() - 1;
            &&& i2 > 0
            &&& h2[i2 - 1] == a
            &&& recent_spec(h1, Some(i1))[0] == a
            &&& recent_spec(h2, Some(i2 as usize))[0] == b
            &&& recent_spec(h2, Some(i2 as usize))[1] == a
        }),
{
    let h1 = history_after_add(history, index, a);
    let i1 = (h1.len() - 1) as usize;
    assert(h1.len() <= history.len() + 1);
    assert(i1 + 1 == h1.len());
    assert(h1.take(i1 + 1) =~= h1);
    let h2 = history_after_add(h1, Some(i1), b);
    assert(h2 == h1.push(b));
}

/// Loads started before the generation was bumped are recognised as stale.
pub proof fn law_bumped_generation_rejects_old_loads(generation: u64)
    ensures
        next_counter(generation) != generation,
{
}

/// A newer single-view load supersedes an older one: their request ids differ, so the older
/// result is not accepted.
pub proof fn law_newer_single_load_supersedes(first_id: u64)
    ensures
        next_counter(first_id) != first_id,
{
}

} // verus!
