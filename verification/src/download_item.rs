//! The state of one entry in the download list: what it downloads, how far
//! it got, which follow-up actions it carries, and how fast it goes.

use vstd::prelude::*;
use crate::outside::adjusted_decimal_text;
use crate::text::{clone_opt_string, concat3, spec_concat3};
use crate::outside::spec_adjusted_decimal_text;

verus! {

/// What a download entry fetches.
#[derive(Debug, Clone, Copy, PartialEq, Eq, Structural)]
pub enum ItemType {
    Unknown,
    Asset,
    Docker,
    Epic,
}

/// What to do with a file once it is extracted.
#[derive(Debug)]
pub enum PostDownloadAction {
    /// Copy the file into the directory, overwriting existing files when the flag is set.
    Copy(String, bool),
    /// Do not keep the file in the vault.
    NoVault,
}

/// Two actions are the same when their kind, directory and flag agree.
pub open spec fn same_action(a: PostDownloadAction, b: PostDownloadAction) -> bool {
    match (a, b) {
        (PostDownloadAction::Copy(t1, o1), PostDownloadAction::Copy(t2, o2)) => t1@ == t2@ && o1
            == o2,
        (PostDownloadAction::NoVault, PostDownloadAction::NoVault) => true,
        _ => false,
    }
}

pub open spec fn contains_action(s: Seq<PostDownloadAction>, a: PostDownloadAction) -> bool {
    exists|i: int| 0 <= i < s.len() && same_action(s[i], a)
}

/// The actions of `act` that `current` does not already hold, in their order
/// (an action repeated inside `act` is kept each time).
pub open spec fn new_actions(current: Seq<PostDownloadAction>, act: Seq<PostDownloadAction>) -> Seq<
    PostDownloadAction,
> {
    act.filter(|a: PostDownloadAction| !contains_action(current, a))
}

/// Compares two actions.
pub fn action_eq(a: &PostDownloadAction, b: &PostDownloadAction) -> (r: bool)
    ensures
        r == same_action(*a, *b),
{
    match (a, b) {
        (PostDownloadAction::Copy(t1, o1), PostDownloadAction::Copy(t2, o2)) => *t1 == *t2 && *o1
            == *o2,
        (PostDownloadAction::NoVault, PostDownloadAction::NoVault) => true,
        _ => false,
    }
}

/// A copy of an action.
pub fn clone_action(a: &PostDownloadAction) -> (r: PostDownloadAction)
    ensures
        same_action(r, *a),
{
    match a {
        PostDownloadAction::Copy(t, o) => PostDownloadAction::Copy(t.clone(), *o),
        PostDownloadAction::NoVault => PostDownloadAction::NoVault,
    }
}

/// The sum of the byte counts in a speed sample queue.
pub open spec fn queue_total(q: Seq<(i64, u128)>) -> int
    decreases q.len(),
{
    if q.len() == 0 {
        0
    } else {
        queue_total(q.drop_last()) + q.last().1
    }
}

/// How many samples lie more than one second (in nanoseconds) before `end`.
pub open spec fn stale_count(q: Seq<(i64, u128)>, end: i64) -> nat
    decreases q.len(),
{
    if q.len() == 0 {
        0
    } else {
        stale_count(q.drop_last(), end) + if end - q.last().0 > 1_000_000_000 {
            1nat
        } else {
            0nat
        }
    }
}

/// The download speed in bytes per second over a queue of (time in
/// nanoseconds, bytes) samples: all bytes divided by the whole seconds between
/// the first and the last sample, when those lie more than a second apart.
pub open spec fn queue_speed(q: Seq<(i64, u128)>) -> Option<int> {
    if q.len() <= 1 {
        None
    } else {
        let time = q.last().0 - q[0].0;
        if time > 1_000_000_000 {
            Some(queue_total(q) / ((time / 1_000_000) / 1000))
        } else {
            None
        }
    }
}

pub open spec fn speed_label(speed: int) -> Seq<char> {
    spec_concat3("Downloading - "@, spec_adjusted_decimal_text(speed as u128, 1), "/s"@)
}

/// One entry of the download list.
pub struct EpicDownloadItem {
    pub label: Option<String>,
    pub asset: Option<String>,
    pub version: Option<String>,
    pub release: Option<String>,
    pub paused: bool,
    pub canceled: bool,
    pub item_type: ItemType,
    pub speed: Option<String>,
    pub target: Option<String>,
    pub path: Option<String>,
    pub total_size: u128,
    pub downloaded_size: u128,
    pub total_files: u64,
    pub extracted_files: u64,
    pub post_actions: Vec<PostDownloadAction>,
    /// Samples of (time in nanoseconds, bytes) for the speed estimate.
    pub speed_queue: Vec<(i64, u128)>,
    /// Whether the cancel action can be triggered.
    pub cancel_enabled: bool,
    /// Whether the pause action can be triggered.
    pub pause_enabled: bool,
}

/// What pausing or resuming an entry asks of the download manager.
#[derive(Debug)]
pub enum PauseRequest {
    Nothing,
    PauseAsset(String),
    ResumeAsset(String),
    PauseDocker(String),
    ResumeDocker(String),
    PauseEpic(String),
    ResumeEpic(String),
}

/// What canceling an entry asks of the download manager.
#[derive(Debug)]
pub enum CancelRequest {
    Nothing,
    Asset(String),
    Docker(String),
    Epic(String),
}

proof fn lemma_queue_total_append(a: Seq<(i64, u128)>, b: Seq<(i64, u128)>)
    ensures
        queue_total(a + b) == queue_total(a) + queue_total(b),
    decreases b.len(),
{
    if b.len() == 0 {
        assert(a + b =~= a);
    } else {
        lemma_queue_total_append(a, b.drop_last());
        assert((a + b).drop_last() =~= a + b.drop_last());
    }
}

proof fn lemma_queue_total_nonneg(q: Seq<(i64, u128)>)
    ensures
        queue_total(q) >= 0,
    decreases q.len(),
{
    if q.len() > 0 {
        lemma_queue_total_nonneg(q.drop_last());
    }
}

proof fn lemma_queue_total_split(q: Seq<(i64, u128)>, k: int)
    requires
        0 <= k <= q.len(),
    ensures
        queue_total(q) == queue_total(q.take(k)) + queue_total(q.skip(k)),
        0 <= queue_total(q.take(k)) <= queue_total(q),
        0 <= queue_total(q.skip(k)) <= queue_total(q),
{
    assert(q =~= q.take(k) + q.skip(k));
    lemma_queue_total_append(q.take(k), q.skip(k));
    lemma_queue_total_nonneg(q.take(k));
    lemma_queue_total_nonneg(q.skip(k));
}

proof fn lemma_stale_count_le(q: Seq<(i64, u128)>, end: i64)
    ensures
        stale_count(q, end) <= q.len(),
    decreases q.len(),
{
    if q.len() > 0 {
        lemma_stale_count_le(q.drop_last(), end);
    }
}

/// The request that toggling the pause of `item` sends to the download manager.
pub open spec fn spec_pause_request(item: EpicDownloadItem) -> PauseRequest {
    match item.item_type {
        ItemType::Unknown => PauseRequest::Nothing,
        ItemType::Asset => match item.release {
            Some(r) => if item.paused {
                PauseRequest::ResumeAsset(r)
            } else {
                PauseRequest::PauseAsset(r)
            },
            None => PauseRequest::Nothing,
        },
        ItemType::Docker => match item.version {
            Some(v) => if item.paused {
                PauseRequest::ResumeDocker(v)
            } else {
                PauseRequest::PauseDocker(v)
            },
            None => PauseRequest::Nothing,
        },
        ItemType::Epic => match item.version {
            Some(v) => if item.paused {
                PauseRequest::ResumeEpic(v)
            } else {
                PauseRequest::PauseEpic(v)
            },
            None => PauseRequest::Nothing,
        },
    }
}

/// The request that canceling `item` sends to the download manager.
pub open spec fn spec_cancel_request(item: EpicDownloadItem) -> CancelRequest {
    match item.item_type {
        ItemType::Unknown => CancelRequest::Nothing,
        ItemType::Asset => match item.release {
            Some(r) => CancelRequest::Asset(r),
            None => CancelRequest::Nothing,
        },
        ItemType::Docker => match item.version {
            Some(v) => CancelRequest::Docker(v),
            None => CancelRequest::Nothing,
        },
        ItemType::Epic => match item.version {
            Some(v) => CancelRequest::Epic(v),
            None => CancelRequest::Nothing,
        },
    }
}

impl EpicDownloadItem {
    /// The bytes still counted in the speed queue fit in a `u128`.
    pub open spec fn wf(&self) -> bool {
        queue_total(self.speed_queue@) <= u128::MAX
    }

    /// Whether the entry ignores progress reports.
    pub open spec fn halted(&self) -> bool {
        self.canceled || self.paused
    }

    /// Whether `size` more bytes can be recorded without overflow.
    pub open spec fn can_take(&self, size: u128) -> bool {
        self.halted() || (self.downloaded_size + size <= u128::MAX && queue_total(
            self.speed_queue@,
        ) + size <= u128::MAX)
    }

    /// `new` is `old` after recording `size` downloaded bytes at `now`.
    pub open spec fn download_progress_added(
        old: EpicDownloadItem,
        new: EpicDownloadItem,
        size: u128,
        now: i64,
    ) -> bool {
        &&& old.halted() ==> new == old
        &&& !old.halted() ==> {
            &&& new.downloaded_size == old.downloaded_size + size
            &&& new.speed_queue@ == old.speed_queue@.push((now, size))
            &&& new.pause_enabled == match old.item_type {
                ItemType::Unknown => old.pause_enabled,
                ItemType::Asset | ItemType::Docker => true,
                ItemType::Epic => false,
            }
            &&& new == (EpicDownloadItem {
                downloaded_size: new.downloaded_size,
                speed_queue: new.speed_queue,
                cancel_enabled: true,
                pause_enabled: new.pause_enabled,
                ..old
            })
        }
    }

    /// `new` is `old` after its speed was refreshed, and `speed` is the
    /// bytes per second reported: a halted entry shows "Paused/Cancelled";
    /// one with fewer than two samples is left alone; otherwise as many
    /// samples as lie more than a second before the last are dropped from the
    /// front and, where the first and last samples lie more than a second
    /// apart, the speed and its label are set.
    pub open spec fn speed_refreshed(old: EpicDownloadItem, new: EpicDownloadItem, speed: Option<u128>) -> bool {
        &&& old.halted() ==> speed is None && new == (EpicDownloadItem {
            speed: Some(new.speed->0),
            ..old
        }) && new.speed->0@ == "Paused/Cancelled"@
        &&& !old.halted() && old.speed_queue@.len() <= 1 ==> speed is None && new == old
        &&& !old.halted() && old.speed_queue@.len() > 1 ==> {
            let q = old.speed_queue@;
            &&& new.speed_queue@ == q.skip(stale_count(q, q.last().0) as int)
            &&& match queue_speed(q) {
                Some(v) => speed == Some(v as u128) && new.speed is Some && new.speed->0@
                    == speed_label(v),
                None => speed is None && new.speed == old.speed,
            }
            &&& new == (EpicDownloadItem { speed_queue: new.speed_queue, speed: new.speed, ..old })
        }
    }

    /// `new` is `old` after one more file was extracted; `finished` tells
    /// whether it was the last.
    pub open spec fn file_counted(old: EpicDownloadItem, new: EpicDownloadItem, finished: bool) -> bool {
        &&& old.halted() ==> !finished && new == old
        &&& !old.halted() ==> {
            &&& new.extracted_files == old.extracted_files + 1
            &&& finished == (new.extracted_files == old.total_files)
            &&& finished ==> new.speed_queue@.len() == 0 && new.downloaded_size == old.total_size
            &&& !finished ==> new.speed_queue@ == old.speed_queue@ && new.downloaded_size
                == old.downloaded_size
            &&& new == (EpicDownloadItem {
                extracted_files: new.extracted_files,
                speed_queue: new.speed_queue,
                downloaded_size: new.downloaded_size,
                ..old
            })
        }
    }

    /// A fresh entry: nothing known, nothing downloaded, both actions disabled.
    pub fn new() -> (item: Self)
        ensures
            item.wf(),
            item.label is None && item.asset is None && item.version is None && item.release is None,
            item.speed is None && item.target is None && item.path is None,
            !item.paused && !item.canceled,
            item.item_type == ItemType::Unknown,
            item.total_size == 0 && item.downloaded_size == 0,
            item.total_files == 0 && item.extracted_files == 0,
            item.post_actions@.len() == 0,
            item.speed_queue@.len() == 0,
            !item.cancel_enabled && !item.pause_enabled,
    {
        EpicDownloadItem {
            label: None,
            asset: None,
            version: None,
            release: None,
            paused: false,
            canceled: false,
            item_type: ItemType::Unknown,
            speed: None,
            target: None,
            path: None,
            total_size: 0,
            downloaded_size: 0,
            total_files: 0,
            extracted_files: 0,
            post_actions: Vec::new(),
            speed_queue: Vec::new(),
            cancel_enabled: false,
            pause_enabled: false,
        }
    }

    pub fn set_total_size(&mut self, size: u128)
        ensures
            *final(self) == (EpicDownloadItem { total_size: size, ..*old(self) }),
    {
        self.total_size = size;
    }

    pub fn total_size(&self) -> (r: u128)
        ensures
            r == self.total_size,
    {
        self.total_size
    }

    pub fn downloaded_size(&self) -> (r: u128)
        ensures
            r == self.downloaded_size,
    {
        self.downloaded_size
    }

    pub fn set_total_files(&mut self, count: u64)
        ensures
            *final(self) == (EpicDownloadItem { total_files: count, ..*old(self) }),
    {
        self.total_files = count;
    }

    /// Counts one more extracted file; returns whether that was the last one.
    /// A canceled or paused entry does not count. When the last file is in,
    /// the speed queue empties and the download counts as complete.
    pub fn file_processed(&mut self) -> (finished: bool)
        requires
            old(self).wf(),
            old(self).halted() || old(self).extracted_files < u64::MAX,
        ensures
            final(self).wf(),
            Self::file_counted(*old(self), *final(self), finished),
    {
        if self.canceled || self.paused {
            return false;
        }
        let new_count = self.extracted_files + 1;
        self.extracted_files = new_count;
        if new_count == self.total_files {
            self.speed_queue = Vec::new();
            self.downloaded_size = self.total_size;
            true
        } else {
            false
        }
    }

    /// Records `size` more downloaded bytes at time `now` (nanoseconds).
    /// A canceled or paused entry ignores it. Otherwise cancel becomes
    /// available, pause becomes available for assets and docker images and
    /// unavailable for engine archives, and the sample joins the speed queue.
    pub fn add_downloaded_size_at(&mut self, size: u128, now: i64)
        requires
            old(self).wf(),
            old(self).can_take(size),
        ensures
            final(self).wf(),
            Self::download_progress_added(*old(self), *final(self), size, now),
    {
        if self.canceled || self.paused {
            return;
        }
        self.cancel_enabled = true;
        match self.item_type {
            ItemType::Unknown => {},
            ItemType::Asset | ItemType::Docker => {
                self.pause_enabled = true;
            },
            ItemType::Epic => {
                self.pause_enabled = false;
            },
        }
        proof {
            assert(self.speed_queue@.push((now, size)).drop_last() =~= self.speed_queue@);
        }
        self.speed_queue.push((now, size));
        self.downloaded_size = self.downloaded_size + size;
    }

    /// Records `size` extracted bytes at time `now` for the speed estimate.
    pub fn add_extracted_size_at(&mut self, size: u128, now: i64)
        requires
            old(self).wf(),
            old(self).halted() || queue_total(old(self).speed_queue@) + size <= u128::MAX,
        ensures
            final(self).wf(),
            old(self).halted() ==> *final(self) == *old(self),
            !old(self).halted() ==> *final(self) == (EpicDownloadItem {
                speed_queue: final(self).speed_queue,
                ..*old(self)
            }) && final(self).speed_queue@ == old(self).speed_queue@.push((now, size)),
    {
        if self.canceled || self.paused {
            return;
        }
        proof {
            assert(self.speed_queue@.push((now, size)).drop_last() =~= self.speed_queue@);
        }
        self.speed_queue.push((now, size));
    }

    /// Refreshes the speed label from the samples of the last moments and
    /// returns the speed in bytes per second, when there is one. A canceled or
    /// paused entry shows "Paused/Cancelled". Samples more than a second older
    /// than the newest leave the queue (as many as there are, from its front).
    pub fn speed_update(&mut self) -> (speed: Option<u128>)
        requires
            old(self).wf(),
        ensures
            final(self).wf(),
            Self::speed_refreshed(*old(self), *final(self), speed),
    {
        if self.canceled || self.paused {
            self.speed = Some("Paused/Cancelled".to_string());
            return None;
        }
        let n = self.speed_queue.len();
        if n <= 1 {
            return None;
        }
        let ghost q = self.speed_queue@;
        let start = self.speed_queue[0].0;
        let end = self.speed_queue[n - 1].0;
        let mut downloaded: u128 = 0;
        let mut pop_counter: usize = 0;
        let mut i: usize = 0;
        while i < n
            invariant
                n == q.len(),
                self.speed_queue@ == q,
                i <= n,
                end == q.last().0,
                queue_total(q) <= u128::MAX,
                downloaded == queue_total(q.take(i as int)),
                pop_counter == stale_count(q.take(i as int), end),
                pop_counter <= i,
            decreases n - i,
        {
            proof {
                assert(q.take(i + 1).drop_last() =~= q.take(i as int));
                lemma_queue_total_split(q, i + 1);
                lemma_queue_total_nonneg(q.take(i as int));
            }
            let (t, s) = self.speed_queue[i];
            downloaded = downloaded + s;
            if end as i128 - t as i128 > 1_000_000_000 {
                pop_counter = pop_counter + 1;
            }
            i = i + 1;
        }
        proof {
            assert(q.take(n as int) =~= q);
            lemma_queue_total_split(q, pop_counter as int);
        }
        let mut rest: Vec<(i64, u128)> = Vec::new();
        let mut j: usize = pop_counter;
        while j < n
            invariant
                n == q.len(),
                self.speed_queue@ == q,
                pop_counter <= j <= n,
                rest@ == q.subrange(pop_counter as int, j as int),
            decreases n - j,
        {
            rest.push(self.speed_queue[j]);
            j = j + 1;
        }
        proof {
            assert(rest@ =~= q.skip(pop_counter as int));
        }
        self.speed_queue = rest;
        let time: i128 = end as i128 - start as i128;
        if time > 1_000_000_000 {
            let secs: u128 = ((time / 1_000_000) / 1000) as u128;
            let speed = downloaded / secs;
            let unit = adjusted_decimal_text(speed, 1);
            self.speed = Some(concat3("Downloading - ", unit.as_str(), "/s"));
            Some(speed)
        } else {
            None
        }
    }

    /// Toggles the pause state and returns what the download manager has to do
    /// for it; the pause action stays disabled until `pause_cooldown_elapsed`.
    pub fn pause(&mut self) -> (r: PauseRequest)
        ensures
            r == spec_pause_request(*old(self)),
            *final(self) == (EpicDownloadItem {
                paused: !old(self).paused,
                pause_enabled: false,
                ..*old(self)
            }),
    {
        self.pause_enabled = false;
        let r = match self.item_type {
            ItemType::Unknown => PauseRequest::Nothing,
            ItemType::Asset => match clone_opt_string(&self.release) {
                Some(a) => if self.paused {
                    PauseRequest::ResumeAsset(a)
                } else {
                    PauseRequest::PauseAsset(a)
                },
                None => PauseRequest::Nothing,
            },
            ItemType::Docker => match clone_opt_string(&self.version) {
                Some(v) => if self.paused {
                    PauseRequest::ResumeDocker(v)
                } else {
                    PauseRequest::PauseDocker(v)
                },
                None => PauseRequest::Nothing,
            },
            ItemType::Epic => match clone_opt_string(&self.version) {
                Some(v) => if self.paused {
                    PauseRequest::ResumeEpic(v)
                } else {
                    PauseRequest::PauseEpic(v)
                },
                None => PauseRequest::Nothing,
            },
        };
        self.paused = !self.paused;
        r
    }

    /// Makes the pause action available again, once the short delay after a
    /// pause toggle has passed.
    pub fn pause_cooldown_elapsed(&mut self)
        ensures
            *final(self) == (EpicDownloadItem { pause_enabled: true, ..*old(self) }),
    {
        self.pause_enabled = true;
    }

    /// Marks the entry canceled, disables both actions, and returns what the
    /// download manager has to cancel.
    pub fn cancel(&mut self) -> (r: CancelRequest)
        ensures
            r == spec_cancel_request(*old(self)),
            *final(self) == (EpicDownloadItem {
                canceled: true,
                cancel_enabled: false,
                pause_enabled: false,
                ..*old(self)
            }),
    {
        self.cancel_enabled = false;
        self.pause_enabled = false;
        self.canceled = true;
        match self.item_type {
            ItemType::Unknown => CancelRequest::Nothing,
            ItemType::Asset => match clone_opt_string(&self.release) {
                Some(a) => CancelRequest::Asset(a),
                None => CancelRequest::Nothing,
            },
            ItemType::Docker => match clone_opt_string(&self.version) {
                Some(v) => CancelRequest::Docker(v),
                None => CancelRequest::Nothing,
            },
            ItemType::Epic => match clone_opt_string(&self.version) {
                Some(v) => CancelRequest::Epic(v),
                None => CancelRequest::Nothing,
            },
        }
    }

    /// Where the entry's files are written, once known.
    pub fn path(&self) -> (r: Option<String>)
        ensures
            r == self.path,
    {
        clone_opt_string(&self.path)
    }

    /// The directory the entry was asked to go to, if any.
    pub fn target(&self) -> (r: Option<String>)
        ensures
            r == self.target,
    {
        clone_opt_string(&self.target)
    }

    /// The asset the entry downloads, if it is an asset.
    pub fn asset(&self) -> (r: Option<String>)
        ensures
            r == self.asset,
    {
        clone_opt_string(&self.asset)
    }

    /// The engine version the entry downloads, if it is an engine.
    pub fn version(&self) -> (r: Option<String>)
        ensures
            r == self.version,
    {
        clone_opt_string(&self.version)
    }

    /// The release the entry downloads, if it is an asset.
    pub fn release(&self) -> (r: Option<String>)
        ensures
            r == self.release,
    {
        clone_opt_string(&self.release)
    }

    /// Whether the entry is paused.
    pub fn paused(&self) -> (r: bool)
        ensures
            r == self.paused,
    {
        self.paused
    }

    /// Whether the entry was canceled.
    pub fn canceled(&self) -> (r: bool)
        ensures
            r == self.canceled,
    {
        self.canceled
    }

    /// What the entry downloads.
    pub fn item_type(&self) -> (r: ItemType)
        ensures
            r == self.item_type,
    {
        self.item_type
    }

    /// A copy of the follow-up actions.
    pub fn actions(&self) -> (r: Vec<PostDownloadAction>)
        ensures
            r@.len() == self.post_actions@.len(),
            forall|i: int|
                0 <= i < r@.len() ==> same_action(#[trigger] r@[i], self.post_actions@[i]),
    {
        let mut r: Vec<PostDownloadAction> = Vec::new();
        let mut i: usize = 0;
        while i < self.post_actions.len()
            invariant
                i <= self.post_actions@.len(),
                r@.len() == i,
                forall|j: int| 0 <= j < i ==> same_action(#[trigger] r@[j], self.post_actions@[j]),
            decreases self.post_actions@.len() - i,
        {
            r.push(clone_action(&self.post_actions[i]));
            i = i + 1;
        }
        r
    }

    /// Adds the actions of `act` that the entry does not hold yet.
    pub fn add_actions(&mut self, act: &Vec<PostDownloadAction>)
        ensures
            final(self).post_actions@.len() == old(self).post_actions@.len() + new_actions(
                old(self).post_actions@,
                act@,
            ).len(),
            forall|i: int|
                0 <= i < old(self).post_actions@.len() ==> #[trigger] final(self).post_actions@[i]
                    == old(self).post_actions@[i],
            forall|i: int|
                0 <= i < new_actions(old(self).post_actions@, act@).len() ==> same_action(
                    #[trigger] final(self).post_actions@[old(self).post_actions@.len() + i],
                    new_actions(old(self).post_actions@, act@)[i],
                ),
            *final(self) == (EpicDownloadItem { post_actions: final(self).post_actions, ..*old(self) }),
    {
        let ghost cur = self.post_actions@;
        let ghost pred = |a: PostDownloadAction| !contains_action(cur, a);
        let mut result: Vec<PostDownloadAction> = Vec::new();
        let mut i: usize = 0;
        while i < act.len()
            invariant
                i <= act@.len(),
                self.post_actions@ == cur,
                *self == (EpicDownloadItem { post_actions: self.post_actions, ..*old(self) }),
                pred == (|a: PostDownloadAction| !contains_action(cur, a)),
                result@.len() == act@.take(i as int).filter(pred).len(),
                forall|j: int|
                    0 <= j < result@.len() ==> same_action(
                        #[trigger] result@[j],
                        act@.take(i as int).filter(pred)[j],
                    ),
            decreases act@.len() - i,
        {
            let a = &act[i];
            let mut present = false;
            let mut j: usize = 0;
            while j < self.post_actions.len()
                invariant
                    j <= self.post_actions@.len(),
                    self.post_actions@ == cur,
                    *self == (EpicDownloadItem { post_actions: self.post_actions, ..*old(self) }),
                    present == exists|k: int| 0 <= k < j && same_action(cur[k], *a),
                decreases self.post_actions@.len() - j,
            {
                if action_eq(&self.post_actions[j], a) {
                    present = true;
                }
                j = j + 1;
            }
            proof {
                assert(act@.take(i + 1).drop_last() =~= act@.take(i as int));
                reveal(Seq::filter);
            }
            if !present {
                result.push(clone_action(a));
            }
            i = i + 1;
        }
        proof {
            assert(act@.take(act@.len() as int) =~= act@);
        }
        let mut k: usize = 0;
        let ghost before = self.post_actions@;
        while k < result.len()
            invariant
                k <= result@.len(),
                self.post_actions@.len() == before.len() + k,
                *self == (EpicDownloadItem { post_actions: self.post_actions, ..*old(self) }),
                before == cur,
                forall|i: int| 0 <= i < before.len() ==> #[trigger] self.post_actions@[i] == before[i],
                forall|i: int|
                    0 <= i < k ==> same_action(
                        #[trigger] self.post_actions@[before.len() + i],
                        result@[i],
                    ),
            decreases result@.len() - k,
        {
            self.post_actions.push(clone_action(&result[k]));
            k = k + 1;
        }
        proof {
            assert forall|i: int|
                0 <= i < new_actions(cur, act@).len() implies same_action(
                #[trigger] self.post_actions@[cur.len() + i],
                new_actions(cur, act@)[i],
            ) by {
                assert(same_action(result@[i], act@.filter(pred)[i]));
                assert(same_action(self.post_actions@[cur.len() + i], result@[i]));
            }
        }
    }
}

} // verus!
