//! Headless batch processing queue manager and directory scanner.
use crate::paths::{
    extension_of, is_plain_file, name_part, parts_of, path_extension, path_with_extension, same_path,
    stem_of,
};
use crate::text::{last_index_of, lowercase_of, same_text, to_lowercase};
use vstd::prelude::*;
use vstd::string::*;

verus! {

/// How far a job has come. Fractions and seconds are carried by the bits of their
/// floating-point numbers.
#[derive(Debug)]
pub enum BatchJobStatus {
    Queued,
    Processing { progress_bits: u32, current_frame: u64 },
    Completed { actions_count: usize, elapsed_bits: u64 },
    Failed { error: String },
    Skipped { reason: String },
}

/// The contents of a [`BatchJobStatus`].
pub enum StatusView {
    Queued,
    Processing { progress_bits: u32, current_frame: u64 },
    Completed { actions_count: usize, elapsed_bits: u64 },
    Failed { error: Seq<char> },
    Skipped { reason: Seq<char> },
}

impl View for BatchJobStatus {
    type V = StatusView;

    open spec fn view(&self) -> StatusView {
        match *self {
            BatchJobStatus::Queued => StatusView::Queued,
            BatchJobStatus::Processing { progress_bits, current_frame } => StatusView::Processing {
                progress_bits,
                current_frame,
            },
            BatchJobStatus::Completed { actions_count, elapsed_bits } => StatusView::Completed {
                actions_count,
                elapsed_bits,
            },
            BatchJobStatus::Failed { error } => StatusView::Failed { error: error@ },
            BatchJobStatus::Skipped { reason } => StatusView::Skipped { reason: reason@ },
        }
    }
}

/// The settings of a batch. The confidence and the frame rate are carried by the
/// bits of their floating-point numbers.
#[derive(Debug)]
pub struct BatchJobConfig {
    pub model_path: Option<String>,
    pub conf_bits: u32,
    pub fps_bits: u64,
    pub multi_axis: bool,
    pub vr_mode: bool,
    pub pov_mode: bool,
    pub overwrite: bool,
}

impl Default for BatchJobConfig {
    /// No model, a confidence of 0.35, 30 frames a second, all axes.
    fn default() -> (res: Self)
        ensures
            res.model_path is None,
            res.conf_bits == 0x3eb33333u32,
            res.fps_bits == 0x403e000000000000u64,
            res.multi_axis,
            !res.vr_mode,
            !res.pov_mode,
            !res.overwrite,
    {
        BatchJobConfig {
            model_path: None,
            conf_bits: 0x3eb33333,
            fps_bits: 0x403e000000000000,
            multi_axis: true,
            vr_mode: false,
            pov_mode: false,
            overwrite: false,
        }
    }
}

/// A video and the script to make of it.
#[derive(Debug)]
pub struct BatchJob {
    pub id: usize,
    pub video_path: String,
    pub output_path: String,
    pub status: BatchJobStatus,
}

/// The contents of a [`BatchJob`].
pub struct JobView {
    pub id: usize,
    pub video: Seq<char>,
    pub output: Seq<char>,
    pub status: StatusView,
}

impl View for BatchJob {
    type V = JobView;

    open spec fn view(&self) -> JobView {
        JobView {
            id: self.id,
            video: self.video_path@,
            output: self.output_path@,
            status: self.status@,
        }
    }
}

/// The contents of a list of jobs.
pub open spec fn job_views(jobs: Seq<BatchJob>) -> Seq<JobView> {
    jobs.map_values(|j: BatchJob| j@)
}

/// The extensions of video files.
pub open spec fn is_video_text(ext: Seq<char>) -> bool {
    ||| ext == "mp4"@
    ||| ext == "mkv"@
    ||| ext == "webm"@
    ||| ext == "avi"@
    ||| ext == "mov"@
    ||| ext == "m4v"@
    ||| ext == "wmv"@
}

/// Whether a file with this extension is a video, in upper or lower case.
pub fn is_video_extension(extension: &str) -> (res: bool)
    ensures
        res == is_video_text(lowercase_of(extension@)),
{
    let lower: String = to_lowercase(extension);
    let ext: &str = lower.as_str();
    same_text(ext, "mp4") || same_text(ext, "mkv") || same_text(ext, "webm") || same_text(
        ext,
        "avi",
    ) || same_text(ext, "mov") || same_text(ext, "m4v") || same_text(ext, "wmv")
}

/// The script that belongs to a video: the same path with another extension.
pub fn script_path_for(video: &str) -> (script: String)
    ensures
        is_plain_file(video@) ==> script@ == video@.take(last_index_of(video@, '/') + 1) + stem_of(
            name_part(video@),
        ) + ".funscript"@,
{
    proof {
        reveal_strlit("funscript");
        reveal_strlit(".");
        reveal_strlit(".funscript");
        assert("."@ + "funscript"@ =~= ".funscript"@);
    }
    let script: String = path_with_extension(video, "funscript");
    proof {
        if is_plain_file(video@) {
            let head = video@.take(last_index_of(video@, '/') + 1) + stem_of(name_part(video@));
            assert(head + "."@ + "funscript"@ =~= head + ("."@ + "funscript"@));
        }
    }
    script
}

/// What a directory's listing shows of an entry.
#[derive(Debug)]
pub struct ScanEntry {
    pub path: String,
    pub extension: String,
    pub script_path: String,
    pub is_dir: bool,
    pub is_file: bool,
    pub script_exists: bool,
}

/// The contents of a [`ScanEntry`].
pub struct EntryView {
    pub path: Seq<char>,
    pub extension: Seq<char>,
    pub script: Seq<char>,
    pub is_dir: bool,
    pub is_file: bool,
    pub script_exists: bool,
}

impl View for ScanEntry {
    type V = EntryView;

    open spec fn view(&self) -> EntryView {
        EntryView {
            path: self.path@,
            extension: self.extension@,
            script: self.script_path@,
            is_dir: self.is_dir,
            is_file: self.is_file,
            script_exists: self.script_exists,
        }
    }
}

impl ScanEntry {
    /// The entry at a path, with its extension and the script that belongs to it.
    /// Whether that script exists is still to be found out.
    pub fn new(path: String, is_dir: bool, is_file: bool) -> (res: Self)
        ensures
            res.path == path,
            res.is_dir == is_dir,
            res.is_file == is_file,
            !res.script_exists,
            is_plain_file(path@) ==> {
                &&& res.extension@ == (match extension_of(name_part(path@)) {
                    Some(ext) => ext,
                    None => Seq::empty(),
                })
                &&& res.script_path@ == path@.take(last_index_of(path@, '/') + 1) + stem_of(
                    name_part(path@),
                ) + ".funscript"@
            },
    {
        let extension: String = match path_extension(path.as_str()) {
            Some(ext) => ext,
            None => String::new(),
        };
        let script_path: String = script_path_for(path.as_str());
        ScanEntry { path, extension, script_path, is_dir, is_file, script_exists: false }
    }
}

/// Batch queue manager handling directory scanning and execution tracking
#[derive(Debug)]
pub struct BatchQueue {
    pub jobs: Vec<BatchJob>,
    pub next_job_id: usize,
}

/// The contents of a [`BatchQueue`].
pub struct QueueView {
    pub jobs: Seq<JobView>,
    pub next_job_id: int,
}

impl View for BatchQueue {
    type V = QueueView;

    open spec fn view(&self) -> QueueView {
        QueueView { jobs: job_views(self.jobs@), next_job_id: self.next_job_id as int }
    }
}

impl QueueView {
    /// A job for this video is in the queue, by whatever spelling of its path.
    pub open spec fn holds(self, video: Seq<char>) -> bool {
        exists|i: int|
            0 <= i < self.jobs.len() && parts_of((#[trigger] self.jobs[i]).video) == parts_of(video)
    }

    /// The queue with a new job at its end, unless the video has one.
    pub open spec fn enqueued(self, video: Seq<char>, output: Seq<char>) -> QueueView {
        if self.holds(video) {
            self
        } else {
            QueueView {
                jobs: self.jobs.push(
                    JobView {
                        id: self.next_job_id as usize,
                        video,
                        output,
                        status: StatusView::Queued,
                    },
                ),
                next_job_id: self.next_job_id + 1,
            }
        }
    }

    /// The queue after the first `n` entries of a directory's listing.
    pub open spec fn scanned(
        self,
        entries: Seq<ScanEntry>,
        recursive: bool,
        overwrite: bool,
        n: nat,
    ) -> QueueView
        decreases n,
    {
        if n == 0 {
            self
        } else {
            let before = self.scanned(entries, recursive, overwrite, (n - 1) as nat);
            let e = entries[n - 1]@;
            if is_wanted(e, recursive, overwrite) {
                before.enqueued(e.path, e.script)
            } else {
                before
            }
        }
    }

    /// Jobs have identifiers of their own below the next one, and videos of their
    /// own.
    pub open spec fn valid(self) -> bool {
        &&& forall|i: int|
            0 <= i < self.jobs.len() ==> (#[trigger] self.jobs[i]).id < self.next_job_id
        &&& forall|i: int, j: int|
            0 <= i < j < self.jobs.len() ==> self.jobs[i].id != self.jobs[j].id
                && parts_of(self.jobs[i].video) != parts_of(self.jobs[j].video)
    }
}

/// An entry that is to be visited as a directory.
pub open spec fn is_descended(e: EntryView, recursive: bool) -> bool {
    e.is_dir && recursive
}

/// An entry that is a video without a script, or with one that is to be replaced.
pub open spec fn is_wanted(e: EntryView, recursive: bool, overwrite: bool) -> bool {
    &&& !is_descended(e, recursive)
    &&& e.is_file
    &&& is_video_text(lowercase_of(e.extension))
    &&& !e.script_exists || overwrite
}

/// The directories to visit among the first `n` entries.
pub open spec fn descended(entries: Seq<ScanEntry>, recursive: bool, n: nat) -> Seq<Seq<char>>
    decreases n,
{
    if n == 0 {
        Seq::empty()
    } else {
        let head = descended(entries, recursive, (n - 1) as nat);
        if is_descended(entries[n - 1]@, recursive) {
            head.push(entries[n - 1]@.path)
        } else {
            head
        }
    }
}

/// The contents of a list of strings.
pub open spec fn text_views(s: Seq<String>) -> Seq<Seq<char>> {
    s.map_values(|t: String| t@)
}

/// A new job does not disturb those in the queue, and gives no video two jobs.
pub proof fn lemma_enqueued_valid(q: QueueView, video: Seq<char>, output: Seq<char>)
    requires
        q.valid(),
        0 <= q.next_job_id <= usize::MAX,
    ensures
        q.enqueued(video, output).valid(),
        q.enqueued(video, output).holds(video),
        q.jobs.is_prefix_of(q.enqueued(video, output).jobs),
{
    let r = q.enqueued(video, output);
    if !q.holds(video) {
        assert(r.jobs[q.jobs.len() as int].video == video);
        assert forall|i: int, j: int| 0 <= i < j < r.jobs.len() implies r.jobs[i].id
            != r.jobs[j].id && parts_of(r.jobs[i].video) != parts_of(r.jobs[j].video) by {
            if j == q.jobs.len() {
                assert(q.jobs[i].id < q.next_job_id);
                assert(parts_of(q.jobs[i].video) != parts_of(video));
            }
        }
    }
}

/// A scan keeps the queue's jobs in front and its validity.
pub proof fn lemma_scanned_valid(
    q: QueueView,
    entries: Seq<ScanEntry>,
    recursive: bool,
    overwrite: bool,
    n: nat,
)
    requires
        q.valid(),
        0 <= q.next_job_id,
        q.next_job_id + n <= usize::MAX,
    ensures
        q.scanned(entries, recursive, overwrite, n).valid(),
        q.jobs.is_prefix_of(q.scanned(entries, recursive, overwrite, n).jobs),
        q.next_job_id <= q.scanned(entries, recursive, overwrite, n).next_job_id <= q.next_job_id
            + n,
        forall|i: int|
            0 <= i < n && is_wanted((#[trigger] entries[i])@, recursive, overwrite) ==> q.scanned(
                entries,
                recursive,
                overwrite,
                n,
            ).holds(entries[i]@.path),
    decreases n,
{
    if n > 0 {
        lemma_scanned_valid(q, entries, recursive, overwrite, (n - 1) as nat);
        let before = q.scanned(entries, recursive, overwrite, (n - 1) as nat);
        let after = q.scanned(entries, recursive, overwrite, n);
        let e = entries[n - 1]@;
        if is_wanted(e, recursive, overwrite) {
            lemma_enqueued_valid(before, e.path, e.script);
        }
        assert forall|i: int|
            0 <= i < n && is_wanted((#[trigger] entries[i])@, recursive, overwrite) implies
            after.holds(entries[i]@.path) by {
            if i < n - 1 {
                let k = choose|k: int|
                    0 <= k < before.jobs.len() && parts_of((#[trigger] before.jobs[k]).video)
                        == parts_of(entries[i]@.path);
                assert(after.jobs[k] == before.jobs[k]);
            }
        }
    }
}

/// The five states of a job.
#[derive(Debug, Clone, Copy, PartialEq, Eq, Structural)]
pub enum StatusKind {
    Queued,
    Processing,
    Completed,
    Failed,
    Skipped,
}

/// The state that a status shows.
pub open spec fn kind_of(status: StatusView) -> StatusKind {
    match status {
        StatusView::Queued => StatusKind::Queued,
        StatusView::Processing { .. } => StatusKind::Processing,
        StatusView::Completed { .. } => StatusKind::Completed,
        StatusView::Failed { .. } => StatusKind::Failed,
        StatusView::Skipped { .. } => StatusKind::Skipped,
    }
}

/// How many of the first `n` jobs are in a state.
pub open spec fn count_of(jobs: Seq<JobView>, kind: StatusKind, n: nat) -> nat
    decreases n,
{
    if n == 0 {
        0
    } else {
        count_of(jobs, kind, (n - 1) as nat) + if kind_of(jobs[n - 1].status) == kind {
            1nat
        } else {
            0nat
        }
    }
}

/// Every job is in one of the five states.
pub proof fn lemma_counts_add_up(jobs: Seq<JobView>, n: nat)
    requires
        n <= jobs.len(),
    ensures
        count_of(jobs, StatusKind::Queued, n) + count_of(jobs, StatusKind::Processing, n)
            + count_of(jobs, StatusKind::Completed, n) + count_of(jobs, StatusKind::Failed, n)
            + count_of(jobs, StatusKind::Skipped, n) == n,
    decreases n,
{
    if n > 0 {
        lemma_counts_add_up(jobs, (n - 1) as nat);
    }
}

impl BatchQueue {
    /// An empty queue.
    pub fn new() -> (res: Self)
        ensures
            res@.jobs == Seq::<JobView>::empty(),
            res.next_job_id == 0,
            res@.valid(),
    {
        BatchQueue { jobs: Vec::new(), next_job_id: 0 }
    }

    /// Clear all completed or queued jobs
    pub fn clear(&mut self)
        ensures
            final(self)@.jobs == Seq::<JobView>::empty(),
            final(self).next_job_id == 0,
            final(self)@.valid(),
    {
        self.jobs.clear();
        self.next_job_id = 0;
    }

    /// Whether the video has a job.
    pub fn holds(&self, video: &str) -> (res: bool)
        ensures
            res == self@.holds(video@),
    {
        let mut i: usize = 0;
        while i < self.jobs.len()
            invariant
                i <= self.jobs.len(),
                forall|k: int|
                    0 <= k < i ==> parts_of((#[trigger] self@.jobs[k]).video) != parts_of(video@),
            decreases self.jobs.len() - i,
        {
            assert(self@.jobs[i as int].video == self.jobs@[i as int].video_path@);
            if same_path(self.jobs[i].video_path.as_str(), video) {
                return true;
            }
            i += 1;
        }
        false
    }

    /// Puts a job for the video at the end, unless it has one.
    pub fn enqueue(&mut self, video: String, output: String) -> (added: bool)
        requires
            old(self).next_job_id < usize::MAX,
        ensures
            added == !old(self)@.holds(video@),
            final(self)@ == old(self)@.enqueued(video@, output@),
    {
        if self.holds(video.as_str()) {
            return false;
        }
        let ghost before = self@;
        let job = BatchJob {
            id: self.next_job_id,
            video_path: video,
            output_path: output,
            status: BatchJobStatus::Queued,
        };
        self.jobs.push(job);
        self.next_job_id = self.next_job_id + 1;
        assert(self@.jobs =~= before.jobs.push(job@));
        true
    }

    /// Scan a directory's listing for videos and enqueue jobs for missing scripts.
    /// Returns how many were added, and the directories to scan next.
    pub fn scan_directory(
        &mut self,
        entries: &Vec<ScanEntry>,
        recursive: bool,
        config: &BatchJobConfig,
    ) -> (res: (usize, Vec<String>))
        requires
            old(self).next_job_id + entries.len() <= usize::MAX,
        ensures
            final(self)@ == old(self)@.scanned(
                entries@,
                recursive,
                config.overwrite,
                entries@.len(),
            ),
            res.0 == final(self).jobs.len() - old(self).jobs.len(),
            text_views(res.1@) == descended(entries@, recursive, entries@.len()),
    {
        let mut added: usize = 0;
        let mut dirs: Vec<String> = Vec::new();
        assert(text_views(dirs@) =~= Seq::empty());
        let mut i: usize = 0;
        while i < entries.len()
            invariant
                i <= entries.len(),
                old(self).next_job_id + entries.len() <= usize::MAX,
                self.next_job_id <= old(self).next_job_id + i,
                self@ == old(self)@.scanned(entries@, recursive, config.overwrite, i as nat),
                added <= i,
                self.jobs.len() == old(self).jobs.len() + added,
                text_views(dirs@) == descended(entries@, recursive, i as nat),
            decreases entries.len() - i,
        {
            let e: &ScanEntry = &entries[i];
            let ghost before = dirs@;
            if e.is_dir && recursive {
                dirs.push(e.path.clone());
                assert(text_views(dirs@) =~= text_views(before).push(e.path@));
            } else if e.is_file {
                if is_video_extension(e.extension.as_str()) {
                    if !e.script_exists || config.overwrite {
                        let ghost jobs = self@.jobs;
                        if self.enqueue(e.path.clone(), e.script_path.clone()) {
                            added += 1;
                        }
                        assert(self@.jobs.len() == self.jobs.len());
                        assert(jobs.len() == old(self).jobs.len() + added || jobs.len() + 1
                            == old(self).jobs.len() + added);
                    }
                }
            }
            i += 1;
        }
        (added, dirs)
    }

    /// Return statistics: (total, queued, processing, completed, failed, skipped)
    pub fn stats(&self) -> (res: (usize, usize, usize, usize, usize, usize))
        ensures
            res.0 == self@.jobs.len(),
            res.1 == count_of(self@.jobs, StatusKind::Queued, self@.jobs.len()),
            res.2 == count_of(self@.jobs, StatusKind::Processing, self@.jobs.len()),
            res.3 == count_of(self@.jobs, StatusKind::Completed, self@.jobs.len()),
            res.4 == count_of(self@.jobs, StatusKind::Failed, self@.jobs.len()),
            res.5 == count_of(self@.jobs, StatusKind::Skipped, self@.jobs.len()),
    {
        let mut queued: usize = 0;
        let mut processing: usize = 0;
        let mut completed: usize = 0;
        let mut failed: usize = 0;
        let mut skipped: usize = 0;
        let ghost jobs = self@.jobs;
        let mut i: usize = 0;
        while i < self.jobs.len()
            invariant
                i <= self.jobs.len(),
                jobs == self@.jobs,
                queued + processing + completed + failed + skipped == i,
                queued == count_of(jobs, StatusKind::Queued, i as nat),
                processing == count_of(jobs, StatusKind::Processing, i as nat),
                completed == count_of(jobs, StatusKind::Completed, i as nat),
                failed == count_of(jobs, StatusKind::Failed, i as nat),
                skipped == count_of(jobs, StatusKind::Skipped, i as nat),
            decreases self.jobs.len() - i,
        {
            assert(jobs[i as int].status == self.jobs@[i as int].status@);
            match self.jobs[i].status {
                BatchJobStatus::Queued => {
                    queued += 1;
                },
                BatchJobStatus::Processing { .. } => {
                    processing += 1;
                },
                BatchJobStatus::Completed { .. } => {
                    completed += 1;
                },
                BatchJobStatus::Failed { .. } => {
                    failed += 1;
                },
                BatchJobStatus::Skipped { .. } => {
                    skipped += 1;
                },
            }
            i += 1;
        }
        (self.jobs.len(), queued, processing, completed, failed, skipped)
    }
}

/// What a worker reports of a job, by its identifier.
#[derive(Debug)]
pub enum BatchProgressUpdate {
    JobStarted { id: usize },
    JobProgress { id: usize, progress_bits: u32, frame: u64 },
    JobCompleted { id: usize, actions_count: usize, elapsed_bits: u64 },
    JobFailed { id: usize, error: String },
    AllJobsCompleted,
}

/// The contents of a [`BatchProgressUpdate`].
pub enum UpdateView {
    JobStarted { id: usize },
    JobProgress { id: usize, progress_bits: u32, frame: u64 },
    JobCompleted { id: usize, actions_count: usize, elapsed_bits: u64 },
    JobFailed { id: usize, error: Seq<char> },
    AllJobsCompleted,
}

impl View for BatchProgressUpdate {
    type V = UpdateView;

    open spec fn view(&self) -> UpdateView {
        match *self {
            BatchProgressUpdate::JobStarted { id } => UpdateView::JobStarted { id },
            BatchProgressUpdate::JobProgress { id, progress_bits, frame } =>
                UpdateView::JobProgress { id, progress_bits, frame },
            BatchProgressUpdate::JobCompleted { id, actions_count, elapsed_bits } =>
                UpdateView::JobCompleted { id, actions_count, elapsed_bits },
            BatchProgressUpdate::JobFailed { id, error } => UpdateView::JobFailed {
                id,
                error: error@,
            },
            BatchProgressUpdate::AllJobsCompleted => UpdateView::AllJobsCompleted,
        }
    }
}

/// The contents of a list of updates.
pub open spec fn update_views(s: Seq<BatchProgressUpdate>) -> Seq<UpdateView> {
    s.map_values(|u: BatchProgressUpdate| u@)
}

/// The job that an update is about, with the status it gives that job.
pub open spec fn reported(update: UpdateView) -> Option<(usize, StatusView)> {
    match update {
        // no progress yet: the bits of zero
        UpdateView::JobStarted { id } => Some(
            (id, StatusView::Processing { progress_bits: 0, current_frame: 0 }),
        ),
        UpdateView::JobProgress { id, progress_bits, frame } => Some(
            (id, StatusView::Processing { progress_bits, current_frame: frame }),
        ),
        UpdateView::JobCompleted { id, actions_count, elapsed_bits } => Some(
            (id, StatusView::Completed { actions_count, elapsed_bits }),
        ),
        UpdateView::JobFailed { id, error } => Some((id, StatusView::Failed { error })),
        UpdateView::AllJobsCompleted => None,
    }
}

/// The first place from `i` on whose job has the identifier, or the end.
pub open spec fn place_of_id(jobs: Seq<JobView>, id: usize, i: int) -> int
    decreases jobs.len() - i,
{
    if i < 0 || i >= jobs.len() || jobs[i].id == id {
        i
    } else {
        place_of_id(jobs, id, i + 1)
    }
}

/// The jobs, of which the first with the identifier has another status.
pub open spec fn with_status(jobs: Seq<JobView>, id: usize, status: StatusView) -> Seq<JobView> {
    let i = place_of_id(jobs, id, 0);
    if i < jobs.len() {
        jobs.update(i, JobView { status, ..jobs[i] })
    } else {
        jobs
    }
}

/// An update of a job keeps the identifiers and videos of all jobs.
pub proof fn lemma_update_valid(q: QueueView, id: usize, status: StatusView)
    requires
        q.valid(),
    ensures
        (QueueView { jobs: with_status(q.jobs, id, status), ..q }).valid(),
{
    let jobs = with_status(q.jobs, id, status);
    lemma_place_of_id(q.jobs, id, 0);
    assert forall|i: int| 0 <= i < jobs.len() implies (#[trigger] jobs[i]).id == q.jobs[i].id
        && jobs[i].video == q.jobs[i].video by {}
}

proof fn lemma_place_of_id(jobs: Seq<JobView>, id: usize, i: int)
    requires
        0 <= i <= jobs.len(),
    ensures
        i <= place_of_id(jobs, id, i) <= jobs.len(),
    decreases jobs.len() - i,
{
    if i < jobs.len() && jobs[i].id != id {
        lemma_place_of_id(jobs, id, i + 1);
    }
}

impl BatchQueue {
    fn set_status(&mut self, id: usize, status: BatchJobStatus)
        ensures
            final(self)@.jobs == with_status(old(self)@.jobs, id, status@),
            final(self).next_job_id == old(self).next_job_id,
    {
        let ghost jobs = self@.jobs;
        let mut i: usize = 0;
        while i < self.jobs.len() && self.jobs[i].id != id
            invariant
                self == old(self),
                i <= self.jobs.len(),
                jobs == self@.jobs,
                place_of_id(jobs, id, 0) == place_of_id(jobs, id, i as int),
            decreases self.jobs.len() - i,
        {
            assert(jobs[i as int].id == self.jobs@[i as int].id);
            i += 1;
        }
        if i < self.jobs.len() {
            assert(jobs[i as int].id == self.jobs@[i as int].id);
            let ghost shown = status@;
            self.jobs[i].status = status;
            assert(self@.jobs =~= jobs.update(
                i as int,
                JobView { status: shown, ..jobs[i as int] },
            ));
        }
    }

    /// Takes a worker's report into the queue. What is to be said of it is
    /// returned.
    pub fn apply_update(&mut self, update: BatchProgressUpdate) -> (status: Option<String>)
        ensures
            final(self).next_job_id == old(self).next_job_id,
            final(self)@.jobs == (match reported(update@) {
                Some((id, shown)) => with_status(old(self)@.jobs, id, shown),
                None => old(self)@.jobs,
            }),
            status is Some <==> update@ is AllJobsCompleted,
            status matches Some(text) ==> text@ == "Batch Queue execution complete!"@,
    {
        match update {
            BatchProgressUpdate::JobStarted { id } => {
                self.set_status(
                    id,
                    BatchJobStatus::Processing { progress_bits: 0, current_frame: 0 },
                );
                None
            },
            BatchProgressUpdate::JobProgress { id, progress_bits, frame } => {
                self.set_status(
                    id,
                    BatchJobStatus::Processing { progress_bits, current_frame: frame },
                );
                None
            },
            BatchProgressUpdate::JobCompleted { id, actions_count, elapsed_bits } => {
                self.set_status(id, BatchJobStatus::Completed { actions_count, elapsed_bits });
                None
            },
            BatchProgressUpdate::JobFailed { id, error } => {
                self.set_status(id, BatchJobStatus::Failed { error });
                None
            },
            BatchProgressUpdate::AllJobsCompleted => Some(
                "Batch Queue execution complete!".to_owned(),
            ),
        }
    }
}

/// A worker that takes the jobs one after the other. The caller runs the job that
/// the worker has come to and tells it how that went.
#[derive(Debug)]
pub struct BatchWorker {
    pub is_running: bool,
    pub overwrite: bool,
    pub jobs: Vec<BatchJob>,
    pub next: usize,
}

/// A job is passed over where its script exists and is not to be replaced.
pub open spec fn is_passed_over(exists_already: bool, overwrite: bool) -> bool {
    exists_already && !overwrite
}

/// The reports for the first `n` jobs where no detector could be had.
pub open spec fn failures(
    jobs: Seq<JobView>,
    existing: Seq<bool>,
    overwrite: bool,
    error: Seq<char>,
    n: nat,
) -> Seq<UpdateView>
    decreases n,
{
    if n == 0 {
        Seq::empty()
    } else {
        let head = failures(jobs, existing, overwrite, error, (n - 1) as nat);
        let id = jobs[n - 1].id;
        if is_passed_over(existing[n - 1], overwrite) {
            head
        } else {
            head.push(UpdateView::JobStarted { id }).push(
                UpdateView::JobFailed {
                    id,
                    error: "Failed to initialize neural detector: "@ + error,
                },
            )
        }
    }
}

impl BatchWorker {
    /// A worker without jobs.
    pub fn new() -> (res: Self)
        ensures
            !res.is_running,
            res.jobs.len() == 0,
            res.next == 0,
    {
        BatchWorker { is_running: false, overwrite: false, jobs: Vec::new(), next: 0 }
    }

    /// Whether jobs are being processed.
    pub fn is_active(&self) -> (res: bool)
        ensures
            res == self.is_running,
    {
        self.is_running
    }

    /// No further job is begun.
    pub fn stop(&mut self)
        ensures
            *final(self) == (BatchWorker { is_running: false, ..*old(self) }),
    {
        self.is_running = false;
    }

    /// Start processing batch queue jobs
    pub fn start(&mut self, jobs: Vec<BatchJob>, config: &BatchJobConfig)
        ensures
            *final(self) == (BatchWorker {
                is_running: true,
                overwrite: config.overwrite,
                jobs,
                next: 0,
            }),
    {
        self.is_running = true;
        self.overwrite = config.overwrite;
        self.jobs = jobs;
        self.next = 0;
    }

    /// There is a job to come to.
    pub open spec fn has_next(&self) -> bool {
        self.is_running && self.next < self.jobs.len()
    }

    /// Where the next job would put its script, if there is a job to come to.
    pub fn next_output(&self) -> (output: Option<String>)
        ensures
            output is Some <==> self.has_next(),
            output matches Some(path) ==> path@ == self.jobs@[self.next as int].output_path@,
    {
        if self.is_running && self.next < self.jobs.len() {
            Some(self.jobs[self.next].output_path.clone())
        } else {
            None
        }
    }

    /// Begins the next job, or passes it over.
    pub fn begin_job(&mut self, output_exists: bool) -> (update: Option<BatchProgressUpdate>)
        requires
            old(self).has_next(),
        ensures
            is_passed_over(output_exists, old(self).overwrite) ==> update is None && *final(self)
                == (BatchWorker { next: (old(self).next + 1) as usize, ..*old(self) }),
            !is_passed_over(output_exists, old(self).overwrite) ==> *final(self) == *old(self)
                && update == Some(
                BatchProgressUpdate::JobStarted { id: old(self).jobs@[old(self).next as int].id },
            ),
    {
        if output_exists && !self.overwrite {
            self.next = self.next + 1;
            return None;
        }
        Some(BatchProgressUpdate::JobStarted { id: self.jobs[self.next].id })
    }

    /// Ends the job that was begun: with the number of keyframes made, or an error.
    pub fn finish_job(&mut self, result: Result<usize, String>, elapsed_bits: u64) -> (update:
        BatchProgressUpdate)
        requires
            old(self).next < old(self).jobs.len(),
        ensures
            *final(self) == (BatchWorker { next: (old(self).next + 1) as usize, ..*old(self) }),
            ({
                let id = old(self).jobs@[old(self).next as int].id;
                update == (match result {
                    Ok(actions_count) => BatchProgressUpdate::JobCompleted {
                        id,
                        actions_count,
                        elapsed_bits,
                    },
                    Err(error) => BatchProgressUpdate::JobFailed { id, error },
                })
            }),
    {
        let id: usize = self.jobs[self.next].id;
        self.next = self.next + 1;
        match result {
            Ok(actions_count) => BatchProgressUpdate::JobCompleted {
                id,
                actions_count,
                elapsed_bits,
            },
            Err(error) => BatchProgressUpdate::JobFailed { id, error },
        }
    }

    /// Ends the work, when no job is left or it was stopped.
    pub fn complete(&mut self) -> (update: BatchProgressUpdate)
        ensures
            *final(self) == (BatchWorker { is_running: false, ..*old(self) }),
            update == BatchProgressUpdate::AllJobsCompleted,
    {
        self.is_running = false;
        BatchProgressUpdate::AllJobsCompleted
    }

    /// Ends the work where the detector could not be had: every job that would be
    /// begun fails. `existing` says of each job whether its script exists.
    pub fn detector_failed(&mut self, error: &str, existing: &Vec<bool>) -> (updates: Vec<
        BatchProgressUpdate,
    >)
        requires
            existing.len() == old(self).jobs.len(),
        ensures
            *final(self) == (BatchWorker { is_running: false, ..*old(self) }),
            update_views(updates@) == failures(
                job_views(old(self).jobs@),
                existing@,
                old(self).overwrite,
                error@,
                existing@.len(),
            ).push(UpdateView::AllJobsCompleted),
    {
        let mut updates: Vec<BatchProgressUpdate> = Vec::new();
        let ghost jobs = job_views(self.jobs@);
        assert(update_views(updates@) =~= Seq::empty());
        let mut i: usize = 0;
        while i < self.jobs.len()
            invariant
                i <= self.jobs.len(),
                existing.len() == self.jobs.len(),
                jobs == job_views(self.jobs@),
                self == old(self),
                update_views(updates@) == failures(
                    jobs,
                    existing@,
                    self.overwrite,
                    error@,
                    i as nat,
                ),
            decreases self.jobs.len() - i,
        {
            if !(existing[i] && !self.overwrite) {
                let id: usize = self.jobs[i].id;
                assert(jobs[i as int].id == id);
                let mut text: String = "Failed to initialize neural detector: ".to_owned();
                text.append(error);
                let ghost before = updates@;
                let started = BatchProgressUpdate::JobStarted { id };
                let failed = BatchProgressUpdate::JobFailed { id, error: text };
                updates.push(started);
                updates.push(failed);
                assert(update_views(updates@) =~= update_views(before).push(started@).push(
                    failed@,
                ));
            }
            i += 1;
        }
        self.is_running = false;
        let ghost before = updates@;
        updates.push(BatchProgressUpdate::AllJobsCompleted);
        assert(update_views(updates@) =~= update_views(before).push(UpdateView::AllJobsCompleted));
        updates
    }
}

/// Each job that a scan adds is for a file of the listing that is a video without a script,
/// or with one that is to be replaced. It is queued, numbered on from the last one, and puts
/// its script where the entry says. The place of that entry is returned.
pub proof fn lemma_job_of_scan(
    q: QueueView,
    entries: Seq<ScanEntry>,
    recursive: bool,
    overwrite: bool,
    n: nat,
    j: int,
) -> (k: int)
    requires
        q.valid(),
        0 <= q.next_job_id,
        q.next_job_id + n <= usize::MAX,
        q.jobs.len() <= j < q.scanned(entries, recursive, overwrite, n).jobs.len(),
    ensures
        0 <= k < n,
        ({
            let e = entries[k]@;
            let job = q.scanned(entries, recursive, overwrite, n).jobs[j];
            let ext = lowercase_of(e.extension);
            &&& e.is_file
            &&& !(e.is_dir && recursive)
            &&& overwrite || !e.script_exists
            &&& ext == "mp4"@ || ext == "mkv"@ || ext == "webm"@ || ext == "avi"@ || ext == "mov"@
                || ext == "m4v"@ || ext == "wmv"@
            &&& job.video == e.path
            &&& job.output == e.script
            &&& job.status is Queued
            &&& job.id == q.next_job_id + (j - q.jobs.len())
        }),
    decreases n,
{
    let before = q.scanned(entries, recursive, overwrite, (n - 1) as nat);
    lemma_scanned_valid(q, entries, recursive, overwrite, (n - 1) as nat);
    lemma_scanned_numbers(q, entries, recursive, overwrite, (n - 1) as nat);
    if j < before.jobs.len() {
        lemma_job_of_scan(q, entries, recursive, overwrite, (n - 1) as nat, j)
    } else {
        n - 1
    }
}

proof fn lemma_scanned_numbers(
    q: QueueView,
    entries: Seq<ScanEntry>,
    recursive: bool,
    overwrite: bool,
    n: nat,
)
    ensures
        ({
            let after = q.scanned(entries, recursive, overwrite, n);
            after.next_job_id - q.next_job_id == after.jobs.len() - q.jobs.len()
        }),
    decreases n,
{
    if n > 0 {
        lemma_scanned_numbers(q, entries, recursive, overwrite, (n - 1) as nat);
    }
}

/// After a scan every video of the listing has a job, unless its script exists and is not to
/// be replaced: no video is missed.
pub proof fn lemma_no_video_missed(
    q: QueueView,
    entries: Seq<ScanEntry>,
    recursive: bool,
    overwrite: bool,
    n: nat,
    k: int,
)
    requires
        q.valid(),
        0 <= q.next_job_id,
        q.next_job_id + n <= usize::MAX,
        0 <= k < n,
        entries[k]@.is_file,
        !entries[k]@.is_dir,
        overwrite || !entries[k]@.script_exists,
        ({
            let ext = lowercase_of(entries[k]@.extension);
            ext == "mp4"@ || ext == "mkv"@ || ext == "webm"@ || ext == "avi"@ || ext == "mov"@ || ext
                == "m4v"@ || ext == "wmv"@
        }),
    ensures
        exists|j: int|
            0 <= j < q.scanned(entries, recursive, overwrite, n).jobs.len() && parts_of(
                (#[trigger] q.scanned(entries, recursive, overwrite, n).jobs[j]).video,
            ) == parts_of(entries[k]@.path),
{
    lemma_scanned_valid(q, entries, recursive, overwrite, n);
    assert(is_wanted(entries[k]@, recursive, overwrite));
    assert(q.scanned(entries, recursive, overwrite, n).holds(entries[k]@.path));
}

/// A recursive scan goes on to every directory of the listing and to nothing else; another
/// goes on to none.
pub proof fn lemma_descended(entries: Seq<ScanEntry>, recursive: bool, n: nat, path: Seq<char>)
    requires
        n <= entries.len(),
    ensures
        descended(entries, recursive, n).contains(path) <==> recursive && exists|k: int|
            0 <= k < n && (#[trigger] entries[k])@.is_dir && entries[k]@.path == path,
        !recursive ==> descended(entries, recursive, n).len() == 0,
    decreases n,
{
    let all = descended(entries, recursive, n);
    if n > 0 {
        let head = descended(entries, recursive, (n - 1) as nat);
        lemma_descended(entries, recursive, (n - 1) as nat, path);
        if head.contains(path) {
            let i = choose|i: int| 0 <= i < head.len() && head[i] == path;
            assert(all[i] == path);
        }
        if recursive && entries[n - 1]@.is_dir {
            assert(all[head.len() as int] == entries[n - 1]@.path);
        }
        if all.contains(path) {
            let i = choose|i: int| 0 <= i < all.len() && all[i] == path;
            if i < head.len() {
                assert(head[i] == path);
            } else {
                assert(entries[n - 1]@.is_dir);
            }
        }
    }
}

/// The places among the first `n` whose job is in a state.
pub open spec fn places_in_state(jobs: Seq<JobView>, kind: StatusKind, n: nat) -> Set<int> {
    Set::new(
        |i: int|
            0 <= i < n && match kind {
                StatusKind::Queued => jobs[i].status is Queued,
                StatusKind::Processing => jobs[i].status is Processing,
                StatusKind::Completed => jobs[i].status is Completed,
                StatusKind::Failed => jobs[i].status is Failed,
                StatusKind::Skipped => jobs[i].status is Skipped,
            },
    )
}

/// The count for a state is the number of jobs in it.
pub proof fn lemma_count_is_number_of_jobs(jobs: Seq<JobView>, kind: StatusKind, n: nat)
    ensures
        places_in_state(jobs, kind, n).finite(),
        count_of(jobs, kind, n) == places_in_state(jobs, kind, n).len(),
    decreases n,
{
    let all = places_in_state(jobs, kind, n);
    if n == 0 {
        assert(all =~= Set::empty());
    } else {
        let fewer = places_in_state(jobs, kind, (n - 1) as nat);
        lemma_count_is_number_of_jobs(jobs, kind, (n - 1) as nat);
        if kind_of(jobs[n - 1].status) == kind {
            assert(all =~= fewer.insert(n - 1));
        } else {
            assert(all =~= fewer);
        }
    }
}

/// A status given to an identifier becomes that of its job, and of no other; nothing else of
/// a job changes.
pub proof fn lemma_status_given(q: QueueView, id: usize, status: StatusView, i: int)
    requires
        q.valid(),
        0 <= i < q.jobs.len(),
    ensures
        with_status(q.jobs, id, status).len() == q.jobs.len(),
        q.jobs[i].id != id ==> with_status(q.jobs, id, status)[i] == q.jobs[i],
        q.jobs[i].id == id ==> with_status(q.jobs, id, status)[i].status == status,
        with_status(q.jobs, id, status)[i].id == q.jobs[i].id,
        with_status(q.jobs, id, status)[i].video == q.jobs[i].video,
        with_status(q.jobs, id, status)[i].output == q.jobs[i].output,
{
    lemma_place_found(q.jobs, id, 0);
}

proof fn lemma_place_found(jobs: Seq<JobView>, id: usize, i: int)
    requires
        0 <= i <= jobs.len(),
    ensures
        i <= place_of_id(jobs, id, i) <= jobs.len(),
        place_of_id(jobs, id, i) < jobs.len() ==> jobs[place_of_id(jobs, id, i)].id == id,
        forall|k: int| i <= k < place_of_id(jobs, id, i) ==> (#[trigger] jobs[k]).id != id,
    decreases jobs.len() - i,
{
    if i < jobs.len() && jobs[i].id != id {
        lemma_place_found(jobs, id, i + 1);
    }
}

/// Without a detector every job fails that is not passed over: it is reported as started and
/// right after as failed, with the reason. Where the report stands is returned.
pub proof fn lemma_failure_reported(
    jobs: Seq<JobView>,
    existing: Seq<bool>,
    overwrite: bool,
    error: Seq<char>,
    n: nat,
    i: int,
) -> (p: int)
    requires
        0 <= i < n,
        overwrite || !existing[i],
    ensures
        ({
            let said = failures(jobs, existing, overwrite, error, n);
            &&& 0 <= p < said.len() - 1
            &&& said[p] == (UpdateView::JobStarted { id: jobs[i].id })
            &&& said[p + 1] == (UpdateView::JobFailed {
                id: jobs[i].id,
                error: "Failed to initialize neural detector: "@ + error,
            })
        }),
    decreases n,
{
    let head = failures(jobs, existing, overwrite, error, (n - 1) as nat);
    if i == n - 1 {
        head.len() as int
    } else {
        lemma_failure_reported(jobs, existing, overwrite, error, (n - 1) as nat, i)
    }
}

/// Nothing is reported of a job that is passed over: each report is about a job whose script
/// does not exist or is to be replaced. The job's place is returned.
pub proof fn lemma_only_failures_reported(
    jobs: Seq<JobView>,
    existing: Seq<bool>,
    overwrite: bool,
    error: Seq<char>,
    n: nat,
    p: int,
) -> (i: int)
    requires
        0 <= p < failures(jobs, existing, overwrite, error, n).len(),
    ensures
        0 <= i < n,
        overwrite || !existing[i],
        failures(jobs, existing, overwrite, error, n)[p] == (if p % 2 == 0 {
            UpdateView::JobStarted { id: jobs[i].id }
        } else {
            UpdateView::JobFailed {
                id: jobs[i].id,
                error: "Failed to initialize neural detector: "@ + error,
            }
        }),
    decreases n,
{
    let head = failures(jobs, existing, overwrite, error, (n - 1) as nat);
    lemma_failures_in_pairs(jobs, existing, overwrite, error, (n - 1) as nat);
    if p < head.len() {
        lemma_only_failures_reported(jobs, existing, overwrite, error, (n - 1) as nat, p)
    } else {
        n - 1
    }
}

proof fn lemma_failures_in_pairs(
    jobs: Seq<JobView>,
    existing: Seq<bool>,
    overwrite: bool,
    error: Seq<char>,
    n: nat,
)
    ensures
        failures(jobs, existing, overwrite, error, n).len() % 2 == 0,
    decreases n,
{
    if n > 0 {
        lemma_failures_in_pairs(jobs, existing, overwrite, error, (n - 1) as nat);
    }
}

} // verus!
