//! The transcode job queue: admission control with a capacity bound and
//! key deduplication, and the bookkeeping the executor performs when a
//! job finishes. The queue itself is pure state; the process glue owns
//! the lock around it, the hand-off channel and the executor thread, and
//! reports each job's outcome back through [`Worker::finish_job`].

use vstd::prelude::*;

use crate::error::ClipError;
use crate::models::ConfigureClipRequest;
use crate::strutil::{
    contains_seq, distinct_seqs, find_char, first_index_of, matches_at, trim_of, trimmed,
    vec_contains_str,
};
use crate::time::{fields_total, parses_to_u8, validate_start_end, VideoTime};

verus! {

/// One validated request to produce a clip, immutable once built.
#[derive(Debug, Clone)]
pub struct Job {
    pub source_file_path: String,
    pub out_file_path: String,
    pub clip_name: String,
    /// The derived key used for deduplication and pending tracking.
    pub file_name: String,
    pub audio_track: String,
    pub subtitle_track: String,
    pub start_time: VideoTime,
    pub end_time: VideoTime,
    pub audio_only: bool,
}

impl Job {
    /// Both time points are normalized.
    pub open spec fn wf(self) -> bool {
        self.start_time.wf() && self.end_time.wf()
    }

    /// Bundle the fields of a job.
    #[allow(clippy::too_many_arguments)]
    pub fn new(
        source_file_path: String,
        out_file_path: String,
        clip_name: String,
        file_name: String,
        audio_track: String,
        subtitle_track: String,
        start_time: VideoTime,
        end_time: VideoTime,
        audio_only: bool,
    ) -> (job: Job)
        ensures
            job == (Job {
                source_file_path,
                out_file_path,
                clip_name,
                file_name,
                audio_track,
                subtitle_track,
                start_time,
                end_time,
                audio_only,
            }),
    {
        Job {
            source_file_path,
            out_file_path,
            clip_name,
            file_name,
            audio_track,
            subtitle_track,
            start_time,
            end_time,
            audio_only,
        }
    }

    /// The failure-log entry recorded when this job ends with the given
    /// outcome. Meaningful only for failing outcomes.
    pub open spec fn failure_message_view(self, outcome: JobOutcome) -> Seq<char> {
        match outcome {
            JobOutcome::Completed => Seq::empty(),
            JobOutcome::SourceMissing => "clip '"@ + self.clip_name@ + "': file "@
                + self.source_file_path@ + " does not exist"@,
            JobOutcome::TranscoderStatus { status } => "clip '"@ + self.clip_name@ + "': job "@
                + self.clip_name@ + " failed: ffmpeg returned status "@ + status@,
            JobOutcome::SpawnFailed { error } => "clip '"@ + self.clip_name@ + "': "@ + error@,
        }
    }

    /// The audio track selector carries an index part before a colon.
    pub open spec fn has_audio_selector(self) -> bool {
        first_index_of(self.audio_track@, ':') >= 0
    }

    /// The index part of the audio track selector.
    pub open spec fn audio_selector_index(self) -> Seq<char> {
        self.audio_track@.subrange(0, first_index_of(self.audio_track@, ':'))
    }

    /// The index part of the subtitle track selector.
    pub open spec fn subtitle_selector_index(self) -> Seq<char> {
        self.subtitle_track@.subrange(0, first_index_of(self.subtitle_track@, ':'))
    }

    /// Subtitles are burnt in only for a non-audio job whose subtitle
    /// selector is present and carries an index part.
    pub open spec fn wants_subtitles(self) -> bool {
        self.subtitle_track@.len() > 0 && !self.audio_only && first_index_of(
            self.subtitle_track@,
            ':',
        ) >= 0
    }

    /// The full transcoder command line for this job, one argument per
    /// element, exactly as the executor hands it to the external process.
    pub open spec fn transcoder_args_view(self) -> Seq<Seq<char>> {
        seq![
            "-y"@,
            "-i"@,
            self.source_file_path@,
            "-ss"@,
            self.start_time.time_code_view(),
            "-to"@,
            self.end_time.time_code_view(),
            "-map_metadata"@,
            "-1"@,
            "-metadata:g:0"@,
            "title="@ + self.clip_name@,
        ] + (if self.audio_only {
            seq!["-c:a"@, "mp3"@, "-f"@, "mp3"@]
        } else {
            seq![
                "-c:v"@,
                "libx264"@,
                "-c:a"@,
                "aac"@,
                "-map"@,
                "0:0"@,
                "-f"@,
                "mp4"@,
                "-crf"@,
                "22"@,
                "-pix_fmt"@,
                "yuv420p"@,
            ]
        }) + seq!["-map"@, "0:"@ + self.audio_selector_index()] + (if self.wants_subtitles() {
            seq![
                "-vf"@,
                "subtitles='"@ + self.source_file_path@
                    + "':force_style='FontName=DejaVu Sans':si="@
                    + self.subtitle_selector_index(),
            ]
        } else {
            Seq::empty()
        }) + seq![self.out_file_path@]
    }

    /// Build the transcoder's argument list. Fails exactly when the audio
    /// track selector has no index part; no other field can fail.
    pub fn transcoder_args(&self) -> (r: Result<Vec<String>, ClipError>)
        requires
            self.wf(),
        ensures
            r is Ok <==> self.has_audio_selector(),
            r is Ok ==> r->Ok_0.deep_view() == self.transcoder_args_view(),
            r is Err ==> r == Err::<Vec<String>, ClipError>(ClipError::MissingAudioTrack),
    {
        let a_colon = match find_char(self.audio_track.as_str(), ':') {
            Some(i) => i,
            None => {
                return Err(ClipError::MissingAudioTrack);
            },
        };
        let mut args: Vec<String> = Vec::new();
        args.push(String::from_str("-y"));
        args.push(String::from_str("-i"));
        args.push(self.source_file_path.clone());
        args.push(String::from_str("-ss"));
        args.push(self.start_time.time_code());
        args.push(String::from_str("-to"));
        args.push(self.end_time.time_code());
        args.push(String::from_str("-map_metadata"));
        args.push(String::from_str("-1"));
        args.push(String::from_str("-metadata:g:0"));
        let mut title = String::from_str("title=");
        title.append(self.clip_name.as_str());
        args.push(title);
        if self.audio_only {
            args.push(String::from_str("-c:a"));
            args.push(String::from_str("mp3"));
            args.push(String::from_str("-f"));
            args.push(String::from_str("mp3"));
        } else {
            args.push(String::from_str("-c:v"));
            args.push(String::from_str("libx264"));
            args.push(String::from_str("-c:a"));
            args.push(String::from_str("aac"));
            args.push(String::from_str("-map"));
            args.push(String::from_str("0:0"));
            args.push(String::from_str("-f"));
            args.push(String::from_str("mp4"));
            args.push(String::from_str("-crf"));
            args.push(String::from_str("22"));
            args.push(String::from_str("-pix_fmt"));
            args.push(String::from_str("yuv420p"));
        }
        args.push(String::from_str("-map"));
        let mut audio_map = String::from_str("0:");
        audio_map.append(self.audio_track.as_str().substring_char(0, a_colon));
        args.push(audio_map);
        if !self.subtitle_track.as_str().is_empty() && !self.audio_only {
            if let Some(s_colon) = find_char(self.subtitle_track.as_str(), ':') {
                args.push(String::from_str("-vf"));
                let mut filter = String::from_str("subtitles='");
                filter.append(self.source_file_path.as_str());
                filter.append("':force_style='FontName=DejaVu Sans':si=");
                filter.append(self.subtitle_track.as_str().substring_char(0, s_colon));
                args.push(filter);
            }
        }
        args.push(self.out_file_path.clone());
        proof {
            assert(args.deep_view() =~= self.transcoder_args_view());
        }
        Ok(args)
    }
}

/// How one job ended, as the executor observed it.
#[derive(Debug, Clone)]
pub enum JobOutcome {
    /// The transcoder exited with a success status.
    Completed,
    /// The source file was gone before anything was spawned.
    SourceMissing,
    /// The transcoder exited with the given non-success status.
    TranscoderStatus { status: String },
    /// The transcoder process could not be started.
    SpawnFailed { error: String },
}

/// The state of the job queue: the keys of jobs currently queued or
/// executing, the accumulated failure log, and the admission bound.
#[derive(Debug)]
pub struct Worker {
    pending_jobs: Vec<String>,
    failures: Vec<String>,
    max_queue_size: usize,
}

impl Worker {
    /// The keys currently pending, in admission order.
    pub closed spec fn pending(self) -> Seq<Seq<char>> {
        self.pending_jobs.deep_view()
    }

    /// The failure messages recorded so far, oldest first.
    pub closed spec fn failure_log(self) -> Seq<Seq<char>> {
        self.failures.deep_view()
    }

    /// The admission bound.
    pub closed spec fn capacity(self) -> int {
        self.max_queue_size as int
    }

    /// Pending keys are distinct and never exceed the capacity.
    pub open spec fn wf(self) -> bool {
        distinct_seqs(self.pending()) && self.pending().len() <= self.capacity()
    }

    pub open spec fn pending_contains(self, key: Seq<char>) -> bool {
        self.pending().contains(key)
    }

    /// Admission control: a key enters only while there is room and no
    /// pending job already carries it.
    pub open spec fn admits(self, key: Seq<char>) -> bool {
        self.pending().len() < self.capacity() && !self.pending_contains(key)
    }

    /// A fresh queue with the given admission bound and nothing pending.
    pub fn new(max_queue_size: usize) -> (w: Worker)
        requires
            max_queue_size >= 1,
        ensures
            w.wf(),
            w.capacity() == max_queue_size,
            w.pending() == Seq::<Seq<char>>::empty(),
            w.failure_log() == Seq::<Seq<char>>::empty(),
    {
        let w = Worker { pending_jobs: Vec::new(), failures: Vec::new(), max_queue_size };
        proof {
            assert(w.pending() =~= Seq::<Seq<char>>::empty());
            assert(w.failure_log() =~= Seq::<Seq<char>>::empty());
        }
        w
    }

    /// Snapshot of the pending keys.
    pub fn jobs_in_progress(&self) -> (keys: Vec<String>)
        ensures
            keys.deep_view() == self.pending(),
    {
        let keys = self.pending_jobs.clone();
        proof {
            assert(keys.deep_view() =~= self.pending());
        }
        keys
    }

    /// Snapshot of the failure log.
    pub fn failures(&self) -> (log: Vec<String>)
        ensures
            log.deep_view() == self.failure_log(),
    {
        let log = self.failures.clone();
        proof {
            assert(log.deep_view() =~= self.failure_log());
        }
        log
    }

    /// Drop every recorded failure.
    pub fn clear_failures(&mut self)
        ensures
            final(self).failure_log() == Seq::<Seq<char>>::empty(),
            final(self).pending() == old(self).pending(),
            final(self).capacity() == old(self).capacity(),
    {
        self.failures = Vec::new();
        proof {
            assert(self.failure_log() =~= Seq::<Seq<char>>::empty());
        }
    }

    /// Admission: register the job's key among the pending keys. Fails
    /// with a queue-full error when the queue is at capacity, and with a
    /// duplicate-job error when the key is already pending; otherwise the
    /// key is appended and the caller may hand the job to the executor.
    pub fn add_job(&mut self, job: &Job) -> (r: Result<(), ClipError>)
        requires
            old(self).wf(),
        ensures
            final(self).wf(),
            final(self).capacity() == old(self).capacity(),
            final(self).failure_log() == old(self).failure_log(),
            r is Ok <==> old(self).admits(job.file_name@),
            r is Ok ==> final(self).pending() == old(self).pending().push(job.file_name@),
            r is Err ==> final(self).pending() == old(self).pending(),
            old(self).pending().len() >= old(self).capacity() ==> (r matches Err(
                ClipError::QueueFull { max_queue_size },
            ) && max_queue_size as int == old(self).capacity()),
            old(self).pending().len() < old(self).capacity() && old(self).pending_contains(
                job.file_name@,
            ) ==> (r matches Err(ClipError::DuplicateJob { file_name }) && file_name@
                == job.file_name@),
    {
        if self.pending_jobs.len() >= self.max_queue_size {
            return Err(ClipError::QueueFull { max_queue_size: self.max_queue_size });
        }
        if vec_contains_str(&self.pending_jobs, job.file_name.as_str()) {
            return Err(ClipError::DuplicateJob { file_name: job.file_name.clone() });
        }
        self.pending_jobs.push(job.file_name.clone());
        proof {
            assert(self.pending() =~= old(self).pending().push(job.file_name@));
        }
        Ok(())
    }

    /// Completion bookkeeping: whatever the outcome, the job's key leaves
    /// the pending set; a failing outcome appends its message to the
    /// failure log. Other pending keys are untouched.
    pub fn finish_job(&mut self, job: &Job, outcome: &JobOutcome)
        requires
            old(self).wf(),
        ensures
            final(self).wf(),
            final(self).capacity() == old(self).capacity(),
            !final(self).pending_contains(job.file_name@),
            forall|k: Seq<char>|
                k != job.file_name@ ==> (final(self).pending_contains(k) <==> old(
                    self,
                ).pending_contains(k)),
            old(self).pending_contains(job.file_name@) ==> final(self).pending().len() == old(
                self,
            ).pending().len() - 1,
            !old(self).pending_contains(job.file_name@) ==> final(self).pending() == old(
                self,
            ).pending(),
            outcome is Completed ==> final(self).failure_log() == old(self).failure_log(),
            !(outcome is Completed) ==> final(self).failure_log() == old(
                self,
            ).failure_log().push(job.failure_message_view(*outcome)),
    {
        match outcome {
            JobOutcome::Completed => {},
            JobOutcome::SourceMissing => {
                let mut msg = String::from_str("clip '");
                msg.append(job.clip_name.as_str());
                msg.append("': file ");
                msg.append(job.source_file_path.as_str());
                msg.append(" does not exist");
                self.failures.push(msg);
                proof {
                    assert(self.failure_log() =~= old(self).failure_log().push(
                        job.failure_message_view(*outcome),
                    ));
                }
            },
            JobOutcome::TranscoderStatus { status } => {
                let mut msg = String::from_str("clip '");
                msg.append(job.clip_name.as_str());
                msg.append("': job ");
                msg.append(job.clip_name.as_str());
                msg.append(" failed: ffmpeg returned status ");
                msg.append(status.as_str());
                self.failures.push(msg);
                proof {
                    assert(self.failure_log() =~= old(self).failure_log().push(
                        job.failure_message_view(*outcome),
                    ));
                }
            },
            JobOutcome::SpawnFailed { error } => {
                let mut msg = String::from_str("clip '");
                msg.append(job.clip_name.as_str());
                msg.append("': ");
                msg.append(error.as_str());
                self.failures.push(msg);
                proof {
                    assert(self.failure_log() =~= old(self).failure_log().push(
                        job.failure_message_view(*outcome),
                    ));
                }
            },
        }
        let ghost mid = *self;
        proof {
            assert(mid.pending() == old(self).pending());
        }
        let n = self.pending_jobs.len();
        let mut i: usize = 0;
        while i < n
            invariant
                n == self.pending_jobs.len(),
                i <= n,
                *self == mid,
                mid.pending() == old(self).pending(),
                mid.capacity() == old(self).capacity(),
                distinct_seqs(mid.pending()),
                mid.pending().len() <= mid.capacity(),
                outcome is Completed ==> mid.failure_log() == old(self).failure_log(),
                !(outcome is Completed) ==> mid.failure_log() == old(self).failure_log().push(
                    job.failure_message_view(*outcome),
                ),
                forall|j: int| 0 <= j < i ==> self.pending()[j] != job.file_name@,
            decreases n - i,
        {
            if str_eq_at(&self.pending_jobs, i, job.file_name.as_str()) {
                let ghost p = self.pending();
                self.pending_jobs.remove(i);
                proof {
                    assert(self.pending() =~= p.remove(i as int));
                    lemma_remove_unique(p, i as int, job.file_name@);
                }
                return;
            }
            i = i + 1;
        }
        proof {
            assert(forall|j: int|
                0 <= j < self.pending().len() ==> self.pending()[j] != job.file_name@);
            if self.pending_contains(job.file_name@) {
                let w = choose|w: int|
                    0 <= w < self.pending().len() && self.pending()[w] == job.file_name@;
                assert(false);
            }
        }
    }
}

/// Compare one element of a string vector against a string slice.
fn str_eq_at(v: &Vec<String>, i: usize, s: &str) -> (r: bool)
    requires
        i < v.len(),
    ensures
        r == (v.deep_view()[i as int] == s@),
{
    crate::strutil::str_eq(v[i].as_str(), s)
}

/// Removing the only occurrence of `key` from a distinct sequence keeps
/// every other key and drops that one.
proof fn lemma_remove_unique(p: Seq<Seq<char>>, i: int, key: Seq<char>)
    requires
        distinct_seqs(p),
        0 <= i < p.len(),
        p[i] == key,
    ensures
        distinct_seqs(p.remove(i)),
        !p.remove(i).contains(key),
        forall|k: Seq<char>| k != key ==> (p.remove(i).contains(k) <==> p.contains(k)),
        p.remove(i).len() == p.len() - 1,
{
    let q = p.remove(i);
    assert forall|a: int, b: int| 0 <= a < b < q.len() implies q[a] != q[b] by {
        let a2: int = if a < i {
            a
        } else {
            a + 1
        };
        let b2: int = if b < i {
            b
        } else {
            b + 1
        };
        assert(q[a] == p[a2]);
        assert(q[b] == p[b2]);
    }
    if q.contains(key) {
        let w = choose|w: int| 0 <= w < q.len() && q[w] == key;
        let w2: int = if w < i {
            w
        } else {
            w + 1
        };
        assert(p[w2] == key);
        assert(p[i] == key);
        assert(false);
    }
    assert forall|k: Seq<char>| k != key implies (q.contains(k) <==> p.contains(k)) by {
        if q.contains(k) {
            let w = choose|w: int| 0 <= w < q.len() && q[w] == k;
            let w2: int = if w < i {
                w
            } else {
                w + 1
            };
            assert(p[w2] == k);
        }
        if p.contains(k) {
            let w = choose|w: int| 0 <= w < p.len() && p[w] == k;
            if w < i {
                assert(q[w] == k);
            } else {
                assert(w > i);
                assert(q[w - 1] == k);
            }
        }
    }
}

/// The output extension for a clip: audio-only clips become MP3 files,
/// all others MP4.
pub open spec fn ext_view(audio_only: bool) -> Seq<char> {
    if audio_only {
        "mp3"@
    } else {
        "mp4"@
    }
}

/// Total seconds denoted by a request's start fields.
pub open spec fn req_start_total(req: ConfigureClipRequest) -> int {
    fields_total(req.start_hour@, req.start_min@, req.start_sec@)
}

/// Total seconds denoted by a request's end fields.
pub open spec fn req_end_total(req: ConfigureClipRequest) -> int {
    fields_total(req.end_hour@, req.end_min@, req.end_sec@)
}

/// Every time field of the request parses.
pub open spec fn req_fields_parse(req: ConfigureClipRequest) -> bool {
    parses_to_u8(req.start_hour@) && parses_to_u8(req.start_min@) && parses_to_u8(req.start_sec@)
        && parses_to_u8(req.end_hour@) && parses_to_u8(req.end_min@) && parses_to_u8(req.end_sec@)
}

/// Turn a clip request into a job: validate the time range against the
/// configured maximum, derive the output file name and path under the
/// output directory, and trim the source path. Succeeds exactly when the
/// time range validates.
pub fn prepare_job(max_clip_duration: u64, out_path: &str, req: &ConfigureClipRequest) -> (r:
    Result<Job, ClipError>)
    ensures
        r is Ok <==> req_fields_parse(*req) && req_end_total(*req) > req_start_total(*req)
            && req_end_total(*req) - req_start_total(*req) <= max_clip_duration,
        r is Ok ==> ({
            let job = r->Ok_0;
            &&& job.wf()
            &&& job.source_file_path@ == trim_of(req.source_file@)
            &&& job.clip_name@ == req.clip_name@
            &&& job.file_name@ == req.clip_name@ + "."@ + ext_view(req.audio_only)
            &&& job.out_file_path@ == out_path@ + "/"@ + req.clip_name@ + "."@ + ext_view(
                req.audio_only,
            )
            &&& job.audio_track@ == req.audio_track@
            &&& job.subtitle_track@ == req.subtitle_track@
            &&& job.audio_only == req.audio_only
            &&& job.start_time.total_seconds() == req_start_total(*req)
            &&& job.end_time.total_seconds() == req_end_total(*req)
        }),
        !req_fields_parse(*req) ==> r == Err::<Job, ClipError>(ClipError::InvalidTimeNumber),
        req_fields_parse(*req) && req_end_total(*req) <= req_start_total(*req) ==> r == Err::<
            Job,
            ClipError,
        >(ClipError::StartNotBeforeEnd),
        req_fields_parse(*req) && req_end_total(*req) > req_start_total(*req) && req_end_total(*req)
            - req_start_total(*req) > max_clip_duration ==> r == Err::<Job, ClipError>(
            ClipError::DurationTooLong { max_seconds: max_clip_duration },
        ),
{
    let times = validate_start_end(
        max_clip_duration,
        req.start_hour.as_str(),
        req.start_min.as_str(),
        req.start_sec.as_str(),
        req.end_hour.as_str(),
        req.end_min.as_str(),
        req.end_sec.as_str(),
    )?;
    let ext: &str = if req.audio_only {
        "mp3"
    } else {
        "mp4"
    };
    let mut file_name = req.clip_name.clone();
    file_name.append(".");
    file_name.append(ext);
    let mut out_file_path = String::from_str(out_path);
    out_file_path.append("/");
    out_file_path.append(file_name.as_str());
    proof {
        reveal_strlit(".");
        reveal_strlit("/");
        assert(file_name@ =~= req.clip_name@ + "."@ + ext_view(req.audio_only));
        assert(out_file_path@ =~= out_path@ + "/"@ + req.clip_name@ + "."@ + ext_view(
            req.audio_only,
        ));
    }
    Ok(
        Job::new(
            trimmed(req.source_file.as_str()),
            out_file_path,
            req.clip_name.clone(),
            file_name,
            req.audio_track.clone(),
            req.subtitle_track.clone(),
            times.0,
            times.1,
            req.audio_only,
        ),
    )
}

/// Law: every failure-log entry names the clip it is about: the clip
/// name occurs inside the recorded message.
pub proof fn lemma_failure_message_names_clip(job: Job, outcome: JobOutcome)
    requires
        !(outcome is Completed),
    ensures
        contains_seq(job.failure_message_view(outcome), job.clip_name@),
{
    reveal_strlit("clip '");
    let pre = "clip '"@;
    let msg = job.failure_message_view(outcome);
    let n = job.clip_name@.len() as int;
    assert(pre.len() == 6);
    assert(msg.subrange(6, 6 + n) =~= job.clip_name@);
    assert(matches_at(msg, job.clip_name@, 6));
}

/// Law: while the queue is full, every submission is refused, whatever
/// its key.
pub proof fn lemma_full_queue_rejects(w: Worker, key: Seq<char>)
    requires
        w.pending().len() >= w.capacity(),
    ensures
        !w.admits(key),
{
}

/// Law: when a queue at capacity finishes any pending job, a key that
/// was not pending before is admitted again. The premises about `after`
/// are exactly what `finish_job` guarantees for the finished key `done`.
pub proof fn lemma_completion_frees_slot(
    before: Worker,
    after: Worker,
    done: Seq<char>,
    fresh: Seq<char>,
)
    requires
        before.wf(),
        before.capacity() > 0,
        before.pending().len() >= before.capacity(),
        fresh == done || !before.pending_contains(fresh),
        after.capacity() == before.capacity(),
        !after.pending_contains(done),
        after.pending().len() == before.pending().len() - 1,
        forall|k: Seq<char>| k != done ==> (after.pending_contains(k) <==> before.pending_contains(k)),
    ensures
        after.admits(fresh),
{
    assert(after.pending().len() < after.capacity());
    if fresh != done && after.pending_contains(fresh) {
        assert(before.pending_contains(fresh));
    }
}

} // verus!
