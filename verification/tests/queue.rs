use media_clipper::error::ClipError;
use media_clipper::jobs::{prepare_job, Job, JobOutcome, Worker};
use media_clipper::models::ConfigureClipRequest;
use media_clipper::time::VideoTime;

fn job_named(file_name: &str, clip_name: &str) -> Job {
    Job::new(
        "/media/source.mkv".to_string(),
        format!("/out/{}", file_name),
        clip_name.to_string(),
        file_name.to_string(),
        "1:'Stereo' (eng - aac)".to_string(),
        String::new(),
        VideoTime::new(0, 0, 10),
        VideoTime::new(0, 0, 20),
        false,
    )
}

#[test]
fn queue_admits_up_to_capacity_and_recovers() {
    let mut w = Worker::new(2);
    let a = job_named("a.mp4", "a");
    let b = job_named("b.mp4", "b");
    let c = job_named("c.mp4", "c");
    assert!(w.add_job(&a).is_ok());
    assert!(w.add_job(&b).is_ok());
    // the queue is full: a third, distinct job is refused
    let refused = w.add_job(&c);
    assert!(matches!(
        refused,
        Err(ClipError::QueueFull { max_queue_size: 2 })
    ));
    assert_eq!(w.jobs_in_progress().len(), 2);
    // once one job completes, the same submission is admitted
    w.finish_job(&a, &JobOutcome::Completed);
    assert!(w.add_job(&c).is_ok());
    let pending = w.jobs_in_progress();
    assert!(pending.contains(&"b.mp4".to_string()));
    assert!(pending.contains(&"c.mp4".to_string()));
    assert!(!pending.contains(&"a.mp4".to_string()));
}

#[test]
fn duplicate_key_is_refused_while_pending() {
    let mut w = Worker::new(4);
    let first = job_named("clip.mp4", "clip");
    let second = job_named("clip.mp4", "clip");
    assert!(w.add_job(&first).is_ok());
    let refused = w.add_job(&second);
    match refused {
        Err(ClipError::DuplicateJob { file_name }) => assert_eq!(file_name, "clip.mp4"),
        other => panic!("expected a duplicate-job error, got {:?}", other),
    }
    assert_eq!(w.jobs_in_progress().len(), 1);
}

#[test]
fn failed_job_leaves_pending_and_is_logged() {
    let mut w = Worker::new(4);
    let j = job_named("night.mp4", "night");
    assert!(w.add_job(&j).is_ok());
    assert_eq!(w.jobs_in_progress(), vec!["night.mp4".to_string()]);
    w.finish_job(
        &j,
        &JobOutcome::TranscoderStatus {
            status: "exit status: 1".to_string(),
        },
    );
    // the key is gone, and the failure names the clip
    assert!(w.jobs_in_progress().is_empty());
    let failures = w.failures();
    assert_eq!(failures.len(), 1);
    assert!(failures[0].contains("night"));
    assert_eq!(
        failures[0],
        "clip 'night': job night failed: ffmpeg returned status exit status: 1"
    );
    // clearing empties the log
    w.clear_failures();
    assert!(w.failures().is_empty());
}

#[test]
fn missing_source_is_logged_with_path() {
    let mut w = Worker::new(4);
    let j = job_named("x.mp4", "x");
    assert!(w.add_job(&j).is_ok());
    w.finish_job(&j, &JobOutcome::SourceMissing);
    assert_eq!(
        w.failures(),
        vec!["clip 'x': file /media/source.mkv does not exist".to_string()]
    );
    assert!(w.jobs_in_progress().is_empty());
}

#[test]
fn successful_job_leaves_no_trace() {
    let mut w = Worker::new(4);
    let j = job_named("ok.mp4", "ok");
    assert!(w.add_job(&j).is_ok());
    w.finish_job(&j, &JobOutcome::Completed);
    assert!(w.jobs_in_progress().is_empty());
    assert!(w.failures().is_empty());
}

#[test]
fn transcoder_args_for_video_with_subtitles() {
    let job = Job::new(
        "/media/movie.mkv".to_string(),
        "/out/scene.mp4".to_string(),
        "scene".to_string(),
        "scene.mp4".to_string(),
        "1:'Stereo' (eng - aac)".to_string(),
        "2:'Full' (eng - subrip)".to_string(),
        VideoTime::new(0, 1, 0),
        VideoTime::new(0, 2, 30),
        false,
    );
    let args = job.transcoder_args().unwrap();
    assert_eq!(
        args,
        vec![
            "-y",
            "-i",
            "/media/movie.mkv",
            "-ss",
            "0:01:00",
            "-to",
            "0:02:30",
            "-map_metadata",
            "-1",
            "-metadata:g:0",
            "title=scene",
            "-c:v",
            "libx264",
            "-c:a",
            "aac",
            "-map",
            "0:0",
            "-f",
            "mp4",
            "-crf",
            "22",
            "-pix_fmt",
            "yuv420p",
            "-map",
            "0:1",
            "-vf",
            "subtitles='/media/movie.mkv':force_style='FontName=DejaVu Sans':si=2",
            "/out/scene.mp4",
        ]
    );
}

#[test]
fn transcoder_args_for_audio_only() {
    let job = Job::new(
        "/media/movie.mkv".to_string(),
        "/out/song.mp3".to_string(),
        "song".to_string(),
        "song.mp3".to_string(),
        "0:'Main' (jpn - flac)".to_string(),
        "1:'Full' (eng - ass)".to_string(),
        VideoTime::new(0, 0, 5),
        VideoTime::new(0, 0, 45),
        true,
    );
    let args = job.transcoder_args().unwrap();
    // audio-only: mp3 codec and container, and no subtitle burn-in
    assert_eq!(
        args,
        vec![
            "-y",
            "-i",
            "/media/movie.mkv",
            "-ss",
            "0:00:05",
            "-to",
            "0:00:45",
            "-map_metadata",
            "-1",
            "-metadata:g:0",
            "title=song",
            "-c:a",
            "mp3",
            "-f",
            "mp3",
            "-map",
            "0:0",
            "/out/song.mp3",
        ]
    );
}

#[test]
fn transcoder_args_need_an_audio_selector() {
    let mut job = job_named("x.mp4", "x");
    job.audio_track = "no selector here".to_string();
    assert!(matches!(
        job.transcoder_args(),
        Err(ClipError::MissingAudioTrack)
    ));
}

fn request(clip_name: &str, audio_only: bool) -> ConfigureClipRequest {
    ConfigureClipRequest {
        source_file: "  /media/movie.mkv  ".to_string(),
        clip_name: clip_name.to_string(),
        audio_track: "1:'Stereo' (eng - aac)".to_string(),
        subtitle_track: String::new(),
        start_sec: "30".to_string(),
        start_min: String::new(),
        start_hour: String::new(),
        end_sec: "0".to_string(),
        end_min: "1".to_string(),
        end_hour: String::new(),
        audio_only,
    }
}

#[test]
fn prepare_job_derives_paths_and_trims_source() {
    let job = prepare_job(600, "/out", &request("scene", false)).unwrap();
    assert_eq!(job.source_file_path, "/media/movie.mkv");
    assert_eq!(job.clip_name, "scene");
    assert_eq!(job.file_name, "scene.mp4");
    assert_eq!(job.out_file_path, "/out/scene.mp4");
    assert_eq!(job.start_time.seconds(), 30);
    assert_eq!(job.end_time.seconds(), 60);
}

#[test]
fn prepare_job_uses_mp3_for_audio_only() {
    let job = prepare_job(600, "/out", &request("song", true)).unwrap();
    assert_eq!(job.file_name, "song.mp3");
    assert_eq!(job.out_file_path, "/out/song.mp3");
}

#[test]
fn prepare_job_rejects_an_overlong_range() {
    let mut req = request("scene", false);
    req.end_min = "11".to_string();
    req.end_sec = String::new();
    req.start_sec = String::new();
    let r = prepare_job(600, "/out", &req);
    assert!(matches!(
        r,
        Err(ClipError::DurationTooLong { max_seconds: 600 })
    ));
}
