use media_clipper::app::App;
use media_clipper::clips::{
    audio_clips_in_directory, video_clips_in_directory, ClipInfo, ClipsLibrary, FileEntry,
};
use media_clipper::config::{AppConfig, Config};
use media_clipper::files::video_pairs_in_directory;
use media_clipper::models::{
    ConfigureClipRequest, DeleteClipRequest, FFProbeRequest, FFProbeResult, NewClipRequest,
    SearchRequest,
};
use media_clipper::strutil::{sort_strings, str_contains, str_ends_with};
use media_clipper::numfmt::u64_to_string;
use media_clipper::tracks::{get_track_data, StreamInfo};

fn strings(items: &[&str]) -> Vec<String> {
    items.iter().map(|s| s.to_string()).collect()
}

fn entry(name: &str, modified: u64) -> FileEntry {
    FileEntry {
        name: name.to_string(),
        modified,
    }
}

#[test]
fn clip_info_derives_routes_and_name() {
    let c = ClipInfo::new("scene.mp4".to_string(), 1700000000, "/public");
    assert_eq!(c.clip_name, "scene");
    assert_eq!(c.url, "/output/scene.mp4");
    assert_eq!(c.public_url, "/public/scene.mp4");
    assert_eq!(c.file_name, "scene.mp4");
    assert_eq!(c.time, 1700000000);
}

#[test]
fn directory_listing_is_filtered_by_extension_and_pending() {
    let entries = vec![
        entry("a.mp4", 1),
        entry("b.mp3", 2),
        entry("pending.mp4", 3),
        entry("notes.txt", 4),
        entry("c.mp4", 5),
    ];
    let pending = strings(&["pending.mp4"]);
    let videos = video_clips_in_directory(&entries, "/public", &pending);
    let names: Vec<&str> = videos.iter().map(|c| c.file_name.as_str()).collect();
    assert_eq!(names, vec!["a.mp4", "c.mp4"]);
    assert_eq!(videos[0].time, 1);
    let audios = audio_clips_in_directory(&entries, "/public", &pending);
    assert_eq!(audios.len(), 1);
    assert_eq!(audios[0].file_name, "b.mp3");
    let library = ClipsLibrary {
        video: videos,
        audio: audios,
    };
    assert_eq!(library.video.len(), 2);
    assert_eq!(library.audio.len(), 1);
}

#[test]
fn video_pairs_fill_an_odd_row_with_the_empty_info() {
    let names = strings(&["a.mp4", "skip.txt", "b.mp4", "c.mp4"]);
    let pairs = video_pairs_in_directory(&names, "/public");
    assert_eq!(pairs.len(), 2);
    assert_eq!(pairs[0].0.clip_name, "a");
    assert_eq!(pairs[0].0.url, "/output/a.mp4");
    assert_eq!(pairs[0].1.clip_name, "b");
    assert_eq!(pairs[1].0.clip_name, "c");
    assert_eq!(pairs[1].1.clip_name, "");
    assert_eq!(pairs[1].1.url, "");
}

#[test]
fn video_pairs_even_count_has_no_padding() {
    let names = strings(&["a.mp4", "b.mp4"]);
    let pairs = video_pairs_in_directory(&names, "/p");
    assert_eq!(pairs.len(), 1);
    assert_eq!(pairs[0].1.clip_name, "b");
}

fn stream(codec_type: &str, codec_name: &str, index: u32, language: &str, title: &str) -> StreamInfo {
    StreamInfo {
        codec_type: codec_type.to_string(),
        codec_name: codec_name.to_string(),
        index,
        language: language.to_string(),
        title: title.to_string(),
    }
}

#[test]
fn track_descriptors_follow_the_probe_output() {
    let audio = vec![
        stream("audio", "aac", 1, "eng", "Stereo"),
        stream("video", "h264", 0, "", ""),
        stream("audio", "ac3", 2, "jpn", "Surround"),
    ];
    let subs = vec![
        stream("video", "h264", 0, "", ""),
        stream("subtitle", "subrip", 3, "eng", "Full"),
    ];
    let (audio_tracks, sub_tracks) = get_track_data(&audio, &subs);
    assert_eq!(
        audio_tracks,
        vec!["1:'Stereo' (eng - aac)", "2:'Surround' (jpn - ac3)"]
    );
    // subtitle descriptors are keyed by position in the probed list, and
    // a leading empty entry stands for "no subtitles"
    assert_eq!(sub_tracks, vec!["", "1:'Full' (eng - subrip)"]);
}

#[test]
fn default_config_disables_search() {
    let c = Config::default();
    assert_eq!(c.app_name, "Media Server Clipper");
    assert!(!c.search_enabled);
}

fn config() -> AppConfig {
    AppConfig {
        app_name: "Clipper".to_string(),
        out_path: "/out".to_string(),
        public_link_prefix: "/public".to_string(),
        max_clip_duration: 600,
        max_queue_size: 4,
    }
}

#[test]
fn app_enables_search_only_with_source_dirs() {
    let without = App::new(config(), Vec::new(), Vec::new());
    assert!(without.search.is_none());
    let with = App::new(config(), strings(&["/media"]), strings(&["mkv"]));
    assert!(with.search.is_some());
    assert_eq!(with.app_name, "Clipper");
    assert_eq!(with.max_clip_duration, 600);
    assert!(with.clipper.jobs_in_progress().is_empty());
    assert!(with.clipper.failures().is_empty());
}

#[test]
fn request_models_round_trip_their_fields() {
    let n = NewClipRequest {
        file_path: "/media/movie.mkv".to_string(),
    };
    assert_eq!(n.file_path, "/media/movie.mkv");
    let s = SearchRequest {
        search_string: "foo bar".to_string(),
    };
    assert_eq!(s.search_string, "foo bar");
    let d = DeleteClipRequest {
        clip_name: "scene".to_string(),
    };
    assert_eq!(d.clip_name, "scene");
    let f = FFProbeRequest {
        file_path: "/media/movie.mkv".to_string(),
    };
    assert_eq!(f.file_path, "/media/movie.mkv");
    let r = FFProbeResult::default();
    assert!(r.audio_tracks.is_empty() && r.sub_tracks.is_empty());
    let c = ConfigureClipRequest {
        source_file: "src".to_string(),
        clip_name: "clip".to_string(),
        audio_track: "1:x".to_string(),
        subtitle_track: String::new(),
        start_sec: "1".to_string(),
        start_min: "2".to_string(),
        start_hour: "3".to_string(),
        end_sec: "4".to_string(),
        end_min: "5".to_string(),
        end_hour: "6".to_string(),
        audio_only: false,
    };
    assert_eq!(c.clip_name, "clip");
}

#[test]
fn sorting_orders_and_keeps_every_string() {
    let sorted = sort_strings(strings(&["pear", "apple", "pear", "fig"]));
    assert_eq!(sorted, vec!["apple", "fig", "pear", "pear"]);
    assert!(sort_strings(Vec::new()).is_empty());
}

#[test]
fn substring_and_suffix_checks() {
    assert!(str_contains("foobar", "oba"));
    assert!(str_contains("foobar", ""));
    assert!(!str_contains("foobar", "baz"));
    assert!(str_ends_with("scene.mp4", "mp4"));
    assert!(!str_ends_with("scene.mp4", "mp3"));
    assert!(!str_ends_with("p4", "mp4"));
}

#[test]
fn decimal_rendering() {
    assert_eq!(u64_to_string(0), "0");
    assert_eq!(u64_to_string(7), "7");
    assert_eq!(u64_to_string(600), "600");
    assert_eq!(u64_to_string(18446744073709551615), "18446744073709551615");
}

#[test]
fn config_summary_reflects_search_availability() {
    let without = App::new(config(), Vec::new(), Vec::new());
    let summary = without.get_config();
    assert_eq!(summary.app_name, "Clipper");
    assert!(!summary.search_enabled);
    let with = App::new(config(), strings(&["/media"]), Vec::new());
    assert!(with.get_config().search_enabled);
}
