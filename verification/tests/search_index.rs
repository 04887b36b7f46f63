use media_clipper::error::ClipError;
use media_clipper::search::{extension_str, SearchEngine};

fn strings(items: &[&str]) -> Vec<String> {
    items.iter().map(|s| s.to_string()).collect()
}

fn fresh_engine(exts: &[&str]) -> SearchEngine {
    SearchEngine::new(strings(&["/media"]), strings(exts))
}

#[test]
fn refresh_is_single_flight() {
    let mut e = fresh_engine(&[]);
    assert!(!e.is_refreshing());
    // the first request claims the slot
    assert!(e.begin_refresh().is_ok());
    assert!(e.is_refreshing());
    // a second request while the first is in flight is refused
    assert!(matches!(e.begin_refresh(), Err(ClipError::RefreshInProgress)));
    // installing the result clears the flag
    e.finish_refresh(&strings(&["/media/a.mp4"]));
    assert!(!e.is_refreshing());
    // and the slot can be claimed again
    assert!(e.begin_refresh().is_ok());
}

#[test]
fn search_requires_every_term() {
    let mut e = fresh_engine(&[]);
    e.begin_refresh().unwrap();
    e.finish_refresh(&strings(&["/x/foobar.mp4", "/x/foo.mp4"]));
    let hits = e.search(&strings(&["foo", "bar"]));
    assert_eq!(hits, vec!["/x/foobar.mp4".to_string()]);
}

#[test]
fn search_is_case_insensitive() {
    let mut e = fresh_engine(&[]);
    e.begin_refresh().unwrap();
    e.finish_refresh(&strings(&["/x/FooBar.mp4"]));
    assert_eq!(
        e.search(&strings(&["FOO"])),
        vec!["/x/FooBar.mp4".to_string()]
    );
    assert_eq!(
        e.search(&strings(&["foobar"])),
        vec!["/x/FooBar.mp4".to_string()]
    );
}

#[test]
fn search_results_are_sorted() {
    let mut e = fresh_engine(&[]);
    e.begin_refresh().unwrap();
    e.finish_refresh(&strings(&["/x/c.mp4", "/x/a.mp4", "/x/b.mp4"]));
    assert_eq!(
        e.search(&strings(&["mp4"])),
        vec![
            "/x/a.mp4".to_string(),
            "/x/b.mp4".to_string(),
            "/x/c.mp4".to_string()
        ]
    );
}

#[test]
fn empty_terms_return_nothing() {
    let mut e = fresh_engine(&[]);
    e.begin_refresh().unwrap();
    e.finish_refresh(&strings(&["/x/a.mp4"]));
    assert!(e.search(&strings(&[])).is_empty());
}

#[test]
fn unmatched_terms_return_nothing() {
    let mut e = fresh_engine(&[]);
    e.begin_refresh().unwrap();
    e.finish_refresh(&strings(&["/x/a.mp4"]));
    assert!(e.search(&strings(&["zebra"])).is_empty());
}

#[test]
fn refresh_filters_by_extension() {
    let mut e = fresh_engine(&["mkv", "mp4"]);
    e.begin_refresh().unwrap();
    e.finish_refresh(&strings(&[
        "/x/movie.mkv",
        "/x/notes.txt",
        "/x/clip.mp4",
        "/x/README",
    ]));
    assert_eq!(
        e.search(&strings(&["x"])),
        vec!["/x/clip.mp4".to_string(), "/x/movie.mkv".to_string()]
    );
}

#[test]
fn empty_extension_set_allows_every_file() {
    let mut e = fresh_engine(&[]);
    e.begin_refresh().unwrap();
    e.finish_refresh(&strings(&["/x/notes.txt", "/x/README"]));
    assert_eq!(
        e.search(&strings(&["x"])),
        vec!["/x/README".to_string(), "/x/notes.txt".to_string()]
    );
}

#[test]
fn refresh_replaces_the_whole_index() {
    let mut e = fresh_engine(&[]);
    e.begin_refresh().unwrap();
    e.finish_refresh(&strings(&["/x/old.mp4"]));
    e.begin_refresh().unwrap();
    e.finish_refresh(&strings(&["/x/new.mp4"]));
    assert!(e.search(&strings(&["old"])).is_empty());
    assert_eq!(e.search(&strings(&["new"])), vec!["/x/new.mp4".to_string()]);
}

#[test]
fn later_file_wins_on_equal_lowered_path() {
    let mut e = fresh_engine(&[]);
    e.begin_refresh().unwrap();
    e.finish_refresh(&strings(&["/x/Clip.mp4", "/x/CLIP.mp4"]));
    // both lower-case to the same key; the index keeps the later path
    assert_eq!(e.search(&strings(&["clip"])), vec!["/x/CLIP.mp4".to_string()]);
}

#[test]
fn extension_extraction() {
    assert_eq!(extension_str("/a/b/movie.mkv"), "mkv");
    assert_eq!(extension_str("movie.tar.gz"), "gz");
    assert_eq!(extension_str("/a/b/README"), "");
    assert_eq!(extension_str("/a/b/.hidden"), "");
    assert_eq!(extension_str("/a.b/file"), "");
    assert_eq!(extension_str("trailing."), "");
}
