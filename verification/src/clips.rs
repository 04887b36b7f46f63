//! The produced-clips library: descriptions of finished clip files found
//! in the output directory, with pending jobs filtered out. The process
//! glue reads the directory and hands the entries in as plain values.

use vstd::prelude::*;

use crate::strutil::{ends_with_seq, str_ends_with, vec_contains_str};

verus! {

/// One file of the output directory, as the directory reader saw it:
/// its name and its modification time in seconds since the epoch.
#[derive(Debug, Clone)]
pub struct FileEntry {
    pub name: String,
    pub modified: u64,
}

/// A finished clip, with the routes under which it is served.
#[derive(Debug, Clone)]
pub struct ClipInfo {
    pub clip_name: String,
    pub url: String,
    pub public_url: String,
    pub file_name: String,
    pub time: u64,
}

/// The full clips library: video clips and audio clips.
#[derive(Debug, Clone)]
pub struct ClipsLibrary {
    pub video: Vec<ClipInfo>,
    pub audio: Vec<ClipInfo>,
}

/// The fields a clip description derives from a file name, its
/// modification time and the public link prefix.
pub open spec fn is_clip_info_for(c: ClipInfo, name: Seq<char>, time: u64, prefix: Seq<char>) -> bool {
    &&& c.url@ == "/output/"@ + name
    &&& c.public_url@ == prefix + "/"@ + name
    &&& c.clip_name@ == name.subrange(0, name.len() - 4)
    &&& c.file_name@ == name
    &&& c.time == time
}

impl ClipInfo {
    /// Describe one produced clip file: the served routes are derived
    /// from the file name, and the clip name is the file name without
    /// its four-character extension suffix.
    pub fn new(file_name: String, time: u64, public_url_prefix: &str) -> (c: ClipInfo)
        requires
            file_name@.len() >= 4,
        ensures
            is_clip_info_for(c, file_name@, time, public_url_prefix@),
    {
        let n = file_name.unicode_len();
        let mut url = String::from_str("/output/");
        url.append(file_name.as_str());
        let mut public_url = String::from_str(public_url_prefix);
        public_url.append("/");
        public_url.append(file_name.as_str());
        let clip_name = String::from_str(file_name.as_str().substring_char(0, n - 4));
        ClipInfo { clip_name, url, public_url, file_name, time }
    }
}

/// The name/time pairs of a directory listing.
pub open spec fn entry_views(v: Seq<FileEntry>) -> Seq<(Seq<char>, u64)> {
    Seq::new(v.len(), |i: int| (v[i].name@, v[i].modified))
}

/// The entries that belong in the library for one extension: their name
/// ends with it and no pending job carries their name, in listing order.
pub open spec fn clips_view(
    entries: Seq<(Seq<char>, u64)>,
    pending: Seq<Seq<char>>,
    ext: Seq<char>,
) -> Seq<(Seq<char>, u64)>
    decreases entries.len(),
{
    if entries.len() == 0 {
        Seq::empty()
    } else {
        let rest = clips_view(entries.drop_last(), pending, ext);
        let e = entries.last();
        if ends_with_seq(e.0, ext) && !pending.contains(e.0) {
            rest.push(e)
        } else {
            rest
        }
    }
}

/// Describe every file of the listing whose name ends with `ext` and is
/// not a pending job, in listing order.
pub fn clips_in_directory_with_ext(
    entries: &Vec<FileEntry>,
    public_url_prefix: &str,
    pending: &Vec<String>,
    ext: &str,
) -> (r: Vec<ClipInfo>)
    requires
        forall|i: int|
            0 <= i < entries@.len() && ends_with_seq((#[trigger] entries@[i]).name@, ext@)
                ==> entries@[i].name@.len() >= 4,
    ensures
        ({
            let kept = clips_view(entry_views(entries@), pending.deep_view(), ext@);
            &&& r@.len() == kept.len()
            &&& forall|i: int|
                0 <= i < kept.len() ==> is_clip_info_for(
                    #[trigger] r@[i],
                    kept[i].0,
                    kept[i].1,
                    public_url_prefix@,
                )
        }),
{
    let ghost ev = entry_views(entries@);
    let ghost pd = pending.deep_view();
    let n = entries.len();
    let mut r: Vec<ClipInfo> = Vec::new();
    proof {
        assert(ev.take(0) =~= Seq::<(Seq<char>, u64)>::empty());
    }
    for i in 0..n
        invariant
            n == entries@.len(),
            ev == entry_views(entries@),
            pd == pending.deep_view(),
            forall|t: int|
                0 <= t < entries@.len() && ends_with_seq((#[trigger] entries@[t]).name@, ext@)
                    ==> entries@[t].name@.len() >= 4,
            r@.len() == clips_view(ev.take(i as int), pd, ext@).len(),
            forall|t: int|
                0 <= t < r@.len() ==> is_clip_info_for(
                    #[trigger] r@[t],
                    clips_view(ev.take(i as int), pd, ext@)[t].0,
                    clips_view(ev.take(i as int), pd, ext@)[t].1,
                    public_url_prefix@,
                ),
    {
        proof {
            assert(ev.take(i + 1).drop_last() =~= ev.take(i as int));
            assert(ev.take(i + 1).last() == ev[i as int]);
            assert(ev[i as int] == (entries@[i as int].name@, entries@[i as int].modified));
        }
        let keep = str_ends_with(entries[i].name.as_str(), ext) && !vec_contains_str(
            pending,
            entries[i].name.as_str(),
        );
        if keep {
            let c = ClipInfo::new(entries[i].name.clone(), entries[i].modified, public_url_prefix);
            r.push(c);
        }
    }
    proof {
        assert(ev.take(n as int) =~= ev);
    }
    r
}

/// The audio clips of a directory listing: the MP3 files that are not
/// pending jobs.
pub fn audio_clips_in_directory(
    entries: &Vec<FileEntry>,
    public_url_prefix: &str,
    pending: &Vec<String>,
) -> (r: Vec<ClipInfo>)
    requires
        forall|i: int|
            0 <= i < entries@.len() && ends_with_seq((#[trigger] entries@[i]).name@, "mp3"@)
                ==> entries@[i].name@.len() >= 4,
    ensures
        ({
            let kept = clips_view(entry_views(entries@), pending.deep_view(), "mp3"@);
            &&& r@.len() == kept.len()
            &&& forall|i: int|
                0 <= i < kept.len() ==> is_clip_info_for(
                    #[trigger] r@[i],
                    kept[i].0,
                    kept[i].1,
                    public_url_prefix@,
                )
        }),
{
    clips_in_directory_with_ext(entries, public_url_prefix, pending, "mp3")
}

/// The video clips of a directory listing: the MP4 files that are not
/// pending jobs.
pub fn video_clips_in_directory(
    entries: &Vec<FileEntry>,
    public_url_prefix: &str,
    pending: &Vec<String>,
) -> (r: Vec<ClipInfo>)
    requires
        forall|i: int|
            0 <= i < entries@.len() && ends_with_seq((#[trigger] entries@[i]).name@, "mp4"@)
                ==> entries@[i].name@.len() >= 4,
    ensures
        ({
            let kept = clips_view(entry_views(entries@), pending.deep_view(), "mp4"@);
            &&& r@.len() == kept.len()
            &&& forall|i: int|
                0 <= i < kept.len() ==> is_clip_info_for(
                    #[trigger] r@[i],
                    kept[i].0,
                    kept[i].1,
                    public_url_prefix@,
                )
        }),
{
    clips_in_directory_with_ext(entries, public_url_prefix, pending, "mp4")
}

} // verus!
