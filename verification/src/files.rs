//! Video descriptions laid out two to a row: the MP4 files of a
//! directory listing, stripped of their extension and paired up, the last
//! row padded with an empty description when the count is odd.

use vstd::prelude::*;

use crate::strutil::{ends_with_seq, str_ends_with};

verus! {

/// A video clip and the routes under which it is served.
#[derive(Debug, Clone)]
pub struct VideoInfo {
    pub clip_name: String,
    pub url: String,
    pub public_url: String,
}

/// The fields a video description derives from a clip name and the
/// public link prefix.
pub open spec fn is_video_info_for(v: VideoInfo, clip_name: Seq<char>, prefix: Seq<char>) -> bool {
    &&& v.clip_name@ == clip_name
    &&& v.url@ == "/output/"@ + clip_name + ".mp4"@
    &&& v.public_url@ == prefix + "/"@ + clip_name + ".mp4"@
}

/// A description with every field empty, padding an odd final row.
pub open spec fn is_empty_video_info(v: VideoInfo) -> bool {
    v.clip_name@.len() == 0 && v.url@.len() == 0 && v.public_url@.len() == 0
}

impl VideoInfo {
    /// Describe one video clip by its name.
    pub fn new(clip_name: String, public_url_prefix: &str) -> (v: VideoInfo)
        ensures
            is_video_info_for(v, clip_name@, public_url_prefix@),
    {
        let mut url = String::from_str("/output/");
        url.append(clip_name.as_str());
        url.append(".mp4");
        let mut public_url = String::from_str(public_url_prefix);
        public_url.append("/");
        public_url.append(clip_name.as_str());
        public_url.append(".mp4");
        VideoInfo { clip_name, url, public_url }
    }
}

impl Default for VideoInfo {
    /// The empty description.
    fn default() -> (v: VideoInfo)
        ensures
            is_empty_video_info(v),
    {
        VideoInfo { clip_name: String::new(), url: String::new(), public_url: String::new() }
    }
}

/// The clip names of a directory listing: the names ending in `.mp4`,
/// in listing order, with that suffix stripped.
pub open spec fn mp4_clip_names(names: Seq<Seq<char>>) -> Seq<Seq<char>>
    decreases names.len(),
{
    if names.len() == 0 {
        Seq::empty()
    } else {
        let rest = mp4_clip_names(names.drop_last());
        let n = names.last();
        if ends_with_seq(n, ".mp4"@) {
            rest.push(n.subrange(0, n.len() - 4))
        } else {
            rest
        }
    }
}

/// Pair up the MP4 clips of a directory listing, two to a row, padding
/// an odd last row with the empty description.
pub fn video_pairs_in_directory(file_names: &Vec<String>, public_url_prefix: &str) -> (r: Vec<
    (VideoInfo, VideoInfo),
>)
    ensures
        ({
            let clips = mp4_clip_names(file_names.deep_view());
            &&& r@.len() == (clips.len() + 1) / 2
            &&& forall|i: int|
                0 <= i < r@.len() ==> is_video_info_for(
                    (#[trigger] r@[i]).0,
                    clips[2 * i],
                    public_url_prefix@,
                )
            &&& forall|i: int|
                0 <= i < r@.len() && 2 * i + 1 < clips.len() ==> is_video_info_for(
                    (#[trigger] r@[i]).1,
                    clips[2 * i + 1],
                    public_url_prefix@,
                )
            &&& clips.len() % 2 == 1 ==> is_empty_video_info(r@[r@.len() - 1].1)
        }),
{
    let ghost fd = file_names.deep_view();
    let n = file_names.len();
    let mut clips: Vec<String> = Vec::new();
    proof {
        assert(fd.take(0) =~= Seq::<Seq<char>>::empty());
    }
    for i in 0..n
        invariant
            n == file_names@.len(),
            fd == file_names.deep_view(),
            clips.deep_view() == mp4_clip_names(fd.take(i as int)),
    {
        proof {
            assert(fd.take(i + 1).drop_last() =~= fd.take(i as int));
            assert(fd.take(i + 1).last() == fd[i as int]);
            assert(file_names@[i as int]@ == fd[i as int]);
        }
        let ghost pre = clips.deep_view();
        if str_ends_with(file_names[i].as_str(), ".mp4") {
            proof {
                reveal_strlit(".mp4");
            }
            let m = file_names[i].unicode_len();
            let stripped = String::from_str(file_names[i].as_str().substring_char(0, m - 4));
            clips.push(stripped);
            proof {
                assert(clips.deep_view() =~= pre.push(fd[i as int].subrange(0, fd[i as int].len() - 4)));
            }
        }
    }
    proof {
        assert(fd.take(n as int) =~= fd);
    }
    let k = clips.len();
    let rows = k / 2 + k % 2;
    let mut r: Vec<(VideoInfo, VideoInfo)> = Vec::new();
    for t in 0..rows
        invariant
            k == clips@.len(),
            clips.deep_view() == mp4_clip_names(fd),
            rows == k / 2 + k % 2,
            r@.len() == t,
            forall|u: int|
                0 <= u < r@.len() ==> is_video_info_for(
                    (#[trigger] r@[u]).0,
                    clips.deep_view()[2 * u],
                    public_url_prefix@,
                ),
            forall|u: int|
                0 <= u < r@.len() && 2 * u + 1 < k ==> is_video_info_for(
                    (#[trigger] r@[u]).1,
                    clips.deep_view()[2 * u + 1],
                    public_url_prefix@,
                ),
            forall|u: int|
                0 <= u < r@.len() && 2 * u + 1 >= k ==> is_empty_video_info((#[trigger] r@[u]).1),
    {
        proof {
            assert(clips@[2 * t as int]@ == clips.deep_view()[2 * t as int]);
        }
        let first = VideoInfo::new(clips[2 * t].clone(), public_url_prefix);
        let second = if 2 * t + 1 < k {
            proof {
                assert(clips@[2 * t + 1]@ == clips.deep_view()[2 * t + 1]);
            }
            VideoInfo::new(clips[2 * t + 1].clone(), public_url_prefix)
        } else {
            VideoInfo::default()
        };
        r.push((first, second));
    }
    r
}

} // verus!
