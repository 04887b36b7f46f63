//! Human-readable track descriptors for a probed source file. The
//! process glue runs the external prober and parses its output into
//! plain stream records; this module turns those records into the
//! selector strings the web tier offers.

use vstd::prelude::*;

use crate::numfmt::{dec_str, u64_to_string};
use crate::strutil::str_eq;

verus! {

/// One stream of a probed media file, as the prober reported it; absent
/// tags come through as empty strings.
#[derive(Debug, Clone)]
pub struct StreamInfo {
    pub codec_type: String,
    pub codec_name: String,
    pub index: u32,
    pub language: String,
    pub title: String,
}

/// The descriptor text for one track: its selector index, its title,
/// and its language and codec in parentheses.
pub open spec fn track_label(index: int, title: Seq<char>, lang: Seq<char>, codec: Seq<char>) -> Seq<
    char,
> {
    dec_str(index) + ":'"@ + title + "' ("@ + lang + " - "@ + codec + ")"@
}

/// Render one track descriptor.
fn format_track(index: u64, title: &str, lang: &str, codec: &str) -> (r: String)
    ensures
        r@ == track_label(index as int, title@, lang@, codec@),
{
    let mut s = u64_to_string(index);
    s.append(":'");
    s.append(title);
    s.append("' (");
    s.append(lang);
    s.append(" - ");
    s.append(codec);
    s.append(")");
    proof {
        assert(s@ =~= track_label(index as int, title@, lang@, codec@));
    }
    s
}

/// The descriptors of the audio streams, keyed by their stream index.
pub open spec fn audio_labels(streams: Seq<StreamInfo>) -> Seq<Seq<char>>
    decreases streams.len(),
{
    if streams.len() == 0 {
        Seq::empty()
    } else {
        let rest = audio_labels(streams.drop_last());
        let s = streams.last();
        if s.codec_type@ == "audio"@ {
            rest.push(track_label(s.index as int, s.title@, s.language@, s.codec_name@))
        } else {
            rest
        }
    }
}

/// The descriptors of the subtitle streams, keyed by their position in
/// the probed list; a leading empty descriptor stands for "no subtitles".
pub open spec fn subtitle_labels(streams: Seq<StreamInfo>) -> Seq<Seq<char>>
    decreases streams.len(),
{
    if streams.len() == 0 {
        Seq::empty()
    } else {
        let rest = subtitle_labels(streams.drop_last());
        let s = streams.last();
        if s.codec_type@ == "subtitle"@ {
            rest.push(
                track_label(streams.len() - 1, s.title@, s.language@, s.codec_name@),
            )
        } else {
            rest
        }
    }
}

/// Format the audio track descriptors of the probed streams.
pub fn list_audio_tracks(streams: &Vec<StreamInfo>) -> (r: Vec<String>)
    ensures
        r.deep_view() == audio_labels(streams@),
{
    let n = streams.len();
    let mut r: Vec<String> = Vec::new();
    proof {
        assert(streams@.take(0) =~= Seq::<StreamInfo>::empty());
        assert(r.deep_view() =~= audio_labels(streams@.take(0)));
    }
    for i in 0..n
        invariant
            n == streams@.len(),
            r.deep_view() == audio_labels(streams@.take(i as int)),
    {
        proof {
            assert(streams@.take(i + 1).drop_last() =~= streams@.take(i as int));
            assert(streams@.take(i + 1).last() == streams@[i as int]);
        }
        let ghost pre = r.deep_view();
        if str_eq(streams[i].codec_type.as_str(), "audio") {
            let s = &streams[i];
            let label = format_track(
                s.index as u64,
                s.title.as_str(),
                s.language.as_str(),
                s.codec_name.as_str(),
            );
            r.push(label);
            proof {
                assert(r.deep_view() =~= pre.push(
                    track_label(
                        streams@[i as int].index as int,
                        streams@[i as int].title@,
                        streams@[i as int].language@,
                        streams@[i as int].codec_name@,
                    ),
                ));
            }
        }
    }
    proof {
        assert(streams@.take(n as int) =~= streams@);
    }
    r
}

/// Format the subtitle track descriptors of the probed streams, after
/// the leading empty descriptor that stands for "no subtitles".
pub fn list_subtitle_tracks(streams: &Vec<StreamInfo>) -> (r: Vec<String>)
    ensures
        r.deep_view() == seq![Seq::<char>::empty()] + subtitle_labels(streams@),
{
    let n = streams.len();
    let mut r: Vec<String> = Vec::new();
    r.push(String::new());
    proof {
        assert(streams@.take(0) =~= Seq::<StreamInfo>::empty());
        assert(r.deep_view() =~= seq![Seq::<char>::empty()] + subtitle_labels(streams@.take(0)));
    }
    for i in 0..n
        invariant
            n == streams@.len(),
            r.deep_view() == seq![Seq::<char>::empty()] + subtitle_labels(streams@.take(i as int)),
    {
        proof {
            assert(streams@.take(i + 1).drop_last() =~= streams@.take(i as int));
            assert(streams@.take(i + 1).last() == streams@[i as int]);
        }
        let ghost pre = r.deep_view();
        if str_eq(streams[i].codec_type.as_str(), "subtitle") {
            let s = &streams[i];
            let label = format_track(
                i as u64,
                s.title.as_str(),
                s.language.as_str(),
                s.codec_name.as_str(),
            );
            r.push(label);
            proof {
                assert(streams@.take(i + 1).len() - 1 == i as int);
                assert(r.deep_view() =~= pre.push(
                    track_label(
                        i as int,
                        streams@[i as int].title@,
                        streams@[i as int].language@,
                        streams@[i as int].codec_name@,
                    ),
                ));
                assert(r.deep_view() =~= seq![Seq::<char>::empty()] + subtitle_labels(
                    streams@.take(i + 1),
                ));
            }
        }
    }
    proof {
        assert(streams@.take(n as int) =~= streams@);
    }
    r
}

/// The audio and subtitle descriptors of a probed source file, as the
/// track-selection form shows them.
pub fn get_track_data(audio_streams: &Vec<StreamInfo>, subtitle_streams: &Vec<StreamInfo>) -> (r: (
    Vec<String>,
    Vec<String>,
))
    ensures
        r.0.deep_view() == audio_labels(audio_streams@),
        r.1.deep_view() == seq![Seq::<char>::empty()] + subtitle_labels(subtitle_streams@),
{
    (list_audio_tracks(audio_streams), list_subtitle_tracks(subtitle_streams))
}

} // verus!
