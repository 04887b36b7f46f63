//! Clip time points: an hours/minutes/seconds triple that normalizes
//! component overflow (75 seconds becomes 1 minute 15 seconds) while
//! preserving the total number of seconds.

use vstd::prelude::*;

use crate::error::ClipError;
use crate::numfmt::{dec_str, two_dec_str, u64_to_string, u8_to_two_digits};
use crate::strutil::{all_digits, dec_val, lemma_dec_val_prefix_le};

verus! {

/// A point in time inside a video, kept normalized: after construction
/// `minutes` and `seconds` are both below 60. The hour count is widened so
/// that normalization can never overflow.
#[derive(Debug, Clone, Copy)]
pub struct VideoTime {
    pub hours: u16,
    pub minutes: u8,
    pub seconds: u8,
}

impl VideoTime {
    /// A normalized time has both sub-hour components in range.
    pub open spec fn wf(self) -> bool {
        self.minutes < 60 && self.seconds < 60
    }

    /// The total number of seconds this time point stands for.
    pub open spec fn total_seconds(self) -> int {
        self.hours * 3600 + self.minutes * 60 + self.seconds
    }

    /// Build a normalized time from raw components: seconds overflow
    /// carries into minutes, then minutes overflow carries into hours.
    /// The total number of seconds is preserved exactly.
    pub fn new(hours: u8, minutes: u8, seconds: u8) -> (t: VideoTime)
        ensures
            t.wf(),
            t.total_seconds() == hours * 3600 + minutes * 60 + seconds,
    {
        let mut h: u16 = hours as u16;
        let mut m: u16 = minutes as u16;
        let mut s: u8 = seconds;
        if s >= 60 {
            m = m + (s / 60) as u16;
            s = s % 60;
        }
        if m >= 60 {
            h = h + m / 60;
            m = m % 60;
        }
        VideoTime { hours: h, minutes: m as u8, seconds: s }
    }

    /// The total number of seconds, as an executable value.
    pub fn seconds(&self) -> (total: u64)
        requires
            self.wf(),
        ensures
            total == self.total_seconds(),
    {
        self.hours as u64 * 3600 + self.minutes as u64 * 60 + self.seconds as u64
    }

    /// Build a normalized time from three textual fields, an empty field
    /// standing for zero.
    pub fn from_strings(hours: &str, minutes: &str, seconds: &str) -> (r: Result<
        VideoTime,
        ClipError,
    >)
        ensures
            r is Ok <==> parses_to_u8(hours@) && parses_to_u8(minutes@) && parses_to_u8(seconds@),
            r is Ok ==> r->Ok_0.wf() && r->Ok_0.total_seconds() == dec_val(hours@) * 3600 + dec_val(
                minutes@,
            ) * 60 + dec_val(seconds@),
            r is Err ==> r == Err::<VideoTime, ClipError>(ClipError::InvalidTimeNumber),
    {
        let h = str_to_u8(hours)?;
        let m = str_to_u8(minutes)?;
        let s = str_to_u8(seconds)?;
        Ok(VideoTime::new(h, m, s))
    }

    /// The `H:MM:SS` rendering handed to the transcoder.
    pub open spec fn time_code_view(self) -> Seq<char> {
        dec_str(self.hours as int) + seq![':'] + two_dec_str(self.minutes as int) + seq![':']
            + two_dec_str(self.seconds as int)
    }

    /// Render the time as `H:MM:SS`, minutes and seconds zero padded.
    pub fn time_code(&self) -> (r: String)
        requires
            self.wf(),
        ensures
            r@ == self.time_code_view(),
    {
        proof {
            reveal_strlit(":");
            assert(":"@ =~= seq![':']);
        }
        let mut s = u64_to_string(self.hours as u64);
        s.append(":");
        let mm = u8_to_two_digits(self.minutes);
        s.append(mm.as_str());
        s.append(":");
        let ss = u8_to_two_digits(self.seconds);
        s.append(ss.as_str());
        proof {
            assert(s@ =~= self.time_code_view());
        }
        s
    }
}

/// The field parses as a `u8`: it is empty (meaning zero) or it is all
/// digits and denotes a value that fits.
pub open spec fn parses_to_u8(s: Seq<char>) -> bool {
    s.len() == 0 || (all_digits(s) && dec_val(s) <= 255)
}

/// Parse one time field. An empty field counts as zero; anything other
/// than a number that fits an eight-bit value is rejected.
pub fn str_to_u8(s: &str) -> (r: Result<u8, ClipError>)
    ensures
        r is Ok <==> parses_to_u8(s@),
        r is Ok ==> r->Ok_0 as int == dec_val(s@),
        r is Err ==> r == Err::<u8, ClipError>(ClipError::InvalidTimeNumber),
{
    let n = s.unicode_len();
    if n == 0 {
        return Ok(0);
    }
    let mut acc: u32 = 0;
    for i in 0..n
        invariant
            n == s@.len(),
            all_digits(s@.subrange(0, i as int)),
            acc as int == dec_val(s@.subrange(0, i as int)),
            acc <= 255,
    {
        let c = s.get_char(i);
        let cv = c as u32;
        if cv < 48 || cv > 57 {
            return Err(ClipError::InvalidTimeNumber);
        }
        let d = cv - 48;
        let next = acc * 10 + d;
        proof {
            let p = s@.subrange(0, i as int);
            let q = s@.subrange(0, i + 1);
            assert(q.drop_last() =~= p);
            assert(q.last() == s@[i as int]);
            assert(dec_val(q) == next);
            assert(all_digits(q));
        }
        if next > 255 {
            proof {
                if all_digits(s@) && dec_val(s@) <= 255 {
                    lemma_dec_val_prefix_le(s@, i + 1);
                }
            }
            return Err(ClipError::InvalidTimeNumber);
        }
        acc = next;
    }
    proof {
        assert(s@.subrange(0, n as int) =~= s@);
    }
    Ok(acc as u8)
}

/// Total seconds denoted by three parsed time fields.
pub open spec fn fields_total(h: Seq<char>, m: Seq<char>, s: Seq<char>) -> int {
    dec_val(h) * 3600 + dec_val(m) * 60 + dec_val(s)
}

/// Validate a start/end pair of textual time fields against a maximum
/// clip duration. Succeeds exactly when every field parses, the start
/// lies strictly before the end, and the duration is within the bound;
/// the returned times are normalized and preserve the given totals.
pub fn validate_start_end(
    max_seconds: u64,
    start_hour: &str,
    start_min: &str,
    start_sec: &str,
    end_hour: &str,
    end_min: &str,
    end_sec: &str,
) -> (r: Result<(VideoTime, VideoTime), ClipError>)
    ensures
        ({
            let start_total = fields_total(start_hour@, start_min@, start_sec@);
            let end_total = fields_total(end_hour@, end_min@, end_sec@);
            let all_parse = parses_to_u8(start_hour@) && parses_to_u8(start_min@) && parses_to_u8(
                start_sec@,
            ) && parses_to_u8(end_hour@) && parses_to_u8(end_min@) && parses_to_u8(end_sec@);
            &&& (r is Ok <==> all_parse && end_total > start_total && end_total - start_total
                <= max_seconds)
            &&& (r is Ok ==> {
                &&& r->Ok_0.0.wf()
                &&& r->Ok_0.1.wf()
                &&& r->Ok_0.0.total_seconds() == start_total
                &&& r->Ok_0.1.total_seconds() == end_total
            })
            &&& (!all_parse ==> r == Err::<(VideoTime, VideoTime), ClipError>(
                ClipError::InvalidTimeNumber,
            ))
            &&& (all_parse && end_total <= start_total ==> r == Err::<
                (VideoTime, VideoTime),
                ClipError,
            >(ClipError::StartNotBeforeEnd))
            &&& (all_parse && end_total > start_total && end_total - start_total > max_seconds
                ==> r == Err::<(VideoTime, VideoTime), ClipError>(
                ClipError::DurationTooLong { max_seconds },
            ))
        }),
{
    let start_time = VideoTime::from_strings(start_hour, start_min, start_sec)?;
    let end_time = VideoTime::from_strings(end_hour, end_min, end_sec)?;

    let start_total = start_time.seconds();
    let end_total = end_time.seconds();
    if end_total <= start_total {
        return Err(ClipError::StartNotBeforeEnd);
    }
    if end_total - start_total > max_seconds {
        return Err(ClipError::DurationTooLong { max_seconds });
    }
    Ok((start_time, end_time))
}

} // verus!
