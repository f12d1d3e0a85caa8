//! The summary of a report: one line for each video track and one for each
//! audio track, or a line that says that there is none.

use crate::aspect::{canonical_ratio, convert_display_aspect_ratio};
use crate::bitrate::{bitrate_text, format_bitrate};
use crate::codec::{deleted_markers, remove_prefixes};
use crate::track::{
    field_text, is_kind, listed_tracks, models_of, tracks_of_kind, RawReport, RawTrack,
    ReportModel, TrackKind, TrackModel, ASPECT_FIELD, BIT_RATE_FIELD, CHANNELS_FIELD,
    CODEC_FIELD, FRAME_RATE_FIELD, HEIGHT_FIELD, SAMPLING_RATE_FIELD, WIDTH_FIELD,
};
use vstd::prelude::*;

verus! {

/// The line that stands for the video tracks where a report has none.
pub const NO_VIDEO: &'static str = "No video track found";

/// The line that stands for the audio tracks where a report has none.
pub const NO_AUDIO: &'static str = "No audio track found";

/// The line of a video track: codec, picture size, aspect ratio, frame rate
/// and bit rate.
pub open spec fn video_line_text(track: TrackModel) -> Seq<char> {
    deleted_markers(field_text(track, CODEC_FIELD@)) + ", "@ + field_text(track, WIDTH_FIELD@)
        + "x"@ + field_text(track, HEIGHT_FIELD@) + "p, "@ + canonical_ratio(
        field_text(track, ASPECT_FIELD@),
    ) + ", "@ + field_text(track, FRAME_RATE_FIELD@) + " FPS, "@ + bitrate_text(
        field_text(track, BIT_RATE_FIELD@),
    )
}

/// The line of an audio track: codec, sampling rate, channels and bit rate.
pub open spec fn audio_line_text(track: TrackModel) -> Seq<char> {
    deleted_markers(field_text(track, CODEC_FIELD@)) + ", "@ + field_text(
        track,
        SAMPLING_RATE_FIELD@,
    ) + " kHz, "@ + field_text(track, CHANNELS_FIELD@) + " ch, "@ + bitrate_text(
        field_text(track, BIT_RATE_FIELD@),
    )
}

/// The line of a track of the given kind.
pub open spec fn line_text(kind: TrackKind) -> spec_fn(TrackModel) -> Seq<char> {
    |track: TrackModel|
        match kind {
            TrackKind::Video => video_line_text(track),
            TrackKind::Audio => audio_line_text(track),
        }
}

/// The line that says that a report has no track of the given kind.
pub open spec fn sentinel_text(kind: TrackKind) -> Seq<char> {
    match kind {
        TrackKind::Video => NO_VIDEO@,
        TrackKind::Audio => NO_AUDIO@,
    }
}

/// The lines that a report gets for one kind of track: a line for each such
/// track in the order of the report, or the sentinel alone.
pub open spec fn lines_of_kind(report: ReportModel, kind: TrackKind) -> Seq<Seq<char>> {
    let tracks = tracks_of_kind(report, kind);
    if tracks.len() == 0 {
        seq![sentinel_text(kind)]
    } else {
        tracks.map_values(line_text(kind))
    }
}

/// The characters of each of some strings.
pub open spec fn texts_of(lines: Seq<String>) -> Seq<Seq<char>> {
    lines.map_values(|line: String| line@)
}

/// Some lines written one after the other, each followed by a line feed.
pub open spec fn lines_text(lines: Seq<Seq<char>>) -> Seq<char>
    decreases lines.len(),
{
    if lines.len() == 0 {
        Seq::empty()
    } else {
        lines_text(lines.drop_last()) + lines.last() + seq!['\n']
    }
}

/// What a summary stands for: its two lists of lines.
pub struct SummaryModel {
    pub video_lines: Seq<Seq<char>>,
    pub audio_lines: Seq<Seq<char>>,
}

/// The summary of a report. Neither list is ever empty.
#[derive(Debug, PartialEq, Eq)]
pub struct MediaSummary {
    video_lines: Vec<String>,
    audio_lines: Vec<String>,
}

impl View for MediaSummary {
    type V = SummaryModel;

    closed spec fn view(&self) -> SummaryModel {
        SummaryModel {
            video_lines: texts_of(self.video_lines@),
            audio_lines: texts_of(self.audio_lines@),
        }
    }
}

/// Copies some lines.
fn copy_lines(lines: &Vec<String>) -> (copies: Vec<String>)
    ensures
        texts_of(copies@) == texts_of(lines@),
        copies@.len() == lines@.len(),
{
    let mut copies: Vec<String> = Vec::new();
    let mut i: usize = 0;
    while i < lines.len()
        invariant
            i <= lines.len(),
            copies@.len() == i,
            texts_of(copies@) == texts_of(lines@).take(i as int),
        decreases lines.len() - i,
    {
        let ghost before = copies@;
        let copy = lines[i].clone();
        copies.push(copy);
        proof {
            assert(texts_of(copies@) =~= texts_of(before).push(copy@));
            assert(texts_of(lines@).take(i + 1) =~= texts_of(lines@).take(i as int).push(
                lines@[i as int]@,
            ));
        }
        i = i + 1;
    }
    proof {
        assert(texts_of(lines@).take(i as int) =~= texts_of(lines@));
    }
    copies
}

impl Clone for MediaSummary {
    /// A copy with the same lines.
    fn clone(&self) -> (copy: MediaSummary)
        ensures
            copy@ == self@,
    {
        proof {
            use_type_invariant(self);
        }
        MediaSummary {
            video_lines: copy_lines(&self.video_lines),
            audio_lines: copy_lines(&self.audio_lines),
        }
    }
}

impl MediaSummary {
    #[verifier::type_invariant]
    spec fn both_lists_hold_a_line(self) -> bool {
        self.video_lines@.len() >= 1 && self.audio_lines@.len() >= 1
    }

    /// The lines of the video tracks.
    pub fn video_lines(&self) -> (lines: &Vec<String>)
        ensures
            texts_of(lines@) == self@.video_lines,
            lines@.len() >= 1,
    {
        proof {
            use_type_invariant(self);
        }
        &self.video_lines
    }

    /// The lines of the audio tracks.
    pub fn audio_lines(&self) -> (lines: &Vec<String>)
        ensures
            texts_of(lines@) == self@.audio_lines,
            lines@.len() >= 1,
    {
        proof {
            use_type_invariant(self);
        }
        &self.audio_lines
    }

    /// The two lists of lines, video first.
    pub fn into_lines(self) -> (lines: (Vec<String>, Vec<String>))
        ensures
            texts_of(lines.0@) == self@.video_lines,
            texts_of(lines.1@) == self@.audio_lines,
            lines.0@.len() >= 1,
            lines.1@.len() >= 1,
    {
        proof {
            use_type_invariant(&self);
        }
        (self.video_lines, self.audio_lines)
    }

    /// The summary as one text: the video lines, then the audio lines, each
    /// followed by a line feed.
    pub fn to_text(&self) -> (text: String)
        ensures
            text@ == lines_text(self@.video_lines + self@.audio_lines),
    {
        lines_to_text(&self.video_lines, &self.audio_lines)
    }
}

/// Writes some video lines and then some audio lines into one text, each
/// line followed by a line feed.
pub fn lines_to_text(video_lines: &Vec<String>, audio_lines: &Vec<String>) -> (text: String)
    ensures
        text@ == lines_text(texts_of(video_lines@) + texts_of(audio_lines@)),
{
    let ghost video = texts_of(video_lines@);
    let ghost audio = texts_of(audio_lines@);
    let mut text = String::new();
    proof {
        assert(video.take(0) =~= Seq::<Seq<char>>::empty());
        reveal_strlit("\n");
        assert("\n"@ =~= seq!['\n']);
    }
    let mut i: usize = 0;
    while i < video_lines.len()
        invariant
            i <= video_lines.len(),
            video == texts_of(video_lines@),
            "\n"@ == seq!['\n'],
            text@ == lines_text(video.take(i as int)),
        decreases video_lines.len() - i,
    {
        proof {
            assert(video.take(i + 1).drop_last() =~= video.take(i as int));
        }
        text.append(video_lines[i].as_str());
        text.append("\n");
        i = i + 1;
    }
    proof {
        assert(video.take(i as int) =~= video);
        assert(video + audio.take(0) =~= video);
    }
    let mut k: usize = 0;
    while k < audio_lines.len()
        invariant
            k <= audio_lines.len(),
            audio == texts_of(audio_lines@),
            "\n"@ == seq!['\n'],
            text@ == lines_text(video + audio.take(k as int)),
        decreases audio_lines.len() - k,
    {
        proof {
            assert((video + audio.take(k + 1)).drop_last() =~= video + audio.take(k as int));
        }
        text.append(audio_lines[k].as_str());
        text.append("\n");
        k = k + 1;
    }
    proof {
        assert(audio.take(k as int) =~= audio);
    }
    text
}

/// A report that lists no track, or has no list at all, gets the sentinel of
/// each kind and nothing else.
pub proof fn report_without_tracks_gets_the_sentinels(report: ReportModel, kind: TrackKind)
    requires
        listed_tracks(report).len() == 0,
    ensures
        lines_of_kind(report, kind) == seq![sentinel_text(kind)],
{
    listed_tracks(report).lemma_filter_len(is_kind(kind));
}

/// Whatever a report holds, each kind gets at least one line.
pub proof fn every_kind_gets_a_line(report: ReportModel, kind: TrackKind)
    ensures
        lines_of_kind(report, kind).len() >= 1,
{
}

/// Writes the line of a video track:
/// `<codec>, <width>x<height>p, <aspect>, <frame rate> FPS, <bit rate>`.
pub fn video_line(track: &RawTrack) -> (line: String)
    ensures
        line@ == video_line_text(track@),
{
    let mut line = remove_prefixes(track.field(CODEC_FIELD));
    line.append(", ");
    line.append(track.field(WIDTH_FIELD));
    line.append("x");
    line.append(track.field(HEIGHT_FIELD));
    line.append("p, ");
    let ratio = convert_display_aspect_ratio(track.field(ASPECT_FIELD));
    line.append(ratio.as_str());
    line.append(", ");
    line.append(track.field(FRAME_RATE_FIELD));
    line.append(" FPS, ");
    let rate = format_bitrate(track.field(BIT_RATE_FIELD));
    line.append(rate.as_str());
    line
}

/// Writes the line of an audio track:
/// `<codec>, <sampling rate> kHz, <channels> ch, <bit rate>`.
pub fn audio_line(track: &RawTrack) -> (line: String)
    ensures
        line@ == audio_line_text(track@),
{
    let mut line = remove_prefixes(track.field(CODEC_FIELD));
    line.append(", ");
    line.append(track.field(SAMPLING_RATE_FIELD));
    line.append(" kHz, ");
    line.append(track.field(CHANNELS_FIELD));
    line.append(" ch, ");
    let rate = format_bitrate(track.field(BIT_RATE_FIELD));
    line.append(rate.as_str());
    line
}

/// Writes the line of a track that is taken to be of the given kind.
pub fn summary_line(track: &RawTrack, kind: TrackKind) -> (line: String)
    ensures
        line@ == line_text(kind)(track@),
{
    match kind {
        TrackKind::Video => video_line(track),
        TrackKind::Audio => audio_line(track),
    }
}

/// Writes the lines of some tracks of one kind, or the sentinel where there
/// is no track.
fn lines_for(tracks: &Vec<&RawTrack>, kind: TrackKind) -> (lines: Vec<String>)
    ensures
        lines@.len() >= 1,
        texts_of(lines@) == if tracks@.len() == 0 {
            seq![sentinel_text(kind)]
        } else {
            models_of(tracks@).map_values(line_text(kind))
        },
{
    let mut lines: Vec<String> = Vec::new();
    let mut i: usize = 0;
    while i < tracks.len()
        invariant
            i <= tracks.len(),
            lines@.len() == i,
            texts_of(lines@) == models_of(tracks@).take(i as int).map_values(line_text(kind)),
        decreases tracks.len() - i,
    {
        let ghost before = lines@;
        let line = summary_line(tracks[i], kind);
        lines.push(line);
        proof {
            let models = models_of(tracks@);
            assert(models.take(i + 1) =~= models.take(i as int).push(models[i as int]));
            assert(texts_of(lines@) =~= texts_of(before).push(line@));
            assert(models.take(i + 1).map_values(line_text(kind)) =~= models.take(
                i as int,
            ).map_values(line_text(kind)).push(line_text(kind)(models[i as int])));
        }
        i = i + 1;
    }
    proof {
        assert(models_of(tracks@).take(i as int) =~= models_of(tracks@));
    }
    if lines.len() == 0 {
        let sentinel = match kind {
            TrackKind::Video => NO_VIDEO,
            TrackKind::Audio => NO_AUDIO,
        };
        lines.push(sentinel.to_owned());
        assert(texts_of(lines@) =~= seq![sentinel_text(kind)]);
    }
    lines
}

/// Summarizes a report: sorts its tracks by kind, writes a line for each
/// video track and each audio track, and puts a sentinel line where a kind
/// has no track. A report without a list of tracks gets the two sentinels.
pub fn summarize(report: &RawReport) -> (summary: MediaSummary)
    ensures
        summary@.video_lines == lines_of_kind(report@, TrackKind::Video),
        summary@.audio_lines == lines_of_kind(report@, TrackKind::Audio),
        summary@.video_lines.len() >= 1,
        summary@.audio_lines.len() >= 1,
{
    let (video, audio) = report.classify();
    let video_lines = lines_for(&video, TrackKind::Video);
    let audio_lines = lines_for(&audio, TrackKind::Audio);
    MediaSummary { video_lines, audio_lines }
}

} // verus!
