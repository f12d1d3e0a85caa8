//! The raw report of a probe: a list of tracks, each a loose mapping from
//! field names to values, and how fields and track kinds are read from it.

use crate::text::str_eq;
use vstd::prelude::*;

verus! {

/// What stands for a field that is absent or does not hold a text.
pub const PLACEHOLDER: &'static str = "N/A";

/// The field that tells the kind of a track.
pub const KIND_FIELD: &'static str = "@type";

/// The value of `KIND_FIELD` in a video track.
pub const VIDEO_KIND: &'static str = "Video";

/// The value of `KIND_FIELD` in an audio track.
pub const AUDIO_KIND: &'static str = "Audio";

/// The field that holds the codec identifier.
pub const CODEC_FIELD: &'static str = "CodecID";

/// The field that holds the width of the picture.
pub const WIDTH_FIELD: &'static str = "Width";

/// The field that holds the height of the picture.
pub const HEIGHT_FIELD: &'static str = "Height";

/// The field that holds the aspect ratio of the picture.
pub const ASPECT_FIELD: &'static str = "DisplayAspectRatio";

/// The field that holds the frame rate.
pub const FRAME_RATE_FIELD: &'static str = "FrameRate";

/// The field that holds the bit rate.
pub const BIT_RATE_FIELD: &'static str = "BitRate";

/// The field that holds the sampling rate.
pub const SAMPLING_RATE_FIELD: &'static str = "SamplingRate";

/// The field that holds the number of channels.
pub const CHANNELS_FIELD: &'static str = "Channels";

/// The value of a field as a probe wrote it.
#[derive(Debug, PartialEq, Eq)]
pub enum RawValue {
    /// A text.
    Text(String),
    /// Anything else: a number, a truth value, a list, a nested mapping.
    Other,
}

/// What a `RawValue` stands for.
pub enum FieldValue {
    Text(Seq<char>),
    Other,
}

impl View for RawValue {
    type V = FieldValue;

    open spec fn view(&self) -> FieldValue {
        match self {
            RawValue::Text(text) => FieldValue::Text(text@),
            RawValue::Other => FieldValue::Other,
        }
    }
}

impl Clone for RawValue {
    /// A copy that stands for the same value.
    fn clone(&self) -> (copy: RawValue)
        ensures
            copy@ == self@,
    {
        match self {
            RawValue::Text(text) => RawValue::Text(text.clone()),
            RawValue::Other => RawValue::Other,
        }
    }
}

/// What a track stands for: its fields by name.
pub type TrackModel = Map<Seq<char>, FieldValue>;

/// What a report stands for: its tracks in order, or `None` where it has no
/// list of tracks.
pub type ReportModel = Option<Seq<TrackModel>>;

/// The fields that a list of entries defines: of two entries with one name
/// the later one counts.
pub open spec fn fields_of(entries: Seq<(String, RawValue)>) -> TrackModel
    decreases entries.len(),
{
    if entries.len() == 0 {
        Map::empty()
    } else {
        fields_of(entries.drop_last()).insert(entries.last().0@, entries.last().1@)
    }
}

/// The text of a field: its value where the track has the field and the
/// value is a text, the placeholder in every other case.
pub open spec fn field_text(track: TrackModel, name: Seq<char>) -> Seq<char> {
    if track.contains_key(name) {
        match track[name] {
            FieldValue::Text(text) => text,
            FieldValue::Other => PLACEHOLDER@,
        }
    } else {
        PLACEHOLDER@
    }
}

/// The two kinds of track that are summarized.
#[derive(Clone, Copy, PartialEq, Eq, Debug, Structural)]
pub enum TrackKind {
    Video,
    Audio,
}

/// The kind of a track: what its kind field says. A track without that
/// field, or with another value in it, has no kind.
pub open spec fn kind_of(track: TrackModel) -> Option<TrackKind> {
    if field_text(track, KIND_FIELD@) == VIDEO_KIND@ {
        Some(TrackKind::Video)
    } else if field_text(track, KIND_FIELD@) == AUDIO_KIND@ {
        Some(TrackKind::Audio)
    } else {
        None
    }
}

/// The test that picks the tracks of one kind.
pub open spec fn is_kind(kind: TrackKind) -> spec_fn(TrackModel) -> bool {
    |track: TrackModel| kind_of(track) == Some(kind)
}

/// The tracks that a report lists; none where it has no list.
pub open spec fn listed_tracks(report: ReportModel) -> Seq<TrackModel> {
    match report {
        Some(tracks) => tracks,
        None => Seq::empty(),
    }
}

/// The tracks of one kind, in the order of the report.
pub open spec fn tracks_of_kind(report: ReportModel, kind: TrackKind) -> Seq<TrackModel> {
    listed_tracks(report).filter(is_kind(kind))
}

/// Where there is no track, there is none of any kind.
proof fn lemma_nothing_to_sort(kind: TrackKind)
    ensures
        Seq::<TrackModel>::empty().filter(is_kind(kind)) == Seq::<TrackModel>::empty(),
{
    Seq::<TrackModel>::empty().lemma_filter_len(is_kind(kind));
    assert(Seq::<TrackModel>::empty().filter(is_kind(kind)) =~= Seq::<TrackModel>::empty());
}

/// Every track in the list of a kind is of that kind.
pub proof fn sorted_tracks_have_their_kind(report: ReportModel, kind: TrackKind, at: int)
    requires
        0 <= at < tracks_of_kind(report, kind).len(),
    ensures
        kind_of(tracks_of_kind(report, kind)[at]) == Some(kind),
{
    listed_tracks(report).lemma_filter_pred(is_kind(kind), at);
}

/// What a list of borrowed tracks stands for.
pub open spec fn models_of(tracks: Seq<&RawTrack>) -> Seq<TrackModel> {
    tracks.map_values(|track: &RawTrack| track@)
}

/// One entry of a probe's track list.
#[derive(Debug)]
pub struct RawTrack {
    entries: Vec<(String, RawValue)>,
}

impl View for RawTrack {
    type V = TrackModel;

    closed spec fn view(&self) -> TrackModel {
        fields_of(self.entries@)
    }
}

/// An entry whose name no later entry repeats gives the field its value.
proof fn lemma_last_entry_counts(entries: Seq<(String, RawValue)>, name: Seq<char>, at: int)
    requires
        0 <= at < entries.len(),
        entries[at].0@ == name,
        forall|k: int| at < k < entries.len() ==> (#[trigger] entries[k]).0@ != name,
    ensures
        fields_of(entries).contains_key(name),
        fields_of(entries)[name] == entries[at].1@,
    decreases entries.len(),
{
    if at < entries.len() - 1 {
        let rest = entries.drop_last();
        assert(entries[entries.len() - 1].0@ != name);
        assert forall|k: int| at < k < rest.len() implies (#[trigger] rest[k]).0@ != name by {
            assert(rest[k] == entries[k]);
        }
        lemma_last_entry_counts(rest, name, at);
    }
}

/// A name that no entry carries is the name of no field.
proof fn lemma_no_entry_no_field(entries: Seq<(String, RawValue)>, name: Seq<char>)
    requires
        forall|k: int| 0 <= k < entries.len() ==> (#[trigger] entries[k]).0@ != name,
    ensures
        !fields_of(entries).contains_key(name),
    decreases entries.len(),
{
    if entries.len() > 0 {
        let rest = entries.drop_last();
        assert(entries[entries.len() - 1].0@ != name);
        assert forall|k: int| 0 <= k < rest.len() implies (#[trigger] rest[k]).0@ != name by {
            assert(rest[k] == entries[k]);
        }
        lemma_no_entry_no_field(rest, name);
    }
}

impl Clone for RawTrack {
    /// A copy with the same fields.
    fn clone(&self) -> (copy: RawTrack)
        ensures
            copy@ == self@,
    {
        let mut entries: Vec<(String, RawValue)> = Vec::new();
        let mut i: usize = 0;
        while i < self.entries.len()
            invariant
                i <= self.entries.len(),
                fields_of(entries@) == fields_of(self.entries@.take(i as int)),
            decreases self.entries.len() - i,
        {
            let ghost before = entries@;
            let name = self.entries[i].0.clone();
            let value = self.entries[i].1.clone();
            entries.push((name, value));
            proof {
                assert(entries@.drop_last() =~= before);
                assert(self.entries@.take(i + 1).drop_last() =~= self.entries@.take(i as int));
            }
            i = i + 1;
        }
        proof {
            assert(self.entries@.take(i as int) =~= self.entries@);
        }
        RawTrack { entries }
    }
}

impl RawTrack {
    /// A track without fields.
    pub fn new() -> (track: RawTrack)
        ensures
            track@ == Map::<Seq<char>, FieldValue>::empty(),
    {
        RawTrack { entries: Vec::new() }
    }

    /// Gives the field `name` the value `value`, whatever it held before.
    pub fn set(&mut self, name: &str, value: RawValue)
        ensures
            final(self)@ == old(self)@.insert(name@, value@),
    {
        let ghost before = self.entries@;
        self.entries.push((name.to_owned(), value));
        assert(self.entries@.drop_last() =~= before);
    }

    /// Gives the field `name` the text `text`.
    pub fn set_text(&mut self, name: &str, text: &str)
        ensures
            final(self)@ == old(self)@.insert(name@, FieldValue::Text(text@)),
    {
        self.set(name, RawValue::Text(text.to_owned()));
    }

    /// The value of the field `name`, where the track has such a field.
    pub fn get(&self, name: &str) -> (value: Option<&RawValue>)
        ensures
            match value {
                Some(found) => self@.contains_key(name@) && self@[name@] == found@,
                None => !self@.contains_key(name@),
            },
    {
        let mut i = self.entries.len();
        while i > 0
            invariant
                i <= self.entries.len(),
                forall|k: int| i <= k < self.entries.len() ==> (#[trigger] self.entries@[k]).0@ != name@,
            decreases i,
        {
            i = i - 1;
            if str_eq(self.entries[i].0.as_str(), name) {
                proof {
                    lemma_last_entry_counts(self.entries@, name@, i as int);
                }
                return Some(&self.entries[i].1);
            }
        }
        proof {
            lemma_no_entry_no_field(self.entries@, name@);
        }
        None
    }

    /// The text of the field `name`, or the placeholder where the track has
    /// no such field or the field holds no text.
    pub fn field<'a>(&'a self, name: &str) -> (text: &'a str)
        ensures
            text@ == field_text(self@, name@),
    {
        match self.get(name) {
            Some(RawValue::Text(text)) => text.as_str(),
            _ => PLACEHOLDER,
        }
    }

    /// The kind of the track.
    pub fn kind(&self) -> (kind: Option<TrackKind>)
        ensures
            kind == kind_of(self@),
    {
        let name = self.field(KIND_FIELD);
        if str_eq(name, VIDEO_KIND) {
            Some(TrackKind::Video)
        } else if str_eq(name, AUDIO_KIND) {
            Some(TrackKind::Audio)
        } else {
            None
        }
    }
}

/// What a list of tracks stands for.
pub open spec fn track_models(tracks: Seq<RawTrack>) -> Seq<TrackModel> {
    tracks.map_values(|track: RawTrack| track@)
}

/// The report of a probe, as far as the summary reads it.
#[derive(Debug)]
pub struct RawReport {
    tracks: Option<Vec<RawTrack>>,
}

impl View for RawReport {
    type V = ReportModel;

    closed spec fn view(&self) -> ReportModel {
        match self.tracks {
            Some(tracks) => Some(track_models(tracks@)),
            None => None,
        }
    }
}

impl Clone for RawReport {
    /// A copy with the same tracks.
    fn clone(&self) -> (copy: RawReport)
        ensures
            copy@ == self@,
    {
        match &self.tracks {
            None => RawReport { tracks: None },
            Some(tracks) => {
                let mut copies: Vec<RawTrack> = Vec::new();
                let mut i: usize = 0;
                while i < tracks.len()
                    invariant
                        i <= tracks.len(),
                        track_models(copies@) == track_models(tracks@).take(i as int),
                    decreases tracks.len() - i,
                {
                    let ghost before = copies@;
                    let copy = tracks[i].clone();
                    copies.push(copy);
                    proof {
                        assert(track_models(copies@) =~= track_models(before).push(copy@));
                        assert(track_models(tracks@).take(i + 1) =~= track_models(tracks@).take(
                            i as int,
                        ).push(tracks@[i as int]@));
                    }
                    i = i + 1;
                }
                proof {
                    assert(track_models(tracks@).take(i as int) =~= track_models(tracks@));
                }
                RawReport { tracks: Some(copies) }
            },
        }
    }
}

impl RawReport {
    /// A report without a list of tracks: the list is missing, or what
    /// stands in its place is no list.
    pub fn without_tracks() -> (report: RawReport)
        ensures
            report@ is None,
    {
        RawReport { tracks: None }
    }

    /// A report with the given tracks.
    pub fn with_tracks(tracks: Vec<RawTrack>) -> (report: RawReport)
        ensures
            report@ == Some(track_models(tracks@)),
    {
        RawReport { tracks: Some(tracks) }
    }

    /// Sorts the tracks into video tracks and audio tracks. Each list keeps
    /// the order of the report; a track of neither kind is in neither list.
    pub fn classify<'a>(&'a self) -> (sorted: (Vec<&'a RawTrack>, Vec<&'a RawTrack>))
        ensures
            models_of(sorted.0@) == tracks_of_kind(self@, TrackKind::Video),
            models_of(sorted.1@) == tracks_of_kind(self@, TrackKind::Audio),
    {
        let mut video: Vec<&'a RawTrack> = Vec::new();
        let mut audio: Vec<&'a RawTrack> = Vec::new();
        proof {
            lemma_nothing_to_sort(TrackKind::Video);
            lemma_nothing_to_sort(TrackKind::Audio);
            assert(models_of(video@) =~= Seq::<TrackModel>::empty());
            assert(models_of(audio@) =~= Seq::<TrackModel>::empty());
        }
        if let Some(tracks) = &self.tracks {
            let ghost all = track_models(tracks@);
            proof {
                assert(all.take(0) =~= Seq::<TrackModel>::empty());
            }
            let mut i: usize = 0;
            while i < tracks.len()
                invariant
                    i <= tracks.len(),
                    all == track_models(tracks@),
                    models_of(video@) == all.take(i as int).filter(is_kind(TrackKind::Video)),
                    models_of(audio@) == all.take(i as int).filter(is_kind(TrackKind::Audio)),
                decreases tracks.len() - i,
            {
                let track = &tracks[i];
                let ghost seen = all.take(i as int);
                let ghost video_before = video@;
                let ghost audio_before = audio@;
                proof {
                    assert(all.take(i + 1) =~= seen.push(track@));
                    seen.lemma_filter_push(track@, is_kind(TrackKind::Video));
                    seen.lemma_filter_push(track@, is_kind(TrackKind::Audio));
                }
                match track.kind() {
                    Some(TrackKind::Video) => {
                        video.push(track);
                        assert(models_of(video@) =~= models_of(video_before).push(track@));
                    },
                    Some(TrackKind::Audio) => {
                        audio.push(track);
                        assert(models_of(audio@) =~= models_of(audio_before).push(track@));
                    },
                    None => {},
                }
                i = i + 1;
            }
            assert(all.take(i as int) =~= all);
        }
        (video, audio)
    }
}

} // verus!
