//! Reading a report from the JSON text that a probe prints.
//!
//! The text is parsed by `serde_json`. A report has the shape
//! `{"media": {"track": [ {..}, .. ]}}`; of each track only the fields that
//! a summary shows are read.

use crate::summary::{
    lines_of_kind, report_without_tracks_gets_the_sentinels, summarize, MediaSummary, NO_AUDIO,
    NO_VIDEO,
};
use crate::track::{
    track_models, FieldValue, RawReport, RawTrack, RawValue, ReportModel, TrackKind, TrackModel,
    ASPECT_FIELD, BIT_RATE_FIELD, CHANNELS_FIELD, CODEC_FIELD, FRAME_RATE_FIELD, HEIGHT_FIELD,
    KIND_FIELD, SAMPLING_RATE_FIELD, WIDTH_FIELD,
};
use vstd::prelude::*;

verus! {

/// `serde_json::Value`, a JSON value of any shape. The library reads it
/// through the calls below and never looks inside; what it holds is spoken
/// of as `json_model`.
#[verifier::external_type_specification]
#[verifier::external_body]
pub struct ExJsonValue(serde_json::Value);

/// `serde_json::Error`, the reason why a text is no JSON document. The
/// library never looks inside.
#[verifier::external_type_specification]
#[verifier::external_body]
pub struct ExJsonError(serde_json::Error);

/// The member of a report that holds the description of the medium.
pub const MEDIA_MEMBER: &'static str = "media";

/// The member of the medium that holds the list of tracks.
pub const TRACK_MEMBER: &'static str = "track";

/// The fields that are read from a track.
pub const TRACK_FIELDS: [&'static str; 9] = [
    KIND_FIELD,
    CODEC_FIELD,
    WIDTH_FIELD,
    HEIGHT_FIELD,
    ASPECT_FIELD,
    FRAME_RATE_FIELD,
    BIT_RATE_FIELD,
    SAMPLING_RATE_FIELD,
    CHANNELS_FIELD,
];

/// What a JSON value stands for: its shape and the texts that it holds. Two
/// numbers are not told apart.
pub enum JsonModel {
    Null,
    Bool(bool),
    Number,
    Text(Seq<char>),
    Array(Seq<JsonModel>),
    Object(Map<Seq<char>, JsonModel>),
}

/// What a `serde_json::Value` holds.
pub uninterp spec fn json_model(value: serde_json::Value) -> JsonModel;

/// What `serde_json::from_str` makes of a text that is read as a `Value`:
/// what the value holds, or `None` where it reports an error.
pub uninterp spec fn json_document(text: Seq<char>) -> Option<JsonModel>;

/// What some values hold, one by one.
pub open spec fn json_models(values: Seq<serde_json::Value>) -> Seq<JsonModel> {
    values.map_values(|value: serde_json::Value| json_model(value))
}

/// The member `key` of an object; `None` for an object without that member
/// and for what is no object.
pub open spec fn member_of(json: JsonModel, key: Seq<char>) -> Option<JsonModel> {
    match json {
        JsonModel::Object(members) => if members.contains_key(key) {
            Some(members[key])
        } else {
            None
        },
        _ => None,
    }
}

/// The text of a string; `None` for what is no string.
pub open spec fn text_of(json: JsonModel) -> Option<Seq<char>> {
    match json {
        JsonModel::Text(text) => Some(text),
        _ => None,
    }
}

/// The items of an array; `None` for what is no array.
pub open spec fn items_of(json: JsonModel) -> Option<Seq<JsonModel>> {
    match json {
        JsonModel::Array(items) => Some(items),
        _ => None,
    }
}

/// Calls `serde_json::from_str` for a `Value`. The contract claims only that
/// the outcome is the one that the text determines; it says nothing of
/// which texts are JSON documents, nor of what they hold.
#[verifier::external_body]
fn parse(text: &str) -> (parsed: Result<serde_json::Value, serde_json::Error>)
    ensures
        match parsed {
            Ok(value) => json_document(text@) == Some(json_model(value)),
            Err(_) => json_document(text@) is None,
        },
{
    serde_json::from_str::<serde_json::Value>(text)
}

/// Calls `serde_json::Value::get` with a text index. The contract claims
/// what its documentation says: the member of that name where the value is
/// an object that has one, and `None` in every other case.
#[verifier::external_body]
fn member<'a>(value: &'a serde_json::Value, key: &str) -> (found: Option<&'a serde_json::Value>)
    ensures
        match found {
            Some(inner) => member_of(json_model(*value), key@) == Some(json_model(*inner)),
            None => member_of(json_model(*value), key@) is None,
        },
{
    value.get(key)
}

/// Calls `serde_json::Value::as_str`. The contract claims what its
/// documentation says: the text where the value is a string, and `None` in
/// every other case.
#[verifier::external_body]
fn as_text<'a>(value: &'a serde_json::Value) -> (found: Option<&'a str>)
    ensures
        match found {
            Some(text) => text_of(json_model(*value)) == Some(text@),
            None => text_of(json_model(*value)) is None,
        },
{
    value.as_str()
}

/// Calls `serde_json::Value::as_array`. The contract claims what its
/// documentation says: the items where the value is an array, and `None` in
/// every other case.
#[verifier::external_body]
fn as_items<'a>(value: &'a serde_json::Value) -> (found: Option<&'a Vec<serde_json::Value>>)
    ensures
        match found {
            Some(items) => items_of(json_model(*value)) == Some(json_models(items@)),
            None => items_of(json_model(*value)) is None,
        },
{
    value.as_array()
}

/// Why a text gave no report.
#[derive(Clone, Copy, PartialEq, Eq, Debug, Structural)]
pub enum ReportError {
    /// The text is no JSON document.
    InvalidJson,
}

/// Whether a field of that name is read from a track.
pub open spec fn is_track_field(name: Seq<char>) -> bool {
    exists|i: int| 0 <= i < TRACK_FIELDS@.len() && (#[trigger] TRACK_FIELDS[i])@ == name
}

/// What a JSON value stands for as the value of a field.
pub open spec fn value_model(json: JsonModel) -> FieldValue {
    match json {
        JsonModel::Text(text) => FieldValue::Text(text),
        _ => FieldValue::Other,
    }
}

/// The track that is read from a JSON value: each field that is read and
/// that the value has as a member, with what the member stands for. What is
/// no object gives a track without fields.
pub open spec fn track_model(json: JsonModel) -> TrackModel {
    Map::new(
        |name: Seq<char>| is_track_field(name) && member_of(json, name) is Some,
        |name: Seq<char>| value_model(member_of(json, name).unwrap()),
    )
}

/// Whether a name is among the first `upto` of `TRACK_FIELDS`.
spec fn is_among(name: Seq<char>, upto: int) -> bool {
    exists|i: int| 0 <= i < upto && i < TRACK_FIELDS@.len() && (#[trigger] TRACK_FIELDS[i])@ == name
}

/// The track that the first `upto` names of `TRACK_FIELDS` give.
spec fn track_model_upto(json: JsonModel, upto: int) -> TrackModel {
    Map::new(
        |name: Seq<char>| is_among(name, upto) && member_of(json, name) is Some,
        |name: Seq<char>| value_model(member_of(json, name).unwrap()),
    )
}

/// The tracks that are read from some JSON values.
pub open spec fn track_models_of(items: Seq<JsonModel>) -> Seq<TrackModel> {
    items.map_values(|item: JsonModel| track_model(item))
}

/// The report that is read from a JSON document: the items of the array
/// that is the member `track` of the member `media`, each read as a track.
/// Where a member is missing or the last is no array the report has no list
/// of tracks.
pub open spec fn report_model(document: JsonModel) -> ReportModel {
    match member_of(document, MEDIA_MEMBER@) {
        Some(media) => match member_of(media, TRACK_MEMBER@) {
            Some(JsonModel::Array(items)) => Some(track_models_of(items)),
            _ => None,
        },
        None => None,
    }
}

/// Reads a track from a JSON value.
pub fn track_from_json(value: &serde_json::Value) -> (track: RawTrack)
    ensures
        track@ == track_model(json_model(*value)),
{
    let ghost json = json_model(*value);
    let mut track = RawTrack::new();
    assert(track@ =~= track_model_upto(json, 0));
    let mut i: usize = 0;
    while i < 9
        invariant
            i <= 9,
            TRACK_FIELDS@.len() == 9,
            json == json_model(*value),
            track@ == track_model_upto(json, i as int),
        decreases 9 - i,
    {
        let name = TRACK_FIELDS[i];
        let ghost before = track@;
        match member(value, name) {
            Some(inner) => {
                match as_text(inner) {
                    Some(text) => {
                        track.set_text(name, text);
                    },
                    None => {
                        track.set(name, RawValue::Other);
                    },
                }
                assert(track@ == before.insert(name@, value_model(json_model(*inner))));
            },
            None => {},
        }
        proof {
            assert forall|other: Seq<char>| is_among(other, i + 1) <==> is_among(other, i as int)
                || other == name@ by {
                if is_among(other, i + 1) {
                    let k = choose|k: int|
                        0 <= k < i + 1 && k < TRACK_FIELDS@.len() && (#[trigger] TRACK_FIELDS[k])@
                            == other;
                    if k < i {
                        assert(is_among(other, i as int));
                    }
                }
                if other == name@ {
                    assert(TRACK_FIELDS[i as int]@ == other);
                }
            }
            assert(track@ =~= track_model_upto(json, i + 1));
        }
        i = i + 1;
    }
    proof {
        assert forall|name: Seq<char>| is_among(name, 9) <==> is_track_field(name) by {
            if is_track_field(name) {
                let k = choose|k: int|
                    0 <= k < TRACK_FIELDS@.len() && (#[trigger] TRACK_FIELDS[k])@ == name;
                assert(is_among(name, 9));
            }
        }
        assert(track@ =~= track_model(json));
    }
    track
}

/// Reads a report from a JSON document.
pub fn report_from_json(document: &serde_json::Value) -> (report: RawReport)
    ensures
        report@ == report_model(json_model(*document)),
{
    let list = match member(document, MEDIA_MEMBER) {
        Some(media) => member(media, TRACK_MEMBER),
        None => None,
    };
    let items = match list {
        Some(list) => as_items(list),
        None => None,
    };
    match items {
        Some(items) => {
            let mut tracks: Vec<RawTrack> = Vec::new();
            let ghost wanted = track_models_of(json_models(items@));
            let mut i: usize = 0;
            while i < items.len()
                invariant
                    i <= items.len(),
                    wanted == track_models_of(json_models(items@)),
                    track_models(tracks@) == wanted.take(i as int),
                decreases items.len() - i,
            {
                let ghost before = tracks@;
                let track = track_from_json(&items[i]);
                tracks.push(track);
                proof {
                    assert(track_models(tracks@) =~= track_models(before).push(track@));
                    assert(wanted.take(i + 1) =~= wanted.take(i as int).push(wanted[i as int]));
                }
                i = i + 1;
            }
            proof {
                assert(wanted.take(i as int) =~= wanted);
            }
            RawReport::with_tracks(tracks)
        },
        None => RawReport::without_tracks(),
    }
}

/// Reads a report from the JSON text of a probe, for a caller who wants to
/// know whether the text was a JSON document at all. A text that is none is
/// an error; a document of any shape gives a report.
pub fn read_report(text: &str) -> (read: Result<RawReport, ReportError>)
    ensures
        match json_document(text@) {
            Some(document) => read is Ok && read->Ok_0@ == report_model(document),
            None => read == Err::<RawReport, ReportError>(ReportError::InvalidJson),
        },
{
    match parse(text) {
        Ok(document) => Ok(report_from_json(&document)),
        Err(_) => Err(ReportError::InvalidJson),
    }
}

/// The report that a text gives: that of the JSON document which the text
/// is, and a report without a list of tracks where the text is no JSON
/// document.
pub open spec fn report_of_text(text: Seq<char>) -> ReportModel {
    match json_document(text) {
        Some(document) => report_model(document),
        None => None,
    }
}

/// Summarizes the text that a probe printed. Every text gets a summary: one
/// that is no JSON document, or a document of another shape than a report,
/// gets the two sentinel lines.
pub fn summarize_json(text: &str) -> (made: MediaSummary)
    ensures
        made@.video_lines == lines_of_kind(report_of_text(text@), TrackKind::Video),
        made@.audio_lines == lines_of_kind(report_of_text(text@), TrackKind::Audio),
        json_document(text@) is None ==> made@.video_lines == seq![NO_VIDEO@]
            && made@.audio_lines == seq![NO_AUDIO@],
        made@.video_lines.len() >= 1,
        made@.audio_lines.len() >= 1,
{
    proof {
        if json_document(text@) is None {
            report_without_tracks_gets_the_sentinels(report_of_text(text@), TrackKind::Video);
            report_without_tracks_gets_the_sentinels(report_of_text(text@), TrackKind::Audio);
        }
    }
    match read_report(text) {
        Ok(report) => summarize(&report),
        Err(_) => summarize(&RawReport::without_tracks()),
    }
}

} // verus!
