//! Typed responses: conversion of response frames into domain values.

use vstd::prelude::*;
use vstd::string::{StrSliceExecFns, StringExecFns};
use crate::errors::{error_model, kind_model, ErrorKind, KindModel, TypedResponseError};
use crate::frame::{first_value, without_first, FieldsModel, Frame};
use crate::values::{
    bool_value, digits_value, fraction_nanos, fraction_part, index_of_char, is_decimal,
    duration_error_kind, duration_ok, duration_text, find_char, parse_bool, parse_duration, parse_integer, same_text, whole_part, Duration,
};

verus! {

/// Types that a single field value converts to.
pub trait FromFieldValue: Sized {
    /// The value that the text `v` denotes, or `None` where `v` is not valid for this type.
    spec fn parsed(v: Seq<char>) -> Option<Self>;

    /// The kind of error that an invalid text `v` gives.
    spec fn error_kind(v: Seq<char>) -> KindModel;

    /// Convert the value of `field`.
    fn from_value(v: String, field: &'static str) -> (r: Result<Self, TypedResponseError>)
        ensures
            match r {
                Ok(x) => Self::parsed(v@) == Some(x),
                Err(e) => Self::parsed(v@) is None && e.field == field && kind_model(e.kind)
                    == Self::error_kind(v@),
            },
    ;
}

/// An unsigned decimal integer no greater than `max`.
pub open spec fn integer_of(v: Seq<char>, max: nat) -> Option<nat> {
    if is_decimal(v) && digits_value(v) <= max {
        Some(digits_value(v))
    } else {
        None
    }
}

/// The duration that the text `v` gives in seconds.
pub open spec fn duration_of(v: Seq<char>) -> Option<Duration> {
    if duration_ok(v) {
        Some(
            Duration {
                secs: digits_value(whole_part(duration_text(v))) as u64,
                nanos: fraction_nanos(fraction_part(duration_text(v))) as u32,
            },
        )
    } else {
        None
    }
}

impl FromFieldValue for bool {
    open spec fn parsed(v: Seq<char>) -> Option<bool> {
        bool_value(v)
    }

    open spec fn error_kind(v: Seq<char>) -> KindModel {
        KindModel::InvalidValue(v)
    }

    fn from_value(v: String, field: &'static str) -> (r: Result<bool, TypedResponseError>) {
        parse_bool(v, field)
    }
}

impl FromFieldValue for u8 {
    open spec fn parsed(v: Seq<char>) -> Option<u8> {
        match integer_of(v, u8::MAX as nat) {
            Some(n) => Some(n as u8),
            None => None,
        }
    }

    open spec fn error_kind(v: Seq<char>) -> KindModel {
        KindModel::MalformedInteger
    }

    fn from_value(v: String, field: &'static str) -> (r: Result<u8, TypedResponseError>) {
        match parse_integer(v, field, u8::MAX as u64) {
            Ok(n) => Ok(n as u8),
            Err(e) => Err(e),
        }
    }
}

impl FromFieldValue for u32 {
    open spec fn parsed(v: Seq<char>) -> Option<u32> {
        match integer_of(v, u32::MAX as nat) {
            Some(n) => Some(n as u32),
            None => None,
        }
    }

    open spec fn error_kind(v: Seq<char>) -> KindModel {
        KindModel::MalformedInteger
    }

    fn from_value(v: String, field: &'static str) -> (r: Result<u32, TypedResponseError>) {
        match parse_integer(v, field, u32::MAX as u64) {
            Ok(n) => Ok(n as u32),
            Err(e) => Err(e),
        }
    }
}

impl FromFieldValue for u64 {
    open spec fn parsed(v: Seq<char>) -> Option<u64> {
        match integer_of(v, u64::MAX as nat) {
            Some(n) => Some(n as u64),
            None => None,
        }
    }

    open spec fn error_kind(v: Seq<char>) -> KindModel {
        KindModel::MalformedInteger
    }

    fn from_value(v: String, field: &'static str) -> (r: Result<u64, TypedResponseError>) {
        parse_integer(v, field, u64::MAX)
    }
}

impl FromFieldValue for usize {
    open spec fn parsed(v: Seq<char>) -> Option<usize> {
        match integer_of(v, usize::MAX as nat) {
            Some(n) => Some(n as usize),
            None => None,
        }
    }

    open spec fn error_kind(v: Seq<char>) -> KindModel {
        KindModel::MalformedInteger
    }

    fn from_value(v: String, field: &'static str) -> (r: Result<usize, TypedResponseError>) {
        match parse_integer(v, field, usize::MAX as u64) {
            Ok(n) => Ok(n as usize),
            Err(e) => Err(e),
        }
    }
}

impl FromFieldValue for Duration {
    open spec fn parsed(v: Seq<char>) -> Option<Duration> {
        duration_of(v)
    }

    open spec fn error_kind(v: Seq<char>) -> KindModel {
        duration_error_kind(v)
    }

    fn from_value(v: String, field: &'static str) -> (r: Result<Duration, TypedResponseError>) {
        parse_duration(field, v)
    }
}

/// Possible playback states.
#[derive(Clone, Copy, Debug, PartialEq, Eq, Structural)]
pub enum PlayState {
    Stopped,
    Playing,
    Paused,
}

impl FromFieldValue for PlayState {
    open spec fn parsed(v: Seq<char>) -> Option<PlayState> {
        if v == "play"@ {
            Some(PlayState::Playing)
        } else if v == "pause"@ {
            Some(PlayState::Paused)
        } else if v == "stop"@ {
            Some(PlayState::Stopped)
        } else {
            None
        }
    }

    open spec fn error_kind(v: Seq<char>) -> KindModel {
        KindModel::InvalidValue(v)
    }

    fn from_value(v: String, field: &'static str) -> (r: Result<PlayState, TypedResponseError>) {
        if same_text(v.as_str(), "play") {
            Ok(PlayState::Playing)
        } else if same_text(v.as_str(), "pause") {
            Ok(PlayState::Paused)
        } else if same_text(v.as_str(), "stop") {
            Ok(PlayState::Stopped)
        } else {
            Err(TypedResponseError { field, kind: ErrorKind::InvalidValue(v) })
        }
    }
}

/// Whether playback stops after the current song.
#[derive(Clone, Copy, Debug, PartialEq, Eq, Structural)]
pub enum SingleMode {
    Disabled,
    Enabled,
    Oneshot,
}

impl FromFieldValue for SingleMode {
    open spec fn parsed(v: Seq<char>) -> Option<SingleMode> {
        if v == "0"@ {
            Some(SingleMode::Disabled)
        } else if v == "1"@ {
            Some(SingleMode::Enabled)
        } else if v == "oneshot"@ {
            Some(SingleMode::Oneshot)
        } else {
            None
        }
    }

    open spec fn error_kind(v: Seq<char>) -> KindModel {
        KindModel::InvalidValue(v)
    }

    fn from_value(v: String, field: &'static str) -> (r: Result<SingleMode, TypedResponseError>) {
        if same_text(v.as_str(), "0") {
            Ok(SingleMode::Disabled)
        } else if same_text(v.as_str(), "1") {
            Ok(SingleMode::Enabled)
        } else if same_text(v.as_str(), "oneshot") {
            Ok(SingleMode::Oneshot)
        } else {
            Err(TypedResponseError { field, kind: ErrorKind::InvalidValue(v) })
        }
    }
}

/// Position of a song in the queue.
#[derive(Clone, Copy, Debug, PartialEq, Eq, Structural)]
pub struct SongPosition(pub usize);

/// Identifier of a song in the queue.
#[derive(Clone, Copy, Debug, PartialEq, Eq, Structural)]
pub struct SongId(pub u64);

/// A required field: its converted value, or `None` where it is absent or invalid.
pub open spec fn required_of<V: FromFieldValue>(f: FieldsModel, key: Seq<char>) -> Option<V> {
    match first_value(f, key) {
        Some(v) => V::parsed(v),
        None => None,
    }
}

/// An optional field: `Some(None)` where it is absent, `Some(Some(x))` where it converts
/// to `x`, and `None` where it is present but invalid.
pub open spec fn optional_of<V: FromFieldValue>(f: FieldsModel, key: Seq<char>) -> Option<Option<V>> {
    match first_value(f, key) {
        Some(v) => match V::parsed(v) {
            Some(x) => Some(Some(x)),
            None => None,
        },
        None => Some(None),
    }
}

/// The kind of error a required field gives: `Missing` where it is absent, the type's
/// kind where its text is invalid, `None` where it converts.
pub open spec fn required_error<V: FromFieldValue>(f: FieldsModel, key: Seq<char>) -> Option<KindModel> {
    match first_value(f, key) {
        Some(v) => if V::parsed(v) is None {
            Some(V::error_kind(v))
        } else {
            None
        },
        None => Some(KindModel::Missing),
    }
}

/// The kind of error an optional field gives: the type's kind where its text is invalid,
/// `None` where it is absent or converts.
pub open spec fn optional_error<V: FromFieldValue>(f: FieldsModel, key: Seq<char>) -> Option<KindModel> {
    match first_value(f, key) {
        Some(v) => if V::parsed(v) is None {
            Some(V::error_kind(v))
        } else {
            None
        },
        None => None,
    }
}

/// An error kind paired with the field it concerns.
pub open spec fn field_error(key: Seq<char>, k: Option<KindModel>) -> Option<(Seq<char>, KindModel)> {
    match k {
        Some(x) => Some((key, x)),
        None => None,
    }
}

/// The first of two errors, in the order the fields are read.
pub open spec fn first_error(a: Option<(Seq<char>, KindModel)>, b: Option<(Seq<char>, KindModel)>) -> Option<
    (Seq<char>, KindModel),
> {
    if a is Some {
        a
    } else {
        b
    }
}

/// Take out the first field of the given name and convert it; a required field.
pub fn value<V: FromFieldValue>(frame: &mut Frame, field: &'static str) -> (r: Result<V, TypedResponseError>)
    ensures
        match r {
            Ok(x) => required_of::<V>(old(frame)@, field@) == Some(x),
            Err(e) => required_of::<V>(old(frame)@, field@) is None && e.field == field
                && required_error::<V>(old(frame)@, field@) == Some(kind_model(e.kind)),
        },
        final(frame)@ == without_first(old(frame)@, field@),
        final(frame).binary_view() == old(frame).binary_view(),
{
    match frame.get(field) {
        Some(v) => V::from_value(v, field),
        None => Err(TypedResponseError { field, kind: ErrorKind::Missing }),
    }
}

/// Take out the first field of the given name and convert it; an optional field.
pub fn optional_value<V: FromFieldValue>(frame: &mut Frame, field: &'static str) -> (r: Result<
    Option<V>,
    TypedResponseError,
>)
    ensures
        match r {
            Ok(x) => optional_of::<V>(old(frame)@, field@) == Some(x),
            Err(e) => optional_of::<V>(old(frame)@, field@) is None && e.field == field
                && optional_error::<V>(old(frame)@, field@) == Some(kind_model(e.kind)),
        },
        final(frame)@ == without_first(old(frame)@, field@),
        final(frame).binary_view() == old(frame).binary_view(),
{
    match frame.get(field) {
        Some(v) => match V::from_value(v, field) {
            Ok(x) => Ok(Some(x)),
            Err(e) => Err(e),
        },
        None => Ok(None),
    }
}

/// Convert the first field of the given name, leaving the frame as it is; a required field.
fn peek_value<V: FromFieldValue>(frame: &Frame, field: &'static str) -> (r: Result<V, TypedResponseError>)
    ensures
        match r {
            Ok(x) => required_of::<V>(frame@, field@) == Some(x),
            Err(e) => required_of::<V>(frame@, field@) is None && error_model(e) == (
            field@,
            required_error::<V>(frame@, field@)->0),
        },
{
    match frame.find(field) {
        Some(v) => V::from_value(String::from_str(v), field),
        None => Err(TypedResponseError { field, kind: ErrorKind::Missing }),
    }
}

/// Convert the first field of the given name, leaving the frame as it is; an optional
/// field.
fn peek_optional<V: FromFieldValue>(frame: &Frame, field: &'static str) -> (r: Result<
    Option<V>,
    TypedResponseError,
>)
    ensures
        match r {
            Ok(x) => optional_of::<V>(frame@, field@) == Some(x) && optional_error::<V>(
                frame@,
                field@,
            ) is None,
            Err(e) => optional_of::<V>(frame@, field@) is None && optional_error::<V>(
                frame@,
                field@,
            ) is Some && error_model(e) == (field@, optional_error::<V>(frame@, field@)->0),
        },
{
    match frame.find(field) {
        Some(v) => match V::from_value(String::from_str(v), field) {
            Ok(x) => Ok(Some(x)),
            Err(e) => Err(e),
        },
        None => Ok(None),
    }
}

/// The pair of a song's position and identifier: `Some(None)` where the position field is
/// absent, and `None` where the position is invalid, or present without a valid identifier.
pub open spec fn song_identifier_of(f: FieldsModel, position_field: Seq<char>, id_field: Seq<char>) -> Option<
    Option<(SongPosition, SongId)>,
> {
    match optional_of::<usize>(f, position_field) {
        Some(Some(p)) => match required_of::<u64>(f, id_field) {
            Some(i) => Some(Some((SongPosition(p), SongId(i)))),
            None => None,
        },
        Some(None) => Some(None),
        None => None,
    }
}

/// The error of a song's position and identifier: the position's error, else, where the
/// position is present, the identifier's.
pub open spec fn song_identifier_error(f: FieldsModel, position_field: Seq<char>, id_field: Seq<char>) -> Option<
    (Seq<char>, KindModel),
> {
    if optional_error::<usize>(f, position_field) is Some {
        field_error(position_field, optional_error::<usize>(f, position_field))
    } else if first_value(f, position_field) is Some {
        field_error(id_field, required_error::<u64>(f, id_field))
    } else {
        None
    }
}

/// Read the position of a song and, where it is present, its identifier too.
pub fn song_identifier(frame: &Frame, position_field: &'static str, id_field: &'static str) -> (r:
    Result<Option<(SongPosition, SongId)>, TypedResponseError>)
    ensures
        match r {
            Ok(x) => song_identifier_of(frame@, position_field@, id_field@) == Some(x)
                && song_identifier_error(frame@, position_field@, id_field@) is None,
            Err(e) => song_identifier_of(frame@, position_field@, id_field@) is None
                && song_identifier_error(frame@, position_field@, id_field@) == Some(error_model(e)),
        },
{
    let position: usize = match peek_optional::<usize>(frame, position_field) {
        Ok(Some(p)) => p,
        Ok(None) => return Ok(None),
        Err(e) => return Err(e),
    };
    let id: u64 = match peek_value::<u64>(frame, id_field) {
        Ok(i) => i,
        Err(e) => return Err(e),
    };
    Ok(Some((SongPosition(position), SongId(id))))
}


/// Response to the `status` command.
#[derive(Clone, Debug, PartialEq, Eq)]
pub struct Status {
    pub volume: u8,
    pub state: PlayState,
    pub repeat: bool,
    pub random: bool,
    pub consume: bool,
    pub single: SingleMode,
    pub playlist_version: u32,
    pub playlist_length: usize,
    pub current_song: Option<(SongPosition, SongId)>,
    pub next_song: Option<(SongPosition, SongId)>,
    pub elapsed: Option<Duration>,
    pub duration: Option<Duration>,
    pub bitrate: Option<u64>,
    pub crossfade: Duration,
    pub update_job: Option<u64>,
    pub error: Option<String>,
    pub partition: Option<String>,
}

/// The view of an optional string.
pub open spec fn opt_text(o: Option<String>) -> Option<Seq<char>> {
    match o {
        Some(s) => Some(s@),
        None => None,
    }
}

/// An optional field with a default in place of an absent one; `None` where it is invalid.
pub open spec fn defaulted<V>(o: Option<Option<V>>, d: V) -> Option<V> {
    match o {
        Some(Some(x)) => Some(x),
        Some(None) => Some(d),
        None => None,
    }
}

/// The single mode: disabled where the field is absent (older servers).
pub open spec fn single_of(f: FieldsModel) -> Option<SingleMode> {
    defaulted(optional_of::<SingleMode>(f, "single"@), SingleMode::Disabled)
}

/// The song's duration: the `duration` field where present, else the part of the older
/// `time` field (`elapsed:total`) after its first colon; `None` where it is invalid.
pub open spec fn status_duration_of(f: FieldsModel) -> Option<Option<Duration>> {
    match first_value(f, "duration"@) {
        Some(v) => match duration_of(v) {
            Some(d) => Some(Some(d)),
            None => None,
        },
        None => match first_value(f, "time"@) {
            Some(t) => {
                let k = index_of_char(t, ':');
                if k < t.len() {
                    match duration_of(t.skip(k + 1)) {
                        Some(d) => Some(Some(d)),
                        None => None,
                    }
                } else {
                    None
                }
            },
            None => Some(None),
        },
    }
}

/// The error of the song's duration, where it has one.
pub open spec fn status_duration_error(f: FieldsModel) -> Option<(Seq<char>, KindModel)> {
    match first_value(f, "duration"@) {
        Some(v) => if duration_of(v) is None {
            Some(("duration"@, duration_error_kind(v)))
        } else {
            None
        },
        None => match first_value(f, "time"@) {
            Some(t) => {
                let k = index_of_char(t, ':');
                if k < t.len() {
                    if duration_of(t.skip(k + 1)) is None {
                        Some(("time"@, duration_error_kind(t.skip(k + 1))))
                    } else {
                        None
                    }
                } else {
                    Some(("time"@, KindModel::InvalidValue(t)))
                }
            },
            None => None,
        },
    }
}

/// The error converting a frame to a `Status` gives: that of the first field that fails,
/// in the order `single`, duration, `volume`, `state`, `repeat`, `random`, `consume`,
/// `playlistlength`, `playlist`, the current song, the next song, `elapsed`, `bitrate`,
/// `xfade`, `update_job`; `None` where every field converts.
pub open spec fn status_error(f: FieldsModel) -> Option<(Seq<char>, KindModel)> {
    first_error(
        field_error("single"@, optional_error::<SingleMode>(f, "single"@)),
        first_error(
            status_duration_error(f),
            first_error(
                field_error("volume"@, optional_error::<u8>(f, "volume"@)),
                first_error(
                    field_error("state"@, required_error::<PlayState>(f, "state"@)),
                    first_error(
                        field_error("repeat"@, required_error::<bool>(f, "repeat"@)),
                        first_error(
                            field_error("random"@, required_error::<bool>(f, "random"@)),
                            first_error(
                                field_error("consume"@, required_error::<bool>(f, "consume"@)),
                                first_error(
                                    field_error(
                                        "playlistlength"@,
                                        optional_error::<usize>(f, "playlistlength"@),
                                    ),
                                    first_error(
                                        field_error("playlist"@, optional_error::<u32>(f, "playlist"@)),
                                        first_error(
                                            song_identifier_error(f, "song"@, "songid"@),
                                            first_error(
                                                song_identifier_error(f, "nextsong"@, "nextsongid"@),
                                                first_error(
                                                    field_error(
                                                        "elapsed"@,
                                                        optional_error::<Duration>(f, "elapsed"@),
                                                    ),
                                                    first_error(
                                                        field_error(
                                                            "bitrate"@,
                                                            optional_error::<u64>(f, "bitrate"@),
                                                        ),
                                                        first_error(
                                                            field_error(
                                                                "xfade"@,
                                                                optional_error::<Duration>(f, "xfade"@),
                                                            ),
                                                            field_error(
                                                                "update_job"@,
                                                                optional_error::<u64>(f, "update_job"@),
                                                            ),
                                                        ),
                                                    ),
                                                ),
                                            ),
                                        ),
                                    ),
                                ),
                            ),
                        ),
                    ),
                ),
            ),
        ),
    )
}

/// Whether a frame converts to a `Status`.
pub open spec fn status_ok(f: FieldsModel) -> bool {
    &&& single_of(f) is Some
    &&& status_duration_of(f) is Some
    &&& optional_of::<u8>(f, "volume"@) is Some
    &&& required_of::<PlayState>(f, "state"@) is Some
    &&& required_of::<bool>(f, "repeat"@) is Some
    &&& required_of::<bool>(f, "random"@) is Some
    &&& required_of::<bool>(f, "consume"@) is Some
    &&& optional_of::<usize>(f, "playlistlength"@) is Some
    &&& optional_of::<u32>(f, "playlist"@) is Some
    &&& song_identifier_of(f, "song"@, "songid"@) is Some
    &&& song_identifier_of(f, "nextsong"@, "nextsongid"@) is Some
    &&& optional_of::<Duration>(f, "elapsed"@) is Some
    &&& optional_of::<u64>(f, "bitrate"@) is Some
    &&& optional_of::<Duration>(f, "xfade"@) is Some
    &&& optional_of::<u64>(f, "update_job"@) is Some
}

/// Whether `st` is what the frame `f` converts to.
pub open spec fn status_matches(st: Status, f: FieldsModel) -> bool {
    &&& single_of(f) == Some(st.single)
    &&& status_duration_of(f) == Some(st.duration)
    &&& defaulted(optional_of::<u8>(f, "volume"@), 0u8) == Some(st.volume)
    &&& required_of::<PlayState>(f, "state"@) == Some(st.state)
    &&& required_of::<bool>(f, "repeat"@) == Some(st.repeat)
    &&& required_of::<bool>(f, "random"@) == Some(st.random)
    &&& required_of::<bool>(f, "consume"@) == Some(st.consume)
    &&& defaulted(optional_of::<usize>(f, "playlistlength"@), 0usize) == Some(st.playlist_length)
    &&& defaulted(optional_of::<u32>(f, "playlist"@), 0u32) == Some(st.playlist_version)
    &&& song_identifier_of(f, "song"@, "songid"@) == Some(st.current_song)
    &&& song_identifier_of(f, "nextsong"@, "nextsongid"@) == Some(st.next_song)
    &&& optional_of::<Duration>(f, "elapsed"@) == Some(st.elapsed)
    &&& optional_of::<u64>(f, "bitrate"@) == Some(st.bitrate)
    &&& defaulted(optional_of::<Duration>(f, "xfade"@), Duration { secs: 0, nanos: 0 }) == Some(
        st.crossfade,
    )
    &&& optional_of::<u64>(f, "update_job"@) == Some(st.update_job)
    &&& opt_text(st.error) == first_value(f, "error"@)
    &&& opt_text(st.partition) == first_value(f, "partition"@)
}

/// The value of a field as an owned string.
fn text_value(frame: &Frame, field: &'static str) -> (r: Option<String>)
    ensures
        opt_text(r) == first_value(frame@, field@),
{
    match frame.find(field) {
        Some(v) => Some(String::from_str(v)),
        None => None,
    }
}

/// Read the song's duration, from the `duration` field or the older `time` field.
fn status_duration(frame: &Frame) -> (r: Result<Option<Duration>, TypedResponseError>)
    ensures
        match r {
            Ok(d) => status_duration_of(frame@) == Some(d) && status_duration_error(frame@) is None,
            Err(e) => status_duration_of(frame@) is None && status_duration_error(frame@) == Some(
                error_model(e),
            ),
        },
{
    if let Some(v) = frame.find("duration") {
        match parse_duration("duration", String::from_str(v)) {
            Ok(d) => Ok(Some(d)),
            Err(e) => Err(e),
        }
    } else if let Some(time) = frame.find("time") {
        let n = time.unicode_len();
        let k = find_char(time, ':');
        if k < n {
            let rest = time.substring_char(k + 1, n);
            assert(rest@ =~= time@.skip(k + 1));
            match parse_duration("time", String::from_str(rest)) {
                Ok(d) => Ok(Some(d)),
                Err(e) => Err(e),
            }
        } else {
            Err(TypedResponseError { field: "time", kind: ErrorKind::InvalidValue(String::from_str(time)) })
        }
    } else {
        Ok(None)
    }
}

impl Status {
    /// Convert the response to `status`.
    pub fn from_frame(raw: Frame) -> (r: Result<Status, TypedResponseError>)
        ensures
            r is Ok <==> status_ok(raw@),
            r matches Ok(st) ==> status_matches(st, raw@),
            r matches Err(e) ==> status_error(raw@) == Some(error_model(e)),
    {
        let f = &raw;
        let single = match peek_optional::<SingleMode>(f, "single") {
            Ok(Some(s)) => s,
            Ok(None) => SingleMode::Disabled,
            Err(e) => return Err(e),
        };
        let duration = match status_duration(f) {
            Ok(d) => d,
            Err(e) => return Err(e),
        };
        let volume = match peek_optional::<u8>(f, "volume") {
            Ok(v) => match v { Some(x) => x, None => 0 },
            Err(e) => return Err(e),
        };
        let state = match peek_value::<PlayState>(f, "state") {
            Ok(v) => v,
            Err(e) => return Err(e),
        };
        let repeat = match peek_value::<bool>(f, "repeat") {
            Ok(v) => v,
            Err(e) => return Err(e),
        };
        let random = match peek_value::<bool>(f, "random") {
            Ok(v) => v,
            Err(e) => return Err(e),
        };
        let consume = match peek_value::<bool>(f, "consume") {
            Ok(v) => v,
            Err(e) => return Err(e),
        };
        let playlist_length = match peek_optional::<usize>(f, "playlistlength") {
            Ok(v) => match v { Some(x) => x, None => 0 },
            Err(e) => return Err(e),
        };
        let playlist_version = match peek_optional::<u32>(f, "playlist") {
            Ok(v) => match v { Some(x) => x, None => 0 },
            Err(e) => return Err(e),
        };
        let current_song = match song_identifier(f, "song", "songid") {
            Ok(v) => v,
            Err(e) => return Err(e),
        };
        let next_song = match song_identifier(f, "nextsong", "nextsongid") {
            Ok(v) => v,
            Err(e) => return Err(e),
        };
        let elapsed = match peek_optional::<Duration>(f, "elapsed") {
            Ok(v) => v,
            Err(e) => return Err(e),
        };
        let bitrate = match peek_optional::<u64>(f, "bitrate") {
            Ok(v) => v,
            Err(e) => return Err(e),
        };
        let crossfade = match peek_optional::<Duration>(f, "xfade") {
            Ok(v) => match v { Some(x) => x, None => Duration::zero() },
            Err(e) => return Err(e),
        };
        let update_job = match peek_optional::<u64>(f, "update_job") {
            Ok(v) => v,
            Err(e) => return Err(e),
        };
        Ok(Status {
            volume,
            state,
            repeat,
            random,
            consume,
            single,
            playlist_version,
            playlist_length,
            current_song,
            next_song,
            elapsed,
            duration,
            bitrate,
            crossfade,
            update_job,
            error: text_value(f, "error"),
            partition: text_value(f, "partition"),
        })
    }
}

/// Response to the `stats` command: general server statistics.
#[derive(Clone, Copy, Debug, PartialEq, Eq, Structural)]
pub struct Stats {
    pub artists: u64,
    pub albums: u64,
    pub songs: u64,
    pub uptime: Duration,
    pub playtime: Duration,
    pub db_playtime: Duration,
    /// Raw server UNIX timestamp of the last database update.
    pub db_last_update: u64,
}

/// What a frame converts to as `Stats`, or `None` where a field is absent or invalid.
pub open spec fn stats_of(f: FieldsModel) -> Option<Stats> {
    match (
        required_of::<u64>(f, "artists"@),
        required_of::<u64>(f, "albums"@),
        required_of::<u64>(f, "songs"@),
        required_of::<Duration>(f, "uptime"@),
        required_of::<Duration>(f, "playtime"@),
        required_of::<Duration>(f, "db_playtime"@),
        required_of::<u64>(f, "db_update"@),
    ) {
        (Some(a), Some(b), Some(s), Some(u), Some(p), Some(d), Some(l)) => Some(
            Stats {
                artists: a,
                albums: b,
                songs: s,
                uptime: u,
                playtime: p,
                db_playtime: d,
                db_last_update: l,
            },
        ),
        _ => None,
    }
}

/// The error converting a frame to `Stats` gives: that of the first required field that
/// is absent or invalid, in the order of the struct's fields.
pub open spec fn stats_error(f: FieldsModel) -> Option<(Seq<char>, KindModel)> {
    first_error(
        field_error("artists"@, required_error::<u64>(f, "artists"@)),
        first_error(
            field_error("albums"@, required_error::<u64>(f, "albums"@)),
            first_error(
                field_error("songs"@, required_error::<u64>(f, "songs"@)),
                first_error(
                    field_error("uptime"@, required_error::<Duration>(f, "uptime"@)),
                    first_error(
                        field_error("playtime"@, required_error::<Duration>(f, "playtime"@)),
                        first_error(
                            field_error("db_playtime"@, required_error::<Duration>(f, "db_playtime"@)),
                            field_error("db_update"@, required_error::<u64>(f, "db_update"@)),
                        ),
                    ),
                ),
            ),
        ),
    )
}

impl Stats {
    /// Convert the response to `stats`.
    pub fn from_frame(f: Frame) -> (r: Result<Stats, TypedResponseError>)
        ensures
            match r {
                Ok(st) => stats_of(f@) == Some(st),
                Err(e) => stats_of(f@) is None && stats_error(f@) == Some(error_model(e)),
            },
    {
        let artists = match peek_value::<u64>(&f, "artists") {
            Ok(v) => v,
            Err(e) => return Err(e),
        };
        let albums = match peek_value::<u64>(&f, "albums") {
            Ok(v) => v,
            Err(e) => return Err(e),
        };
        let songs = match peek_value::<u64>(&f, "songs") {
            Ok(v) => v,
            Err(e) => return Err(e),
        };
        let uptime = match peek_value::<Duration>(&f, "uptime") {
            Ok(v) => v,
            Err(e) => return Err(e),
        };
        let playtime = match peek_value::<Duration>(&f, "playtime") {
            Ok(v) => v,
            Err(e) => return Err(e),
        };
        let db_playtime = match peek_value::<Duration>(&f, "db_playtime") {
            Ok(v) => v,
            Err(e) => return Err(e),
        };
        let db_last_update = match peek_value::<u64>(&f, "db_update") {
            Ok(v) => v,
            Err(e) => return Err(e),
        };
        Ok(Stats { artists, albums, songs, uptime, playtime, db_playtime, db_last_update })
    }
}

/// Response to the `albumart` and `readpicture` commands.
#[derive(Clone, Debug, PartialEq, Eq)]
pub struct AlbumArt {
    /// The total size in bytes of the file.
    pub size: usize,
    /// The mime type, if known.
    pub mime: Option<String>,
    /// The raw data.
    pub data: Vec<u8>,
}

impl AlbumArt {
    /// Get the data in the response.
    pub fn data(&self) -> (r: &[u8])
        ensures
            r@ == self.data@,
    {
        self.data.as_slice()
    }

    /// Convert the response to `albumart` or `readpicture`: `None` where the frame carries
    /// no binary payload; otherwise `size` is required and `type` optional.
    pub fn from_frame(frame: Frame) -> (r: Result<Option<AlbumArt>, TypedResponseError>)
        ensures
            frame.binary_view() is None ==> r matches Ok(None),
            frame.binary_view() matches Some(b) ==> match r {
                Ok(Some(a)) => {
                    &&& required_of::<usize>(frame@, "size"@) == Some(a.size)
                    &&& opt_text(a.mime) == first_value(frame@, "type"@)
                    &&& a.data@ == b
                },
                Ok(None) => false,
                Err(e) => required_of::<usize>(frame@, "size"@) is None && error_model(e) == (
                "size"@,
                required_error::<usize>(frame@, "size"@)->0),
            },
    {
        let mut frame = frame;
        let data = match frame.take_binary() {
            Some(d) => d,
            None => return Ok(None),
        };
        let size = match peek_value::<usize>(&frame, "size") {
            Ok(v) => v,
            Err(e) => return Err(e),
        };
        Ok(Some(AlbumArt { size, mime: text_value(&frame, "type"), data }))
    }
}

} // verus!
