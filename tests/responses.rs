use mpd_client::errors::ErrorKind;
use mpd_client::frame::Frame;
use mpd_client::responses::{optional_value, value, AlbumArt, PlayState, SingleMode, SongId, SongPosition, Stats, Status};
use mpd_client::values::{parse_bool, parse_duration, parse_integer};

fn frame(fields: &[(&str, &str)]) -> Frame {
    let mut f = Frame::new();
    for (k, v) in fields {
        f.push_field(k.to_string(), v.to_string());
    }
    f
}

fn std_duration(d: mpd_client::values::Duration) -> std::time::Duration {
    std::time::Duration::new(d.as_secs(), d.subsec_nanos())
}

#[test]
fn duration_parsing() {
    assert_eq!(
        std_duration(parse_duration("duration", "1.500".to_string()).unwrap()),
        std::time::Duration::from_secs_f64(1.5)
    );
    assert_eq!(
        std_duration(parse_duration("Time", "3".to_string()).unwrap()),
        std::time::Duration::from_secs(3)
    );

    assert!(parse_duration("duration", "-1".to_string()).is_err());
    assert!(parse_duration("duration", "NaN".to_string()).is_err());
    assert!(parse_duration("duration", "-1".to_string()).is_err());
}

#[test]
fn duration_edge_cases() {
    let d = parse_duration("d", "0.1234567891".to_string()).unwrap();
    assert_eq!((d.as_secs(), d.subsec_nanos()), (0, 123_456_789));
    let d = parse_duration("d", "-0.000".to_string()).unwrap();
    assert_eq!((d.as_secs(), d.subsec_nanos()), (0, 0));
    let d = parse_duration("d", ".5".to_string()).unwrap();
    assert_eq!((d.as_secs(), d.subsec_nanos()), (0, 500_000_000));
    let d = parse_duration("d", "18446744073709551615.999999999".to_string()).unwrap();
    assert_eq!((d.as_secs(), d.subsec_nanos()), (u64::MAX, 999_999_999));
    let e = parse_duration("d", "18446744073709551616".to_string()).unwrap_err();
    assert_eq!(e.kind, ErrorKind::InvalidValue("18446744073709551616".to_string()));
    let e = parse_duration("d", "-0.5".to_string()).unwrap_err();
    assert_eq!(e.kind, ErrorKind::InvalidValue("-0.5".to_string()));
    let e = parse_duration("d", "1.2.3".to_string()).unwrap_err();
    assert_eq!(e.kind, ErrorKind::MalformedFloat);
    assert_eq!(e.field, "d");
    assert_eq!(parse_duration("d", ".".to_string()).unwrap_err().kind, ErrorKind::MalformedFloat);
    let secs_nanos = |t: &str| {
        let d = parse_duration("d", t.to_string()).unwrap();
        (d.as_secs(), d.subsec_nanos())
    };
    assert_eq!(secs_nanos("1e3"), (1000, 0));
    assert_eq!(secs_nanos("1.5e-3"), (0, 1_500_000));
    assert_eq!(secs_nanos("2E+1"), (20, 0));
    assert_eq!(secs_nanos("125e-2"), (1, 250_000_000));
    assert_eq!(secs_nanos("1e-400"), (0, 0));
    assert_eq!(secs_nanos("-0e5"), (0, 0));
    assert_eq!(secs_nanos("0e99999999999999999999999"), (0, 0));
    assert_eq!(
        parse_duration("d", "1e400".to_string()).unwrap_err().kind,
        ErrorKind::InvalidValue("1e400".to_string())
    );
    assert_eq!(
        parse_duration("d", "-1e-5".to_string()).unwrap_err().kind,
        ErrorKind::InvalidValue("-1e-5".to_string())
    );
    for bad in ["1e", "e3", "1e+", "1e3.5", ".e1"] {
        assert_eq!(parse_duration("d", bad.to_string()).unwrap_err().kind, ErrorKind::MalformedFloat);
    }
    for special in ["NaN", "inf", "-Infinity", "+nan"] {
        assert_eq!(
            parse_duration("d", special.to_string()).unwrap_err().kind,
            ErrorKind::InvalidValue(special.to_string())
        );
    }
    let e = parse_duration("d", "18446744073709551615.9999999991".to_string()).unwrap_err();
    assert_eq!(
        e.kind,
        ErrorKind::InvalidValue("18446744073709551615.9999999991".to_string())
    );
    let d = parse_duration("d", "18446744073709551615.9999999990".to_string()).unwrap();
    assert_eq!((d.as_secs(), d.subsec_nanos()), (u64::MAX, 999_999_999));
    assert_eq!(parse_duration("d", "".to_string()).unwrap_err().kind, ErrorKind::MalformedFloat);
}

#[test]
fn boolean_parsing() {
    assert_eq!(parse_bool("0".to_string(), "repeat").unwrap(), false);
    assert_eq!(parse_bool("1".to_string(), "repeat").unwrap(), true);
    for bad in ["", "2", "true", "01", "1 "] {
        let e = parse_bool(bad.to_string(), "repeat").unwrap_err();
        assert_eq!(e.field, "repeat");
        assert_eq!(e.kind, ErrorKind::InvalidValue(bad.to_string()));
    }
}

#[test]
fn integer_parsing() {
    assert_eq!(parse_integer("255".to_string(), "volume", 255).unwrap(), 255);
    assert_eq!(parse_integer("007".to_string(), "volume", 255).unwrap(), 7);
    assert_eq!(
        parse_integer("18446744073709551615".to_string(), "x", u64::MAX).unwrap(),
        u64::MAX
    );
    for bad in ["256", "", "-1", "1a", "18446744073709551616"] {
        let e = parse_integer(bad.to_string(), "volume", 255).unwrap_err();
        assert_eq!(e.kind, ErrorKind::MalformedInteger);
        assert_eq!(e.field, "volume");
    }
}

#[test]
fn status_modern() {
    let f = frame(&[
        ("volume", "50"),
        ("repeat", "1"),
        ("random", "0"),
        ("single", "oneshot"),
        ("consume", "0"),
        ("playlist", "7"),
        ("playlistlength", "3"),
        ("state", "play"),
        ("song", "1"),
        ("songid", "12"),
        ("elapsed", "10.250"),
        ("duration", "200.5"),
        ("bitrate", "320"),
        ("xfade", "2"),
        ("error", "oops"),
    ]);
    let st = Status::from_frame(f).unwrap();
    assert_eq!(st.volume, 50);
    assert_eq!(st.state, PlayState::Playing);
    assert!(st.repeat);
    assert!(!st.random);
    assert!(!st.consume);
    assert_eq!(st.single, SingleMode::Oneshot);
    assert_eq!(st.playlist_version, 7);
    assert_eq!(st.playlist_length, 3);
    assert_eq!(st.current_song, Some((SongPosition(1), SongId(12))));
    assert_eq!(st.next_song, None);
    let el = st.elapsed.unwrap();
    assert_eq!((el.as_secs(), el.subsec_nanos()), (10, 250_000_000));
    let du = st.duration.unwrap();
    assert_eq!((du.as_secs(), du.subsec_nanos()), (200, 500_000_000));
    assert_eq!(st.bitrate, Some(320));
    assert_eq!(st.crossfade.as_secs(), 2);
    assert_eq!(st.update_job, None);
    assert_eq!(st.error, Some("oops".to_string()));
    assert_eq!(st.partition, None);
}

#[test]
fn status_legacy_and_defaults() {
    let f = frame(&[
        ("state", "stop"),
        ("repeat", "0"),
        ("random", "0"),
        ("consume", "1"),
        ("time", "12:345"),
    ]);
    let st = Status::from_frame(f).unwrap();
    assert_eq!(st.single, SingleMode::Disabled);
    assert_eq!(st.volume, 0);
    assert_eq!(st.playlist_length, 0);
    assert_eq!(st.playlist_version, 0);
    assert_eq!(st.duration.unwrap().as_secs(), 345);
    assert_eq!(st.crossfade.as_secs(), 0);
    assert_eq!(st.state, PlayState::Stopped);
}

#[test]
fn status_errors() {
    let base = [("state", "pause"), ("repeat", "0"), ("random", "0"), ("consume", "0")];
    let mut f = frame(&base);
    f.push_field("time".to_string(), "12".to_string());
    let e = Status::from_frame(f).unwrap_err();
    assert_eq!(e.field, "time");
    assert_eq!(e.kind, ErrorKind::InvalidValue("12".to_string()));

    let e = Status::from_frame(frame(&[("repeat", "0"), ("random", "0"), ("consume", "0")]))
        .unwrap_err();
    assert_eq!(e.field, "state");
    assert_eq!(e.kind, ErrorKind::Missing);

    let mut f = frame(&base);
    f.push_field("song".to_string(), "3".to_string());
    let e = Status::from_frame(f).unwrap_err();
    assert_eq!(e.field, "songid");
    assert_eq!(e.kind, ErrorKind::Missing);

    let mut f = frame(&base);
    f.push_field("single".to_string(), "2".to_string());
    let e = Status::from_frame(f).unwrap_err();
    assert_eq!(e.kind, ErrorKind::InvalidValue("2".to_string()));
}

#[test]
fn stats_conversion() {
    let f = frame(&[
        ("artists", "1"),
        ("albums", "2"),
        ("songs", "3"),
        ("uptime", "4"),
        ("playtime", "5"),
        ("db_playtime", "6"),
        ("db_update", "7"),
    ]);
    let s = Stats::from_frame(f).unwrap();
    assert_eq!((s.artists, s.albums, s.songs, s.db_last_update), (1, 2, 3, 7));
    assert_eq!(
        (s.uptime.as_secs(), s.playtime.as_secs(), s.db_playtime.as_secs()),
        (4, 5, 6)
    );
    let e = Stats::from_frame(frame(&[("artists", "1")])).unwrap_err();
    assert_eq!(e.field, "albums");
}

#[test]
fn album_art_conversion() {
    assert_eq!(AlbumArt::from_frame(frame(&[("size", "3")])).unwrap(), None);
    let mut f = frame(&[("size", "3"), ("type", "image/png")]);
    f.set_binary(vec![1, 2, 3]);
    let a = AlbumArt::from_frame(f).unwrap().unwrap();
    assert_eq!(a.size, 3);
    assert_eq!(a.mime, Some("image/png".to_string()));
    assert_eq!(a.data(), &[1, 2, 3]);
    let mut f = frame(&[]);
    f.set_binary(vec![9]);
    assert_eq!(AlbumArt::from_frame(f).unwrap_err().kind, ErrorKind::Missing);
}

#[test]
fn consuming_reads() {
    let mut f = frame(&[("volume", "5"), ("volume", "7"), ("state", "nope")]);
    assert_eq!(value::<u8>(&mut f, "volume").unwrap(), 5);
    assert_eq!(optional_value::<u8>(&mut f, "volume").unwrap(), Some(7));
    assert_eq!(optional_value::<u8>(&mut f, "volume").unwrap(), None);
    let e = value::<PlayState>(&mut f, "state").unwrap_err();
    assert_eq!(e.kind, ErrorKind::InvalidValue("nope".to_string()));
    assert_eq!(f.fields_len(), 0);
    assert_eq!(value::<bool>(&mut f, "repeat").unwrap_err().kind, ErrorKind::Missing);
}

#[test]
fn frame_multimap() {
    let mut f = frame(&[("file", "a"), ("Title", "x"), ("file", "b")]);
    assert_eq!(f.find("file"), Some("a"));
    assert_eq!(f.values("file"), vec!["a".to_string(), "b".to_string()]);
    assert_eq!(f.fields_len(), 3);
    assert_eq!(f.get("file"), Some("a".to_string()));
    assert_eq!(f.get("file"), Some("b".to_string()));
    assert_eq!(f.get("file"), None);
    assert_eq!(f.fields_len(), 1);
    assert_eq!(f.take_binary(), None);
}

#[test]
fn listing_records() {
    let f = frame(&[
        ("directory", "x"),
        ("file", "a.mp3"),
        ("Title", "A"),
        ("file", "b.mp3"),
        ("Title", "B"),
        ("Artist", "C"),
    ]);
    let records = f.records("file");
    assert_eq!(records.len(), 2);
    assert_eq!(records[0].find("file"), Some("a.mp3"));
    assert_eq!(records[0].fields_len(), 2);
    assert_eq!(records[1].find("Title"), Some("B"));
    assert_eq!(records[1].find("Artist"), Some("C"));
    assert_eq!(records[1].fields_len(), 3);
    assert!(frame(&[("Title", "A")]).records("file").is_empty());
}
