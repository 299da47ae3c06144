use hls_parser::errors::Error;
use hls_parser::models::{
    IFrame, MasterPlaylist, MediaTag, MediaType, Resolution, VariantStream, VideoRange,
};
use hls_parser::parse_hls;
use hls_parser::parser::attributes::Attributes;
use hls_parser::parser::grammar::{Expected, ParseFailure};
use hls_parser::parser::HLSParser;

const PLAYLIST: &str = "#EXTM3U\n#EXT-X-MEDIA:TYPE=AUDIO,GROUP-ID=\"aac-64k\",NAME=\"English\",LANGUAGE=\"en\",DEFAULT=YES,AUTOSELECT=YES,CHANNELS=\"2\",URI=\"audio/unenc/aac_64k/vod.m3u8\"\n\n#EXT-X-STREAM-INF:BANDWIDTH=2312764,AVERAGE-BANDWIDTH=1919803,CODECS=\"ec-3,hvc1.2.4.L63.90\",RESOLUTION=640x360,FRAME-RATE=23.97,VIDEO-RANGE=PQ,AUDIO=\"atmos\",CLOSED-CAPTIONS=NONE\nhdr10/unenc/900k/vod.m3u8\n\n#EXT-X-I-FRAME-STREAM-INF:BANDWIDTH=77758,CODECS=\"hvc1.2.4.L63.90\",RESOLUTION=640x360,VIDEO-RANGE=PQ,URI=\"hdr10/unenc/900k/vod-iframe.m3u8\"\n";

#[test]
fn reads_a_whole_playlist() {
    let playlist = parse_hls(PLAYLIST).unwrap();

    assert_eq!(playlist.basic_tags(), &vec!["EXTM3U".to_string()]);
    assert_eq!(
        playlist.media_tags(),
        &vec![MediaTag {
            media_type: MediaType::Audio,
            group_id: "aac-64k".to_string(),
            name: "English".to_string(),
            language: "en".to_string(),
            default: "YES".to_string(),
            autoselect: "YES".to_string(),
            channels: "2".to_string(),
            uri: "audio/unenc/aac_64k/vod.m3u8".to_string(),
        }]
    );
    assert_eq!(
        playlist.variant_streams(),
        &vec![VariantStream {
            uri: "hdr10/unenc/900k/vod.m3u8".to_string(),
            bandwidth: 2312764,
            average_bandwidth: 1919803,
            codecs: "ec-3,hvc1.2.4.L63.90".to_string(),
            resolution: Resolution {
                width: 640,
                height: 360
            },
            video_range: VideoRange::PQ,
            frame_rate: "23.97".to_string(),
            audio: "atmos".to_string(),
            closed_captions: "NONE".to_string(),
        }]
    );
    assert_eq!(
        playlist.i_frames(),
        &vec![IFrame {
            bandwidth: 77758,
            codecs: "hvc1.2.4.L63.90".to_string(),
            resolution: Resolution {
                width: 640,
                height: 360
            },
            video_range: VideoRange::PQ,
            uri: "hdr10/unenc/900k/vod-iframe.m3u8".to_string(),
        }]
    );
}

#[test]
fn variant_stream_without_uri_line_is_an_error() {
    let outcome = parse_hls("#EXT-X-STREAM-INF:BANDWIDTH=100\n");
    assert_eq!(
        outcome,
        Err(Error::Parse(
            "expected the URI line of a variant stream at character 32".to_string()
        ))
    );
}

#[test]
fn incomplete_variant_stream_is_a_format_error() {
    let outcome = parse_hls("#EXT-X-STREAM-INF:BANDWIDTH=100\nsome/uri.m3u8\n");
    assert_eq!(
        outcome,
        Err(Error::HLSFormat(
            "HLS missing AVERAGE-BANDWIDTH".to_string()
        ))
    );
}

#[test]
fn grammar_errors_say_what_was_needed_and_where() {
    assert_eq!(
        parse_hls(""),
        Err(Error::Parse(
            "expected '#' to start a tag at character 0".to_string()
        ))
    );
    assert_eq!(
        parse_hls("#EXTM3U\nhello"),
        Err(Error::Parse(
            "expected '#' to start a tag at character 8".to_string()
        ))
    );
    assert_eq!(
        parse_hls("#\n"),
        Err(Error::Parse(
            "expected the name of a tag at character 1".to_string()
        ))
    );
    assert_eq!(
        parse_hls("#EXT-X-MEDIA:TYPE"),
        Err(Error::Parse(
            "expected '=' after an attribute key at character 13".to_string()
        ))
    );
    assert_eq!(
        parse_hls("#EXT-X-MEDIA:TYPE=,A=1"),
        Err(Error::Parse(
            "expected an attribute value at character 18".to_string()
        ))
    );
}

#[test]
fn failure_becomes_parse_error() {
    let failure = ParseFailure {
        at: 120,
        expected: Expected::ClosingQuote,
    };
    assert_eq!(
        Error::from(failure),
        Error::Parse("expected a closing quote at character 120".to_string())
    );
    assert_eq!(
        ParseFailure {
            at: 0,
            expected: Expected::OpeningQuote
        }
        .describe(),
        "expected an opening quote at character 0"
    );
    assert_eq!(
        ParseFailure {
            at: 7,
            expected: Expected::QuotedText
        }
        .describe(),
        "expected text between quotes at character 7"
    );
}

#[test]
fn parser_keeps_the_order_of_the_document() {
    let parser = HLSParser {};
    let records = parser.parse("#B\n#A\n#EXT-X-MEDIA:K=V\n#C\n").unwrap();
    let names: Vec<&str> = records.iter().map(|record| record.0.as_str()).collect();
    assert_eq!(names, vec!["B", "A", "EXT-X-MEDIA", "C"]);
    assert_eq!(records[2].1.get("K"), Some(&"V".to_string()));
    assert!(records[0].1.is_empty());

    assert_eq!(
        parser.parse("B\n"),
        Err(Error::Parse(
            "expected '#' to start a tag at character 0".to_string()
        ))
    );
}

#[test]
fn unknown_tag_with_attributes_is_rejected() {
    let mut attributes = Attributes::new();
    attributes.insert("A".to_string(), "1".to_string());
    let records = vec![
        ("EXTM3U".to_string(), Attributes::new()),
        ("EXT-X-FOO".to_string(), attributes),
    ];
    assert_eq!(
        MasterPlaylist::try_from(records),
        Err(Error::HLSFormat(
            "Unknown tag with attributes found: EXT-X-FOO".to_string()
        ))
    );
    assert_eq!(
        parse_hls("#EXTM3U\n#EXT-X-FOO:A=1\n"),
        Err(Error::HLSFormat(
            "Unknown tag with attributes found: EXT-X-FOO".to_string()
        ))
    );
}

#[test]
fn unknown_tag_without_attributes_is_a_basic_tag() {
    let records = vec![("EXT-X-FOO".to_string(), Attributes::new())];
    let playlist = MasterPlaylist::try_from(records).unwrap();
    assert_eq!(playlist.basic_tags(), &vec!["EXT-X-FOO".to_string()]);
    assert!(playlist.variant_streams().is_empty());
    assert!(playlist.media_tags().is_empty());
    assert!(playlist.i_frames().is_empty());
}

#[test]
fn first_rejected_record_gives_the_cause() {
    let mut unknown = Attributes::new();
    unknown.insert("A".to_string(), "1".to_string());
    let records = vec![
        ("EXTM3U".to_string(), Attributes::new()),
        ("EXT-X-MEDIA".to_string(), Attributes::new()),
        ("EXT-X-FOO".to_string(), unknown),
    ];
    assert_eq!(
        MasterPlaylist::try_from(records),
        Err(Error::HLSFormat("HLS missing TYPE".to_string()))
    );
}

#[test]
fn lists_come_out_in_canonical_order() {
    let text = "#ZULU\n#EXT-X-I-FRAME-STREAM-INF:BANDWIDTH=222552,CODECS=\"b\",RESOLUTION=1280x720,VIDEO-RANGE=PQ,URI=\"u1\"\n#EXT-X-I-FRAME-STREAM-INF:BANDWIDTH=77758,CODECS=\"z\",RESOLUTION=640x360,VIDEO-RANGE=PQ,URI=\"u2\"\n#ALPHA\n#EXT-X-I-FRAME-STREAM-INF:BANDWIDTH=222552,CODECS=\"a\",RESOLUTION=1280x720,VIDEO-RANGE=SDR,URI=\"u3\"\n#EXT-X-MEDIA:TYPE=SUBTITLES,GROUP-ID=\"a\",NAME=\"n\",LANGUAGE=\"en\",DEFAULT=YES,AUTOSELECT=YES,CHANNELS=\"2\",URI=\"m1\"\n#EXT-X-MEDIA:TYPE=AUDIO,GROUP-ID=\"z\",NAME=\"n\",LANGUAGE=\"en\",DEFAULT=YES,AUTOSELECT=YES,CHANNELS=\"2\",URI=\"m2\"\n#EXT-X-MEDIA:TYPE=CLOSED-CAPTIONS,GROUP-ID=\"a\",NAME=\"n\",LANGUAGE=\"en\",DEFAULT=YES,AUTOSELECT=YES,CHANNELS=\"2\",URI=\"m3\"\n#EXT-X-MEDIA:TYPE=VIDEO,GROUP-ID=\"a\",NAME=\"n\",LANGUAGE=\"en\",DEFAULT=YES,AUTOSELECT=YES,CHANNELS=\"2\",URI=\"m4\"\n#EXT-X-STREAM-INF:BANDWIDTH=9,AVERAGE-BANDWIDTH=1,CODECS=\"c\",RESOLUTION=1x1,FRAME-RATE=1,VIDEO-RANGE=PQ,AUDIO=\"a\",CLOSED-CAPTIONS=NONE\nb/uri\n#EXT-X-STREAM-INF:BANDWIDTH=10,AVERAGE-BANDWIDTH=1,CODECS=\"c\",RESOLUTION=1x1,FRAME-RATE=1,VIDEO-RANGE=PQ,AUDIO=\"a\",CLOSED-CAPTIONS=NONE\na/uri\n#EXT-X-STREAM-INF:BANDWIDTH=9,AVERAGE-BANDWIDTH=1,CODECS=\"c\",RESOLUTION=1x1,FRAME-RATE=1,VIDEO-RANGE=PQ,AUDIO=\"a\",CLOSED-CAPTIONS=NONE\na/uri\n";
    let playlist = parse_hls(text).unwrap();

    assert_eq!(
        playlist.basic_tags(),
        &vec!["ALPHA".to_string(), "ZULU".to_string()]
    );
    let frames: Vec<&str> = playlist
        .i_frames()
        .iter()
        .map(|frame| frame.uri.as_str())
        .collect();
    assert_eq!(frames, vec!["u2", "u3", "u1"]);
    let media: Vec<&str> = playlist
        .media_tags()
        .iter()
        .map(|tag| tag.uri.as_str())
        .collect();
    assert_eq!(media, vec!["m2", "m4", "m1", "m3"]);
    let streams: Vec<(&str, u32)> = playlist
        .variant_streams()
        .iter()
        .map(|stream| (stream.uri.as_str(), stream.bandwidth))
        .collect();
    assert_eq!(streams, vec![("a/uri", 9), ("a/uri", 10), ("b/uri", 9)]);
}

#[test]
fn order_of_the_document_does_not_show() {
    let one = parse_hls("#B\n#A\n#C\n").unwrap();
    let other = parse_hls("#C\n#B\n#A\n").unwrap();
    assert_eq!(one, other);
    assert_eq!(
        one.basic_tags(),
        &vec!["A".to_string(), "B".to_string(), "C".to_string()]
    );
}

#[test]
fn error_lines() {
    assert_eq!(
        Error::HTTP("timed out".to_string()).to_string(),
        "API Error: timed out"
    );
    assert_eq!(
        Error::Parse("expected a closing quote at character 3".to_string()).to_string(),
        "Parse Error: expected a closing quote at character 3"
    );
    assert_eq!(
        Error::HLSFormat("HLS missing URI".to_string()).to_string(),
        "Invalid HLS: HLS missing URI"
    );
}
