use hls_parser::errors::Error;
use hls_parser::models::{
    IFrame, MasterPlaylist, MediaTag, MediaType, Resolution, VariantStream, VideoRange,
};
use hls_parser::parser::attributes::Attributes;

#[test]
fn builds_variant_stream_from_parser_type() {
    let parsed_tags = given_parsed_types_of_each_tag();

    // When we convert them into a MasterPlaylist
    let typed: MasterPlaylist = parsed_tags.try_into().unwrap();

    // Then we can get the converted variant stream
    assert_eq!(
        typed.variant_streams().first().unwrap(),
        &variant_stream_example()
    );

    // And we can get the converted media tag
    assert_eq!(typed.media_tags().first().unwrap(), &media_tag_example());

    // And we can get the converted I Frame tag
    assert_eq!(typed.i_frames().first().unwrap(), &i_frame_example());

    // And we can get the converted basic tag
    assert_eq!(typed.basic_tags().first().unwrap(), &"EXTM3U".to_string());
}

#[test]
fn rejects_bad_variant_stream() {
    let bad_tag = vec![("EXT-X-STREAM-INF".to_string(), Attributes::new())];

    let typed = MasterPlaylist::try_from(bad_tag);

    assert!(matches!(typed.unwrap_err(), Error::HLSFormat { .. }))
}

#[test]
fn rejects_bad_i_frame() {
    let bad_tag = vec![("EXT-X-I-FRAME-STREAM-INF".to_string(), Attributes::new())];

    let typed = MasterPlaylist::try_from(bad_tag);

    assert!(matches!(typed.unwrap_err(), Error::HLSFormat { .. }))
}

#[test]
fn rejects_bad_media_tag() {
    let bad_tag = vec![("EXT-X-MEDIA".to_string(), Attributes::new())];

    let typed = MasterPlaylist::try_from(bad_tag);

    assert!(matches!(typed.unwrap_err(), Error::HLSFormat { .. }))
}

fn given_parsed_types_of_each_tag() -> Vec<(String, Attributes)> {
    let mut variant_stream_attributes = Attributes::new();
    variant_stream_attributes.insert("BANDWIDTH".to_string(), "2483789".to_string());
    variant_stream_attributes.insert("AVERAGE-BANDWIDTH".to_string(), "1762745".to_string());
    variant_stream_attributes.insert(
        "CODECS".to_string(),
        "mp4a.40.2,hvc1.2.4.L90.90".to_string(),
    );
    variant_stream_attributes.insert("RESOLUTION".to_string(), "11960x55540".to_string());
    variant_stream_attributes.insert("FRAME-RATE".to_string(), "23.97".to_string());
    variant_stream_attributes.insert("VIDEO-RANGE".to_string(), "PQ".to_string());
    variant_stream_attributes.insert("AUDIO".to_string(), "aac-128k".to_string());
    variant_stream_attributes.insert("CLOSED-CAPTIONS".to_string(), "NONE".to_string());
    variant_stream_attributes.insert("URI".to_string(), "hdr10/unenc/1650k/vod.m3u8".to_string());

    let variant_stream = ("EXT-X-STREAM-INF".to_string(), variant_stream_attributes);

    let mut media_attributes = Attributes::new();
    media_attributes.insert("TYPE".to_string(), "AUDIO".to_string());
    media_attributes.insert("GROUP-ID".to_string(), "aac-64k".to_string());
    media_attributes.insert("NAME".to_string(), "English".to_string());
    media_attributes.insert("LANGUAGE".to_string(), "en".to_string());
    media_attributes.insert("DEFAULT".to_string(), "YES".to_string());
    media_attributes.insert("AUTOSELECT".to_string(), "YES".to_string());
    media_attributes.insert("CHANNELS".to_string(), "2".to_string());
    media_attributes.insert(
        "URI".to_string(),
        "audio/unenc/aac_64k/vod.m3u8".to_string(),
    );

    let media_tag = ("EXT-X-MEDIA".to_string(), media_attributes);

    let mut i_frame_attributes = Attributes::new();
    i_frame_attributes.insert("BANDWIDTH".to_string(), "77758".to_string());
    i_frame_attributes.insert("CODECS".to_string(), "hvc1.2.4.L63.90".to_string());
    i_frame_attributes.insert("RESOLUTION".to_string(), "640x360".to_string());
    i_frame_attributes.insert("VIDEO-RANGE".to_string(), "PQ".to_string());
    i_frame_attributes.insert(
        "URI".to_string(),
        "hdr10/unenc/900k/vod-iframe.m3u8".to_string(),
    );

    let i_frame = ("EXT-X-I-FRAME-STREAM-INF".to_string(), i_frame_attributes);

    let basic_tag = ("EXTM3U".to_string(), Attributes::new());
    vec![variant_stream, basic_tag, media_tag, i_frame]
}

fn variant_stream_example() -> VariantStream {
    VariantStream {
        uri: "hdr10/unenc/1650k/vod.m3u8".to_string(),
        bandwidth: 2483789,
        average_bandwidth: 1762745,
        codecs: "mp4a.40.2,hvc1.2.4.L90.90".to_string(),
        resolution: Resolution {
            width: 11960,
            height: 55540,
        },
        video_range: VideoRange::PQ,
        frame_rate: "23.97".to_string(),
        audio: "aac-128k".to_string(),
        closed_captions: "NONE".to_string(),
    }
}

fn media_tag_example() -> MediaTag {
    MediaTag {
        media_type: MediaType::Audio,
        group_id: "aac-64k".to_string(),
        name: "English".to_string(),
        language: "en".to_string(),
        default: "YES".to_string(),
        autoselect: "YES".to_string(),
        channels: "2".to_string(),
        uri: "audio/unenc/aac_64k/vod.m3u8".to_string(),
    }
}

fn i_frame_example() -> IFrame {
    IFrame {
        bandwidth: 77758,
        codecs: "hvc1.2.4.L63.90".to_string(),
        resolution: Resolution {
            width: 640,
            height: 360,
        },
        video_range: VideoRange::PQ,
        uri: "hdr10/unenc/900k/vod-iframe.m3u8".to_string(),
    }
}
