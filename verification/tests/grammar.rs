use hls_parser::parser::attributes::Attributes;
use hls_parser::parser::grammar::{
    attribute_list, attribute_pair, attributes, master_playlist, quoted_value, tag,
    tag_and_attributes, tag_name, uri, value, variant_stream, Expected, ParseFailure,
};
use hls_parser::text::chars_of;

fn get_media_attributes() -> Attributes {
    let mut expected = Attributes::new();
    expected.insert("TYPE".to_string(), "AUDIO".to_string());
    expected.insert("GROUP-ID".to_string(), "aac-64k".to_string());
    expected.insert("NAME".to_string(), "English".to_string());
    expected.insert("LANGUAGE".to_string(), "en".to_string());
    expected.insert("DEFAULT".to_string(), "YES".to_string());
    expected.insert("AUTOSELECT".to_string(), "YES".to_string());
    expected.insert("CHANNELS".to_string(), "2".to_string());
    expected.insert(
        "URI".to_string(),
        "audio/unenc/aac_64k/vod.m3u8".to_string(),
    );
    expected
}

fn get_variant_stream_attributes() -> Attributes {
    let mut expected = Attributes::new();
    expected.insert("BANDWIDTH".to_string(), "2312764".to_string());
    expected.insert("AVERAGE-BANDWIDTH".to_string(), "1919803".to_string());
    expected.insert("CODECS".to_string(), "ec-3,hvc1.2.4.L63.90".to_string());
    expected.insert("RESOLUTION".to_string(), "640x360".to_string());
    expected.insert("FRAME-RATE".to_string(), "23.97".to_string());
    expected.insert("VIDEO-RANGE".to_string(), "PQ".to_string());
    expected.insert("AUDIO".to_string(), "atmos".to_string());
    expected.insert("CLOSED-CAPTIONS".to_string(), "NONE".to_string());
    expected
}

fn get_variant_attrs_with_uri() -> Attributes {
    let mut expected = get_variant_stream_attributes();
    expected.insert("URI".to_string(), "hdr10/unenc/900k/vod.m3u8".to_string());
    expected
}

fn get_i_frame_attributes() -> Attributes {
    let mut expected = Attributes::new();
    expected.insert("BANDWIDTH".to_string(), "77758".to_string());
    expected.insert("CODECS".to_string(), "hvc1.2.4.L63.90".to_string());
    expected.insert("RESOLUTION".to_string(), "640x360".to_string());
    expected.insert("VIDEO-RANGE".to_string(), "PQ".to_string());
    expected.insert(
        "URI".to_string(),
        "hdr10/unenc/900k/vod-iframe.m3u8".to_string(),
    );
    expected
}

#[test]
fn nom_parser_parses_all_tags() {
    let tags_str = "#EXTM3U\n#EXT-X-INDEPENDENT-SEGMENTS\n\n#EXT-X-MEDIA:TYPE=AUDIO,GROUP-ID=\"aac-64k\",NAME=\"English\",LANGUAGE=\"en\",DEFAULT=YES,AUTOSELECT=YES,CHANNELS=\"2\",URI=\"audio/unenc/aac_64k/vod.m3u8\"\n\n#EXT-X-STREAM-INF:BANDWIDTH=2312764,AVERAGE-BANDWIDTH=1919803,CODECS=\"ec-3,hvc1.2.4.L63.90\",RESOLUTION=640x360,FRAME-RATE=23.97,VIDEO-RANGE=PQ,AUDIO=\"atmos\",CLOSED-CAPTIONS=NONE\nhdr10/unenc/900k/vod.m3u8\n\n#EXT-X-I-FRAME-STREAM-INF:BANDWIDTH=77758,CODECS=\"hvc1.2.4.L63.90\",RESOLUTION=640x360,VIDEO-RANGE=PQ,URI=\"hdr10/unenc/900k/vod-iframe.m3u8\"\n\n";

    let parsed = master_playlist(&chars_of(tags_str));

    let expected = vec![
        ("EXTM3U".to_string(), Attributes::new()),
        ("EXT-X-INDEPENDENT-SEGMENTS".to_string(), Attributes::new()),
        ("EXT-X-MEDIA".to_string(), get_media_attributes()),
        ("EXT-X-STREAM-INF".to_string(), get_variant_attrs_with_uri()),
        (
            "EXT-X-I-FRAME-STREAM-INF".to_string(),
            get_i_frame_attributes(),
        ),
    ];

    assert_eq!(parsed, Ok(expected));
}

#[test]
fn nom_parser_parses_variant_stream() {
    let tags = "#EXT-X-STREAM-INF:BANDWIDTH=2312764,AVERAGE-BANDWIDTH=1919803,CODECS=\"ec-3,hvc1.2.4.L63.90\",RESOLUTION=640x360,FRAME-RATE=23.97,VIDEO-RANGE=PQ,AUDIO=\"atmos\",CLOSED-CAPTIONS=NONE\nhdr10/unenc/900k/vod.m3u8";
    let input = chars_of(tags);

    let parsed = variant_stream(&input, 0);

    assert_eq!(
        parsed,
        Ok((
            ("EXT-X-STREAM-INF".to_string(), get_variant_attrs_with_uri()),
            input.len()
        ))
    )
}

#[test]
fn nom_parser_parses_i_frame_attribute_list_into_key_value_map() {
    let attr_str = ":BANDWIDTH=77758,CODECS=\"hvc1.2.4.L63.90\",RESOLUTION=640x360,VIDEO-RANGE=PQ,URI=\"hdr10/unenc/900k/vod-iframe.m3u8\"";
    let input = chars_of(attr_str);

    let parsed = attributes(&input, 0);

    assert_eq!(parsed, Ok((get_i_frame_attributes(), input.len())))
}

#[test]
fn nom_parser_parses_media_attribute_list_into_key_value_map() {
    let attr_str = ":TYPE=AUDIO,GROUP-ID=\"aac-64k\",NAME=\"English\",LANGUAGE=\"en\",DEFAULT=YES,AUTOSELECT=YES,CHANNELS=\"2\",URI=\"audio/unenc/aac_64k/vod.m3u8\"";
    let input = chars_of(attr_str);

    let parsed = attributes(&input, 0);

    assert_eq!(parsed, Ok((get_media_attributes(), input.len())))
}

#[test]
fn nom_parser_parses_variant_stream_attribute_list_into_key_value_map() {
    let attr_str = ":BANDWIDTH=2312764,AVERAGE-BANDWIDTH=1919803,CODECS=\"ec-3,hvc1.2.4.L63.90\",RESOLUTION=640x360,FRAME-RATE=23.97,VIDEO-RANGE=PQ,AUDIO=\"atmos\",CLOSED-CAPTIONS=NONE";
    let input = chars_of(attr_str);
    let parsed = attributes(&input, 0);

    assert_eq!(parsed, Ok((get_variant_stream_attributes(), input.len())))
}

#[test]
fn nom_parser_parses_inner_list() {
    let attr_str = "\"ec-3,hvc1.2.4.L63.90\"";
    let input = chars_of(attr_str);
    assert_eq!(
        quoted_value(&input, 0),
        Ok(("ec-3,hvc1.2.4.L63.90".to_string(), input.len()))
    )
}

#[test]
fn nom_parser_parses_attribute_into_key_value() {
    let attr_str = "BANDWIDTH=2312764";
    let input = chars_of(attr_str);
    assert_eq!(
        attribute_pair(&input, 0),
        Ok((("BANDWIDTH".to_string(), "2312764".to_string()), input.len()))
    )
}

#[test]
fn nom_parser_parses_attribute_with_quoted_value_into_key_value() {
    let attr_str = "AUDIO=\"atmos\"";
    let input = chars_of(attr_str);
    assert_eq!(
        attribute_pair(&input, 0),
        Ok((("AUDIO".to_string(), "atmos".to_string()), input.len()))
    )
}

#[test]
fn nom_parser_parses_attribute_with_list_value_into_key_value() {
    let attr_str = "CODECS=\"ec-3,hvc1.2.4.L63.90\"";
    let input = chars_of(attr_str);
    assert_eq!(
        attribute_pair(&input, 0),
        Ok((
            ("CODECS".to_string(), "ec-3,hvc1.2.4.L63.90".to_string()),
            input.len()
        ))
    )
}

#[test]
fn nom_parser_parses_attribute_with_float_value_into_key_value() {
    let attr_str = "FRAME-RATE=23.97";
    let input = chars_of(attr_str);
    assert_eq!(
        attribute_pair(&input, 0),
        Ok((("FRAME-RATE".to_string(), "23.97".to_string()), input.len()))
    )
}

#[test]
fn nom_parser_parses_attribute_with_resolution_value_into_key_value() {
    let attr_str = "RESOLUTION=640x360";
    let input = chars_of(attr_str);
    assert_eq!(
        attribute_pair(&input, 0),
        Ok((("RESOLUTION".to_string(), "640x360".to_string()), input.len()))
    )
}

#[test]
fn strips_whitespace() {
    let input = chars_of(" \r\n\t#EXTM3U\n \n\t#EXT-X-INDEPENDENT-SEGMENTS\n\n \t");
    let expected = vec![
        ("EXTM3U".to_string(), Attributes::new()),
        ("EXT-X-INDEPENDENT-SEGMENTS".to_string(), Attributes::new()),
    ];
    assert_eq!(master_playlist(&input), Ok(expected));
}

#[test]
fn value_runs_to_comma_or_line_feed() {
    let input = chars_of("abc,def");
    assert_eq!(value(&input, 0), Ok(("abc".to_string(), 3)));
    let input = chars_of("abc\n\n  def");
    assert_eq!(value(&input, 0), Ok(("abc".to_string(), 7)));
    let input = chars_of("a b\tc");
    assert_eq!(value(&input, 0), Ok(("a b\tc".to_string(), 5)));
}

#[test]
fn value_needs_a_character() {
    let input = chars_of(",abc");
    assert_eq!(
        value(&input, 0),
        Err(ParseFailure {
            at: 0,
            expected: Expected::Value
        })
    );
    let input = chars_of("abc");
    assert_eq!(
        value(&input, 3),
        Err(ParseFailure {
            at: 3,
            expected: Expected::Value
        })
    );
}

#[test]
fn positions_past_the_end_are_failures() {
    let input = chars_of("A=1");
    assert_eq!(
        value(&input, 9),
        Err(ParseFailure {
            at: 9,
            expected: Expected::Value
        })
    );
    assert_eq!(
        quoted_value(&input, 9),
        Err(ParseFailure {
            at: 9,
            expected: Expected::OpeningQuote
        })
    );
    assert_eq!(
        attribute_pair(&input, 9),
        Err(ParseFailure {
            at: 9,
            expected: Expected::Equals
        })
    );
    assert_eq!(
        attribute_list(&input, 9),
        Err(ParseFailure {
            at: 9,
            expected: Expected::Equals
        })
    );
    assert_eq!(attributes(&input, 9), Ok((Attributes::new(), 9)));
    assert_eq!(
        tag(&input, 9),
        Err(ParseFailure {
            at: 9,
            expected: Expected::Hash
        })
    );
    assert_eq!(
        uri(&input, 9),
        Err(ParseFailure {
            at: 9,
            expected: Expected::Uri
        })
    );
}

#[test]
fn quoted_value_failures() {
    let input = chars_of("abc");
    assert_eq!(
        quoted_value(&input, 0),
        Err(ParseFailure {
            at: 0,
            expected: Expected::OpeningQuote
        })
    );
    let input = chars_of("\"\"");
    assert_eq!(
        quoted_value(&input, 0),
        Err(ParseFailure {
            at: 1,
            expected: Expected::QuotedText
        })
    );
    let input = chars_of("\"abc");
    assert_eq!(
        quoted_value(&input, 0),
        Err(ParseFailure {
            at: 4,
            expected: Expected::ClosingQuote
        })
    );
}

#[test]
fn quoted_value_steps_over_what_follows() {
    let input = chars_of("\"a,b\" \n x");
    assert_eq!(quoted_value(&input, 0), Ok(("a,b".to_string(), 8)));
}

#[test]
fn unclosed_quote_is_read_as_unquoted() {
    let input = chars_of("K=\"abc,L=1");
    assert_eq!(
        attribute_pair(&input, 0),
        Ok((("K".to_string(), "\"abc".to_string()), 6))
    );
}

#[test]
fn pair_needs_equals() {
    let input = chars_of("BANDWIDTH");
    assert_eq!(
        attribute_pair(&input, 0),
        Err(ParseFailure {
            at: 0,
            expected: Expected::Equals
        })
    );
    let input = chars_of("");
    assert_eq!(
        attribute_pair(&input, 0),
        Err(ParseFailure {
            at: 0,
            expected: Expected::Equals
        })
    );
    let input = chars_of("K=");
    assert_eq!(
        attribute_pair(&input, 0),
        Err(ParseFailure {
            at: 2,
            expected: Expected::Value
        })
    );
}

#[test]
fn later_pair_replaces_earlier_one() {
    let input = chars_of("A=1,B=2,A=3");
    let (found, next) = attribute_list(&input, 0).unwrap();
    assert_eq!(next, 11);
    assert_eq!(found.len(), 2);
    assert_eq!(found.get("A"), Some(&"3".to_string()));
    assert_eq!(found.get("B"), Some(&"2".to_string()));
    assert_eq!(found.get("C"), None);
}

#[test]
fn list_needs_a_pair_after_each_comma() {
    let input = chars_of("A=1,");
    assert_eq!(
        attribute_list(&input, 0),
        Err(ParseFailure {
            at: 4,
            expected: Expected::Equals
        })
    );
}

#[test]
fn quoted_comma_stays_in_one_value() {
    let input = chars_of("CODECS=\"ec-3,hvc1.2.4.L63.90\"");
    let (found, next) = attribute_list(&input, 0).unwrap();
    assert_eq!(next, input.len());
    assert_eq!(found.len(), 1);
    assert_eq!(found.get("CODECS"), Some(&"ec-3,hvc1.2.4.L63.90".to_string()));
}

#[test]
fn tag_name_rules() {
    let input = chars_of("#EXTM3U\n");
    assert_eq!(tag_name(&input, 0), Ok(("EXTM3U".to_string(), 7)));
    let input = chars_of("#EXT-X-MEDIA:TYPE=AUDIO");
    assert_eq!(tag_name(&input, 0), Ok(("EXT-X-MEDIA".to_string(), 12)));
    let input = chars_of("EXTM3U");
    assert_eq!(
        tag_name(&input, 0),
        Err(ParseFailure {
            at: 0,
            expected: Expected::Hash
        })
    );
    let input = chars_of("#:A=1");
    assert_eq!(
        tag_name(&input, 0),
        Err(ParseFailure {
            at: 1,
            expected: Expected::TagName
        })
    );
}

#[test]
fn tag_without_colon_has_no_attributes() {
    let input = chars_of("#EXTM3U\n#NEXT");
    assert_eq!(
        tag_and_attributes(&input, 0),
        Ok((("EXTM3U".to_string(), Attributes::new()), 7))
    );
}

#[test]
fn colon_needs_a_list() {
    let input = chars_of("#EXT-X-FOO:garbage\n");
    assert_eq!(
        tag_and_attributes(&input, 0),
        Err(ParseFailure {
            at: 11,
            expected: Expected::Equals
        })
    );
}

#[test]
fn uri_must_not_start_with_hash() {
    let input = chars_of("#EXTM3U");
    assert_eq!(
        uri(&input, 0),
        Err(ParseFailure {
            at: 0,
            expected: Expected::Uri
        })
    );
    let input = chars_of("");
    assert_eq!(
        uri(&input, 0),
        Err(ParseFailure {
            at: 0,
            expected: Expected::Uri
        })
    );
    let input = chars_of("a/b.m3u8\n");
    assert_eq!(uri(&input, 0), Ok(("a/b.m3u8".to_string(), 9)));
}

#[test]
fn only_the_variant_stream_tag_takes_a_uri_line() {
    let input = chars_of("#EXT-X-STREAM-INF:A=1\n\nsome/uri\n#NEXT");
    let mut expected = Attributes::new();
    expected.insert("A".to_string(), "1".to_string());
    expected.insert("URI".to_string(), "some/uri".to_string());
    assert_eq!(
        tag(&input, 0),
        Ok((("EXT-X-STREAM-INF".to_string(), expected), 32))
    );

    let input = chars_of("#EXT-X-MEDIA:A=1\nsome/uri\n");
    let mut expected = Attributes::new();
    expected.insert("A".to_string(), "1".to_string());
    assert_eq!(
        tag(&input, 0),
        Ok((("EXT-X-MEDIA".to_string(), expected), 17))
    );
    assert_eq!(
        master_playlist(&input),
        Err(ParseFailure {
            at: 17,
            expected: Expected::Hash
        })
    );
}

#[test]
fn variant_stream_tag_needs_its_uri_line() {
    let input = chars_of("#EXT-X-STREAM-INF:A=1\n#EXT-X-MEDIA:B=2\n");
    assert_eq!(
        tag(&input, 0),
        Err(ParseFailure {
            at: 22,
            expected: Expected::Uri
        })
    );
}

#[test]
fn empty_document_is_no_playlist() {
    assert_eq!(
        master_playlist(&chars_of("")),
        Err(ParseFailure {
            at: 0,
            expected: Expected::Hash
        })
    );
    assert_eq!(
        master_playlist(&chars_of(" \n ")),
        Err(ParseFailure {
            at: 3,
            expected: Expected::Hash
        })
    );
}

#[test]
fn trailing_text_is_refused() {
    assert_eq!(
        master_playlist(&chars_of("#EXTM3U\ngarbage")),
        Err(ParseFailure {
            at: 8,
            expected: Expected::Hash
        })
    );
}
