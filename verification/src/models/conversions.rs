use vstd::prelude::*;
use vstd::string::StringExecFns;
use vstd::std_specs::convert::{FromSpecImpl, TryFromSpecImpl};
use crate::errors::{Error, ErrorView};
use crate::models::order::{canonical, lemma_canonical_is_idempotent, sort, views};
use crate::models::{
    IFrame, IFrameView, MasterPlaylist, MasterPlaylistView, MediaTag, MediaTagView, MediaType,
    Resolution, VariantStream, VariantStreamView, VideoRange,
};
use crate::parser::grammar::record_texts;
use crate::number::{parse_unsigned, unsigned_rule, NumberError};
use crate::parser::attributes::Attributes;
use crate::parser::scan::{find_either, first_of};
use crate::text::{chars_of, same_text};

verus! {

/// The cause reported for a required attribute that a record lacks.
pub open spec fn missing(key: Seq<char>) -> Seq<char> {
    "HLS missing "@ + key
}

/// The cause for which a coercion fails, if it does.
pub open spec fn cause_of<T>(coerced: Result<T, Seq<char>>) -> Option<Seq<char>> {
    match coerced {
        Ok(_) => None,
        Err(cause) => Some(cause),
    }
}

/// The cause reported where `key` is absent from `attributes`.
pub open spec fn absent(attributes: Map<Seq<char>, Seq<char>>, key: Seq<char>) -> Option<
    Seq<char>,
> {
    if attributes.contains_key(key) {
        None
    } else {
        Some(missing(key))
    }
}

/// Causes are looked for in a fixed order, and the first one found is the
/// one reported.
pub trait FirstCause {
    /// `self` where it is a cause, `later` otherwise.
    spec fn otherwise(self, later: Self) -> Self;
}

impl FirstCause for Option<Seq<char>> {
    open spec fn otherwise(self, later: Self) -> Self {
        if self is Some {
            self
        } else {
            later
        }
    }
}

/// The bit rate that `text` names: an unsigned decimal number of 32 bits.
pub open spec fn bit_rate_of(text: Seq<char>) -> Result<u32, Seq<char>> {
    match unsigned_rule(text, u32::MAX as nat) {
        Ok(n) => Ok(n as u32),
        Err(cause) => Err(cause.message()),
    }
}

/// The resolution that `text` names: width and height as unsigned decimal
/// numbers, with the first `x` or `X` between them.
pub open spec fn resolution_of(text: Seq<char>) -> Result<Resolution, Seq<char>> {
    let cross = first_of(text, 0, 'x', 'X');
    match unsigned_rule(text.take(cross), usize::MAX as nat) {
        Err(cause) => Err(cause.message()),
        Ok(width) => if cross >= text.len() {
            Err("Could not find height in resolution"@)
        } else {
            match unsigned_rule(text.skip(cross + 1), usize::MAX as nat) {
                Err(cause) => Err(cause.message()),
                Ok(height) => Ok(Resolution { width: width as usize, height: height as usize }),
            }
        },
    }
}

/// The video range that a `VIDEO-RANGE` value names.
pub open spec fn video_range_of(text: Seq<char>) -> Result<VideoRange, Seq<char>> {
    if text == "PQ"@ {
        Ok(VideoRange::PQ)
    } else if text == "SDR"@ {
        Ok(VideoRange::SDR)
    } else {
        Err("Invalid video range specified: "@ + text)
    }
}

/// The media type that a `TYPE` value names.
pub open spec fn media_type_of(text: Seq<char>) -> Result<MediaType, Seq<char>> {
    if text == "CLOSED-CAPTIONS"@ {
        Ok(MediaType::ClosedCaptions)
    } else if text == "AUDIO"@ {
        Ok(MediaType::Audio)
    } else if text == "VIDEO"@ {
        Ok(MediaType::Video)
    } else if text == "SUBTITLES"@ {
        Ok(MediaType::Subtitles)
    } else {
        Err("Invalid media type specified: "@ + text)
    }
}

/// Whether `r` is the outcome that `expected` states: the same value, or a
/// format error with the same cause.
pub open spec fn is_outcome<T>(r: Result<T, Error>, expected: Result<T, Seq<char>>) -> bool {
    match (r, expected) {
        (Ok(value), Ok(stated)) => value == stated,
        (Err(e), Err(cause)) => e@ == ErrorView::HLSFormat(cause),
        _ => false,
    }
}

/// The conversion is stated over the text of the cause, in `from`.
impl FromSpecImpl<NumberError> for Error {
    open spec fn obeys_from_spec() -> bool {
        false
    }

    open spec fn from_spec(cause: NumberError) -> Error {
        arbitrary()
    }
}

/// A text that is no number is a format error whose cause says why it is
/// none.
impl From<NumberError> for Error {
    fn from(cause: NumberError) -> (e: Error)
        ensures
            e@ == ErrorView::HLSFormat(cause.message()),
    {
        Error::HLSFormat(cause.describe())
    }
}

/// Reads `text` as a bit rate.
pub fn parse_bit_rate(text: &String) -> (r: Result<u32, Error>)
    ensures
        is_outcome(r, bit_rate_of(text@)),
{
    let chars = chars_of(text.as_str());
    assert(chars@.subrange(0, chars@.len() as int) =~= text@);
    match parse_unsigned(chars.as_slice(), 0, chars.len(), u32::MAX as u64) {
        Ok(n) => Ok(n as u32),
        Err(cause) => Err(Error::from(cause)),
    }
}

/// The conversion is stated over the text of the value, in `try_from`.
impl TryFromSpecImpl<String> for Resolution {
    open spec fn obeys_try_from_spec() -> bool {
        false
    }

    open spec fn try_from_spec(res: String) -> Result<Self, Error> {
        arbitrary()
    }
}

impl TryFrom<String> for Resolution {
    type Error = Error;

    fn try_from(res: String) -> (r: Result<Self, Error>)
        ensures
            is_outcome(r, resolution_of(res@)),
    {
        let chars = chars_of(res.as_str());
        let cross = find_either(chars.as_slice(), 0, 'x', 'X');
        let width = match parse_unsigned(chars.as_slice(), 0, cross, usize::MAX as u64) {
            Ok(n) => n as usize,
            Err(cause) => {
                return Err(Error::from(cause));
            },
        };
        if cross >= chars.len() {
            return Err(Error::HLSFormat(String::from_str("Could not find height in resolution")));
        }
        let height = match parse_unsigned(
            chars.as_slice(),
            cross + 1,
            chars.len(),
            usize::MAX as u64,
        ) {
            Ok(n) => n as usize,
            Err(cause) => {
                return Err(Error::from(cause));
            },
        };
        Ok(Resolution { width, height })
    }
}

/// The conversion is stated over the text of the value, in `try_from`.
impl TryFromSpecImpl<&String> for MediaType {
    open spec fn obeys_try_from_spec() -> bool {
        false
    }

    open spec fn try_from_spec(media_type: &String) -> Result<Self, Error> {
        arbitrary()
    }
}

impl TryFrom<&String> for MediaType {
    type Error = Error;

    fn try_from(media_type: &String) -> (r: Result<Self, Error>)
        ensures
            is_outcome(r, media_type_of(media_type@)),
    {
        if same_text(media_type.as_str(), "CLOSED-CAPTIONS") {
            Ok(MediaType::ClosedCaptions)
        } else if same_text(media_type.as_str(), "AUDIO") {
            Ok(MediaType::Audio)
        } else if same_text(media_type.as_str(), "VIDEO") {
            Ok(MediaType::Video)
        } else if same_text(media_type.as_str(), "SUBTITLES") {
            Ok(MediaType::Subtitles)
        } else {
            Err(
                Error::HLSFormat(
                    String::from_str("Invalid media type specified: ").concat(media_type.as_str()),
                ),
            )
        }
    }
}

/// The conversion is stated over the text of the value, in `try_from`.
impl TryFromSpecImpl<&String> for VideoRange {
    open spec fn obeys_try_from_spec() -> bool {
        false
    }

    open spec fn try_from_spec(video_range: &String) -> Result<Self, Error> {
        arbitrary()
    }
}

impl TryFrom<&String> for VideoRange {
    type Error = Error;

    fn try_from(video_range: &String) -> (r: Result<Self, Error>)
        ensures
            is_outcome(r, video_range_of(video_range@)),
    {
        if same_text(video_range.as_str(), "PQ") {
            Ok(VideoRange::PQ)
        } else if same_text(video_range.as_str(), "SDR") {
            Ok(VideoRange::SDR)
        } else {
            Err(
                Error::HLSFormat(
                    String::from_str("Invalid video range specified: ").concat(
                        video_range.as_str(),
                    ),
                ),
            )
        }
    }
}

/// The value stored under `key`, or the format error that names `key` as
/// missing.
pub fn required<'a>(attributes: &'a Attributes, key: &str) -> (r: Result<&'a String, Error>)
    ensures
        match r {
            Ok(value) => attributes@.contains_key(key@) && value@ == attributes@[key@],
            Err(e) => !attributes@.contains_key(key@) && e@ == ErrorView::HLSFormat(missing(key@)),
        },
{
    match attributes.get(key) {
        Some(value) => Ok(value),
        None => Err(Error::HLSFormat(String::from_str("HLS missing ").concat(key))),
    }
}

/// The first cause, in the order of the fields, for which `attributes` make
/// no variant stream: a required attribute is absent, or its value is not of
/// the kind that the field holds.
pub open spec fn variant_stream_cause(attributes: Map<Seq<char>, Seq<char>>) -> Option<Seq<char>> {
    absent(attributes, "URI"@)
        .otherwise(absent(attributes, "BANDWIDTH"@))
        .otherwise(cause_of(bit_rate_of(attributes["BANDWIDTH"@])))
        .otherwise(absent(attributes, "AVERAGE-BANDWIDTH"@))
        .otherwise(cause_of(bit_rate_of(attributes["AVERAGE-BANDWIDTH"@])))
        .otherwise(absent(attributes, "CODECS"@))
        .otherwise(absent(attributes, "RESOLUTION"@))
        .otherwise(cause_of(resolution_of(attributes["RESOLUTION"@])))
        .otherwise(absent(attributes, "VIDEO-RANGE"@))
        .otherwise(cause_of(video_range_of(attributes["VIDEO-RANGE"@])))
        .otherwise(absent(attributes, "FRAME-RATE"@))
        .otherwise(absent(attributes, "AUDIO"@))
        .otherwise(absent(attributes, "CLOSED-CAPTIONS"@))
}

/// The variant stream that `attributes` describe: each field from the
/// attribute of its name, numbers, resolution and video range coerced, every
/// other value as it stands.
pub open spec fn variant_stream_of(attributes: Map<Seq<char>, Seq<char>>) -> Result<
    VariantStreamView,
    Seq<char>,
> {
    match variant_stream_cause(attributes) {
        Some(cause) => Err(cause),
        None => Ok(
            VariantStreamView {
                uri: attributes["URI"@],
                bandwidth: bit_rate_of(attributes["BANDWIDTH"@])->Ok_0,
                average_bandwidth: bit_rate_of(attributes["AVERAGE-BANDWIDTH"@])->Ok_0,
                codecs: attributes["CODECS"@],
                resolution: resolution_of(attributes["RESOLUTION"@])->Ok_0,
                video_range: video_range_of(attributes["VIDEO-RANGE"@])->Ok_0,
                frame_rate: attributes["FRAME-RATE"@],
                audio: attributes["AUDIO"@],
                closed_captions: attributes["CLOSED-CAPTIONS"@],
            },
        ),
    }
}

/// The conversion is stated over the mapping, in `try_from`.
impl TryFromSpecImpl<&Attributes> for VariantStream {
    open spec fn obeys_try_from_spec() -> bool {
        false
    }

    open spec fn try_from_spec(attributes: &Attributes) -> Result<Self, Error> {
        arbitrary()
    }
}

impl TryFrom<&Attributes> for VariantStream {
    type Error = Error;

    fn try_from(attributes: &Attributes) -> (r: Result<Self, Error>)
        ensures
            match (r, variant_stream_of(attributes@)) {
                (Ok(stream), Ok(described)) => stream@ == described,
                (Err(e), Err(cause)) => e@ == ErrorView::HLSFormat(cause),
                _ => false,
            },
    {
        Ok(
            VariantStream {
                uri: required(attributes, "URI")?.clone(),
                bandwidth: parse_bit_rate(required(attributes, "BANDWIDTH")?)?,
                average_bandwidth: parse_bit_rate(required(attributes, "AVERAGE-BANDWIDTH")?)?,
                codecs: required(attributes, "CODECS")?.clone(),
                resolution: Resolution::try_from(required(attributes, "RESOLUTION")?.clone())?,
                video_range: VideoRange::try_from(required(attributes, "VIDEO-RANGE")?)?,
                frame_rate: required(attributes, "FRAME-RATE")?.clone(),
                audio: required(attributes, "AUDIO")?.clone(),
                closed_captions: required(attributes, "CLOSED-CAPTIONS")?.clone(),
            },
        )
    }
}

/// The first cause, in the order of the fields, for which `attributes` make
/// no media tag.
pub open spec fn media_tag_cause(attributes: Map<Seq<char>, Seq<char>>) -> Option<Seq<char>> {
    absent(attributes, "TYPE"@)
        .otherwise(cause_of(media_type_of(attributes["TYPE"@])))
        .otherwise(absent(attributes, "GROUP-ID"@))
        .otherwise(absent(attributes, "NAME"@))
        .otherwise(absent(attributes, "LANGUAGE"@))
        .otherwise(absent(attributes, "DEFAULT"@))
        .otherwise(absent(attributes, "AUTOSELECT"@))
        .otherwise(absent(attributes, "CHANNELS"@))
        .otherwise(absent(attributes, "URI"@))
}

/// The media tag that `attributes` describe.
pub open spec fn media_tag_of(attributes: Map<Seq<char>, Seq<char>>) -> Result<
    MediaTagView,
    Seq<char>,
> {
    match media_tag_cause(attributes) {
        Some(cause) => Err(cause),
        None => Ok(
            MediaTagView {
                media_type: media_type_of(attributes["TYPE"@])->Ok_0,
                group_id: attributes["GROUP-ID"@],
                name: attributes["NAME"@],
                language: attributes["LANGUAGE"@],
                default: attributes["DEFAULT"@],
                autoselect: attributes["AUTOSELECT"@],
                channels: attributes["CHANNELS"@],
                uri: attributes["URI"@],
            },
        ),
    }
}

/// The conversion is stated over the mapping, in `try_from`.
impl TryFromSpecImpl<&Attributes> for MediaTag {
    open spec fn obeys_try_from_spec() -> bool {
        false
    }

    open spec fn try_from_spec(attributes: &Attributes) -> Result<Self, Error> {
        arbitrary()
    }
}

impl TryFrom<&Attributes> for MediaTag {
    type Error = Error;

    fn try_from(attributes: &Attributes) -> (r: Result<Self, Error>)
        ensures
            match (r, media_tag_of(attributes@)) {
                (Ok(tag), Ok(described)) => tag@ == described,
                (Err(e), Err(cause)) => e@ == ErrorView::HLSFormat(cause),
                _ => false,
            },
    {
        Ok(
            MediaTag {
                media_type: MediaType::try_from(required(attributes, "TYPE")?)?,
                group_id: required(attributes, "GROUP-ID")?.clone(),
                name: required(attributes, "NAME")?.clone(),
                language: required(attributes, "LANGUAGE")?.clone(),
                default: required(attributes, "DEFAULT")?.clone(),
                autoselect: required(attributes, "AUTOSELECT")?.clone(),
                channels: required(attributes, "CHANNELS")?.clone(),
                uri: required(attributes, "URI")?.clone(),
            },
        )
    }
}

/// The first cause, in the order of the fields, for which `attributes` make
/// no I-frame playlist.
pub open spec fn i_frame_cause(attributes: Map<Seq<char>, Seq<char>>) -> Option<Seq<char>> {
    absent(attributes, "BANDWIDTH"@)
        .otherwise(cause_of(bit_rate_of(attributes["BANDWIDTH"@])))
        .otherwise(absent(attributes, "CODECS"@))
        .otherwise(absent(attributes, "RESOLUTION"@))
        .otherwise(cause_of(resolution_of(attributes["RESOLUTION"@])))
        .otherwise(absent(attributes, "VIDEO-RANGE"@))
        .otherwise(cause_of(video_range_of(attributes["VIDEO-RANGE"@])))
        .otherwise(absent(attributes, "URI"@))
}

/// The I-frame playlist that `attributes` describe.
pub open spec fn i_frame_of(attributes: Map<Seq<char>, Seq<char>>) -> Result<
    IFrameView,
    Seq<char>,
> {
    match i_frame_cause(attributes) {
        Some(cause) => Err(cause),
        None => Ok(
            IFrameView {
                bandwidth: bit_rate_of(attributes["BANDWIDTH"@])->Ok_0,
                codecs: attributes["CODECS"@],
                resolution: resolution_of(attributes["RESOLUTION"@])->Ok_0,
                video_range: video_range_of(attributes["VIDEO-RANGE"@])->Ok_0,
                uri: attributes["URI"@],
            },
        ),
    }
}

/// The conversion is stated over the mapping, in `try_from`.
impl TryFromSpecImpl<&Attributes> for IFrame {
    open spec fn obeys_try_from_spec() -> bool {
        false
    }

    open spec fn try_from_spec(attributes: &Attributes) -> Result<Self, Error> {
        arbitrary()
    }
}

impl TryFrom<&Attributes> for IFrame {
    type Error = Error;

    fn try_from(attributes: &Attributes) -> (r: Result<Self, Error>)
        ensures
            match (r, i_frame_of(attributes@)) {
                (Ok(frame), Ok(described)) => frame@ == described,
                (Err(e), Err(cause)) => e@ == ErrorView::HLSFormat(cause),
                _ => false,
            },
    {
        Ok(
            IFrame {
                bandwidth: parse_bit_rate(required(attributes, "BANDWIDTH")?)?,
                codecs: required(attributes, "CODECS")?.clone(),
                resolution: Resolution::try_from(required(attributes, "RESOLUTION")?.clone())?,
                video_range: VideoRange::try_from(required(attributes, "VIDEO-RANGE")?)?,
                uri: required(attributes, "URI")?.clone(),
            },
        )
    }
}

/// The kinds of tag that a master playlist holds.
#[derive(Debug, Clone, Copy, PartialEq, Eq, Structural)]
pub enum TagKind {
    /// `EXT-X-STREAM-INF`
    VariantStream,
    /// `EXT-X-MEDIA`
    Media,
    /// `EXT-X-I-FRAME-STREAM-INF`
    IFrame,
    /// Any other name.
    Basic,
}

/// The kind of the tag named `name`.
pub open spec fn tag_kind(name: Seq<char>) -> TagKind {
    if name == "EXT-X-STREAM-INF"@ {
        TagKind::VariantStream
    } else if name == "EXT-X-MEDIA"@ {
        TagKind::Media
    } else if name == "EXT-X-I-FRAME-STREAM-INF"@ {
        TagKind::IFrame
    } else {
        TagKind::Basic
    }
}

/// The kind of the tag named `name`.
pub fn kind_of_tag(name: &str) -> (kind: TagKind)
    ensures
        kind == tag_kind(name@),
{
    if same_text(name, "EXT-X-STREAM-INF") {
        TagKind::VariantStream
    } else if same_text(name, "EXT-X-MEDIA") {
        TagKind::Media
    } else if same_text(name, "EXT-X-I-FRAME-STREAM-INF") {
        TagKind::IFrame
    } else {
        TagKind::Basic
    }
}

/// The cause for which a record is rejected, if it is: the three tags with
/// a typed form are held to their required attributes, and any other tag
/// must carry no attribute.
pub open spec fn record_cause(record: (Seq<char>, Map<Seq<char>, Seq<char>>)) -> Option<
    Seq<char>,
> {
    match tag_kind(record.0) {
        TagKind::VariantStream => variant_stream_cause(record.1),
        TagKind::Media => media_tag_cause(record.1),
        TagKind::IFrame => i_frame_cause(record.1),
        TagKind::Basic => if record.1 != Map::<Seq<char>, Seq<char>>::empty() {
            Some("Unknown tag with attributes found: "@ + record.0)
        } else {
            None
        },
    }
}

/// The position of the first record at or after `from` that is rejected, or
/// the number of records where none is.
pub open spec fn first_rejected(
    records: Seq<(Seq<char>, Map<Seq<char>, Seq<char>>)>,
    from: int,
) -> int
    decreases records.len() - from,
{
    if 0 <= from < records.len() && record_cause(records[from]) is None {
        first_rejected(records, from + 1)
    } else {
        from
    }
}

/// The variant streams among `records`, in the order of the records.
pub open spec fn variant_streams_among(
    records: Seq<(Seq<char>, Map<Seq<char>, Seq<char>>)>,
) -> Seq<VariantStreamView>
    decreases records.len(),
{
    if records.len() == 0 {
        Seq::empty()
    } else if tag_kind(records.last().0) == TagKind::VariantStream {
        variant_streams_among(records.drop_last()).push(variant_stream_of(records.last().1)->Ok_0)
    } else {
        variant_streams_among(records.drop_last())
    }
}

/// The media tags among `records`, in the order of the records.
pub open spec fn media_tags_among(records: Seq<(Seq<char>, Map<Seq<char>, Seq<char>>)>) -> Seq<
    MediaTagView,
>
    decreases records.len(),
{
    if records.len() == 0 {
        Seq::empty()
    } else if tag_kind(records.last().0) == TagKind::Media {
        media_tags_among(records.drop_last()).push(media_tag_of(records.last().1)->Ok_0)
    } else {
        media_tags_among(records.drop_last())
    }
}

/// The I-frame playlists among `records`, in the order of the records.
pub open spec fn i_frames_among(records: Seq<(Seq<char>, Map<Seq<char>, Seq<char>>)>) -> Seq<
    IFrameView,
>
    decreases records.len(),
{
    if records.len() == 0 {
        Seq::empty()
    } else if tag_kind(records.last().0) == TagKind::IFrame {
        i_frames_among(records.drop_last()).push(i_frame_of(records.last().1)->Ok_0)
    } else {
        i_frames_among(records.drop_last())
    }
}

/// The names of the tags among `records` that have no typed form, in the
/// order of the records.
pub open spec fn basic_tags_among(records: Seq<(Seq<char>, Map<Seq<char>, Seq<char>>)>) -> Seq<
    Seq<char>,
>
    decreases records.len(),
{
    if records.len() == 0 {
        Seq::empty()
    } else if tag_kind(records.last().0) == TagKind::Basic {
        basic_tags_among(records.drop_last()).push(records.last().0)
    } else {
        basic_tags_among(records.drop_last())
    }
}

/// The playlist that `records` describe: every record in the list of its
/// kind, each list in canonical order. Where a record is rejected there is
/// no playlist, and the cause is that of the first such record.
pub open spec fn master_playlist_of(records: Seq<(Seq<char>, Map<Seq<char>, Seq<char>>)>) -> Result<
    MasterPlaylistView,
    Seq<char>,
> {
    let at = first_rejected(records, 0);
    if 0 <= at < records.len() {
        Err(record_cause(records[at])->Some_0)
    } else {
        Ok(
            MasterPlaylistView {
                variant_streams: canonical::<VariantStream>(variant_streams_among(records)),
                media_tags: canonical::<MediaTag>(media_tags_among(records)),
                i_frames: canonical::<IFrame>(i_frames_among(records)),
                basic_tags: canonical::<String>(basic_tags_among(records)),
            },
        )
    }
}

/// The conversion is stated over the records as text, in `try_from`.
impl TryFromSpecImpl<Vec<(String, Attributes)>> for MasterPlaylist {
    open spec fn obeys_try_from_spec() -> bool {
        false
    }

    open spec fn try_from_spec(tags: Vec<(String, Attributes)>) -> Result<Self, Error> {
        arbitrary()
    }
}

impl TryFrom<Vec<(String, Attributes)>> for MasterPlaylist {
    type Error = Error;

    fn try_from(tags: Vec<(String, Attributes)>) -> (r: Result<Self, Error>)
        ensures
            match (r, master_playlist_of(record_texts(tags@))) {
                (Ok(playlist), Ok(described)) => playlist@ == described,
                (Err(e), Err(cause)) => e@ == ErrorView::HLSFormat(cause),
                _ => false,
            },
    {
        let ghost records = record_texts(tags@);
        let mut variant_streams: Vec<VariantStream> = Vec::new();
        let mut basic_tags: Vec<String> = Vec::new();
        let mut media_tags: Vec<MediaTag> = Vec::new();
        let mut i_frames: Vec<IFrame> = Vec::new();
        let mut i: usize = 0;
        while i < tags.len()
            invariant
                i <= tags@.len(),
                records == record_texts(tags@),
                first_rejected(records, 0) == first_rejected(records, i as int),
                views(variant_streams@) == variant_streams_among(records.take(i as int)),
                views(media_tags@) == media_tags_among(records.take(i as int)),
                views(i_frames@) == i_frames_among(records.take(i as int)),
                views(basic_tags@) == basic_tags_among(records.take(i as int)),
            decreases tags@.len() - i,
        {
            let name = &tags[i].0;
            let attributes = &tags[i].1;
            proof {
                assert(records.take(i + 1).drop_last() =~= records.take(i as int));
            }
            match kind_of_tag(name.as_str()) {
                TagKind::VariantStream => {
                    variant_streams.push(VariantStream::try_from(attributes)?);
                },
                TagKind::Media => {
                    media_tags.push(MediaTag::try_from(attributes)?);
                },
                TagKind::IFrame => {
                    i_frames.push(IFrame::try_from(attributes)?);
                },
                TagKind::Basic => {
                    if !attributes.is_empty() {
                        return Err(
                            Error::HLSFormat(
                                String::from_str("Unknown tag with attributes found: ").concat(
                                    name.as_str(),
                                ),
                            ),
                        );
                    }
                    basic_tags.push(name.clone());
                },
            }
            i += 1;
        }
        proof {
            assert(records.take(i as int) =~= records);
            lemma_canonical_is_idempotent::<VariantStream>(variant_streams_among(records));
            lemma_canonical_is_idempotent::<MediaTag>(media_tags_among(records));
            lemma_canonical_is_idempotent::<IFrame>(i_frames_among(records));
            lemma_canonical_is_idempotent::<String>(basic_tags_among(records));
        }
        let variant_streams = sort(variant_streams);
        let i_frames = sort(i_frames);
        let media_tags = sort(media_tags);
        let basic_tags = sort(basic_tags);
        Ok(MasterPlaylist::new(variant_streams, media_tags, i_frames, basic_tags))
    }
}

} // verus!
