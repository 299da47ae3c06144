//! The typed form of a master playlist. Attribute names follow RFC 8216,
//! HTTP Live Streaming; `VIDEO-RANGE` comes from its later revision. Only
//! the tags and attributes of a master playlist are modelled.
use vstd::prelude::*;
use vstd::relations::sorted_by;
use crate::models::order::{order, views};

pub mod conversions;
pub mod order;
pub mod validation;

verus! {

/// The optimal pixel resolution in width and height.
#[derive(Debug, PartialEq, Eq, Clone, Copy, Default)]
pub struct Resolution {
    pub width: usize,
    pub height: usize,
}

/// Related to the encoding of the video.
#[derive(Debug, PartialEq, Eq, Clone, Copy)]
pub enum VideoRange {
    PQ,
    SDR,
}

/// The kind of rendition that a media tag describes.
#[derive(Debug, PartialEq, Eq, Clone, Copy)]
pub enum MediaType {
    Audio,
    Video,
    Subtitles,
    ClosedCaptions,
}

/// A variant stream is a set of renditions that can be combined to play a
/// media presentation.
#[derive(Debug, PartialEq, Eq)]
pub struct VariantStream {
    /// A media playlist that carries a rendition of this variant stream.
    pub uri: String,
    /// The peak segment bit rate in bits per second.
    pub bandwidth: u32,
    /// The average segment bit rate in bits per second.
    pub average_bandwidth: u32,
    /// A comma separated list of formats.
    pub codecs: String,
    /// The optimal pixel resolution to display this video.
    pub resolution: Resolution,
    /// Either PQ or SDR, this value is related to the encoding.
    pub video_range: VideoRange,
    /// The maximum frame rate of the videos in this stream, kept as written:
    /// nothing is ordered or computed by it.
    pub frame_rate: String,
    /// The `GROUP-ID` of the audio renditions to play with this stream.
    pub audio: String,
    /// The `GROUP-ID` of the closed captions to play with this stream.
    pub closed_captions: String,
}

/// A `VariantStream` with its texts as sequences of characters.
pub struct VariantStreamView {
    pub uri: Seq<char>,
    pub bandwidth: u32,
    pub average_bandwidth: u32,
    pub codecs: Seq<char>,
    pub resolution: Resolution,
    pub video_range: VideoRange,
    pub frame_rate: Seq<char>,
    pub audio: Seq<char>,
    pub closed_captions: Seq<char>,
}

impl View for VariantStream {
    type V = VariantStreamView;

    open spec fn view(&self) -> VariantStreamView {
        VariantStreamView {
            uri: self.uri@,
            bandwidth: self.bandwidth,
            average_bandwidth: self.average_bandwidth,
            codecs: self.codecs@,
            resolution: self.resolution,
            video_range: self.video_range,
            frame_rate: self.frame_rate@,
            audio: self.audio@,
            closed_captions: self.closed_captions@,
        }
    }
}

/// A media tag relates media playlists that hold alternative renditions of
/// the same content.
#[derive(Debug, PartialEq, Eq)]
pub struct MediaTag {
    /// The type of media specified by this media tag.
    pub media_type: MediaType,
    /// Associates this media item with its group.
    pub group_id: String,
    /// A human readable description.
    pub name: String,
    /// The primary language used in this rendition.
    pub language: String,
    /// `YES` where the client should play this rendition by default.
    pub default: String,
    /// `YES` where the client may choose this rendition by itself.
    pub autoselect: String,
    /// A list of parameters, whose meaning depends on the type of media.
    pub channels: String,
    /// The media playlist file of this rendition.
    pub uri: String,
}

/// A `MediaTag` with its texts as sequences of characters.
pub struct MediaTagView {
    pub media_type: MediaType,
    pub group_id: Seq<char>,
    pub name: Seq<char>,
    pub language: Seq<char>,
    pub default: Seq<char>,
    pub autoselect: Seq<char>,
    pub channels: Seq<char>,
    pub uri: Seq<char>,
}

impl View for MediaTag {
    type V = MediaTagView;

    open spec fn view(&self) -> MediaTagView {
        MediaTagView {
            media_type: self.media_type,
            group_id: self.group_id@,
            name: self.name@,
            language: self.language@,
            default: self.default@,
            autoselect: self.autoselect@,
            channels: self.channels@,
            uri: self.uri@,
        }
    }
}

/// A media playlist containing the I-frames of a multimedia presentation.
#[derive(Debug, PartialEq, Eq)]
pub struct IFrame {
    /// The average segment bit rate in bits per second.
    pub bandwidth: u32,
    /// A comma separated list of formats.
    pub codecs: String,
    /// The optimal pixel resolution to display this I-frame.
    pub resolution: Resolution,
    /// Either PQ or SDR, this value is related to the encoding.
    pub video_range: VideoRange,
    /// The media playlist file of this I-frame.
    pub uri: String,
}

/// An `IFrame` with its texts as sequences of characters.
pub struct IFrameView {
    pub bandwidth: u32,
    pub codecs: Seq<char>,
    pub resolution: Resolution,
    pub video_range: VideoRange,
    pub uri: Seq<char>,
}

impl View for IFrame {
    type V = IFrameView;

    open spec fn view(&self) -> IFrameView {
        IFrameView {
            bandwidth: self.bandwidth,
            codecs: self.codecs@,
            resolution: self.resolution,
            video_range: self.video_range,
            uri: self.uri@,
        }
    }
}

/// A master playlist: the variant streams of one presentation, with the
/// renditions and I-frame playlists that belong to them and the tags that
/// carry no attribute. Each of the four lists is kept in canonical order.
#[derive(Debug, PartialEq, Default)]
pub struct MasterPlaylist {
    variant_streams: Vec<VariantStream>,
    media_tags: Vec<MediaTag>,
    i_frames: Vec<IFrame>,
    basic_tags: Vec<String>,
}

/// A `MasterPlaylist` with its records as views.
pub struct MasterPlaylistView {
    pub variant_streams: Seq<VariantStreamView>,
    pub media_tags: Seq<MediaTagView>,
    pub i_frames: Seq<IFrameView>,
    pub basic_tags: Seq<Seq<char>>,
}

impl MasterPlaylistView {
    /// Whether each of the four lists is in canonical order.
    pub open spec fn is_ordered(self) -> bool {
        &&& sorted_by(self.variant_streams, order::<VariantStream>())
        &&& sorted_by(self.media_tags, order::<MediaTag>())
        &&& sorted_by(self.i_frames, order::<IFrame>())
        &&& sorted_by(self.basic_tags, order::<String>())
    }
}

impl View for MasterPlaylist {
    type V = MasterPlaylistView;

    closed spec fn view(&self) -> MasterPlaylistView {
        MasterPlaylistView {
            variant_streams: views(self.variant_streams@),
            media_tags: views(self.media_tags@),
            i_frames: views(self.i_frames@),
            basic_tags: views(self.basic_tags@),
        }
    }
}

impl MasterPlaylist {
    #[verifier::type_invariant]
    spec fn lists_are_ordered(self) -> bool {
        self@.is_ordered()
    }

    /// Puts four lists that are in canonical order together.
    pub(crate) fn new(
        variant_streams: Vec<VariantStream>,
        media_tags: Vec<MediaTag>,
        i_frames: Vec<IFrame>,
        basic_tags: Vec<String>,
    ) -> (playlist: Self)
        requires
            sorted_by(views(variant_streams@), order::<VariantStream>()),
            sorted_by(views(media_tags@), order::<MediaTag>()),
            sorted_by(views(i_frames@), order::<IFrame>()),
            sorted_by(views(basic_tags@), order::<String>()),
        ensures
            playlist@ == (MasterPlaylistView {
                variant_streams: views(variant_streams@),
                media_tags: views(media_tags@),
                i_frames: views(i_frames@),
                basic_tags: views(basic_tags@),
            }),
    {
        MasterPlaylist { variant_streams, media_tags, i_frames, basic_tags }
    }

    /// The variant streams, in canonical order.
    pub fn variant_streams(&self) -> (list: &Vec<VariantStream>)
        ensures
            views(list@) == self@.variant_streams,
            self@.is_ordered(),
    {
        proof {
            use_type_invariant(self);
        }
        &self.variant_streams
    }

    /// The media tags, in canonical order.
    pub fn media_tags(&self) -> (list: &Vec<MediaTag>)
        ensures
            views(list@) == self@.media_tags,
            self@.is_ordered(),
    {
        proof {
            use_type_invariant(self);
        }
        &self.media_tags
    }

    /// The I-frame playlists, in canonical order.
    pub fn i_frames(&self) -> (list: &Vec<IFrame>)
        ensures
            views(list@) == self@.i_frames,
            self@.is_ordered(),
    {
        proof {
            use_type_invariant(self);
        }
        &self.i_frames
    }

    /// The names of the tags without attributes, in canonical order.
    pub fn basic_tags(&self) -> (list: &Vec<String>)
        ensures
            views(list@) == self@.basic_tags,
            self@.is_ordered(),
    {
        proof {
            use_type_invariant(self);
        }
        &self.basic_tags
    }
}

} // verus!
