use vstd::prelude::*;
use vstd::relations::{sorted_by, total_ordering};
use vstd::multiset::lemma_multiset_empty_len;
use vstd::seq_lib::{lemma_sorted_unique, to_multiset_build, to_multiset_insert, to_multiset_len};
use crate::models::{
    IFrame, IFrameView, MediaTag, MediaTagView, MediaType, Resolution, VariantStream,
    VariantStreamView, VideoRange,
};
use crate::text::{
    same_text,
    lemma_text_le_antisymmetric, lemma_text_le_reflexive, lemma_text_le_total,
    lemma_text_le_transitive, text_le, text_precedes,
};

verus! {

/// A type whose values have a canonical order: a total order on their views,
/// and a comparison that decides it.
pub trait CanonicalOrder: View + Sized {
    /// Whether `a` comes at or before `b`.
    spec fn le(a: Self::V, b: Self::V) -> bool;

    /// `le` is reflexive, antisymmetric, transitive, and holds one way or the
    /// other of any two values.
    proof fn le_is_total()
        ensures
            forall|a: Self::V| #[trigger] Self::le(a, a),
            forall|a: Self::V, b: Self::V| #[trigger]
                Self::le(a, b) && #[trigger] Self::le(b, a) ==> a == b,
            forall|a: Self::V, b: Self::V, c: Self::V| #[trigger]
                Self::le(a, b) && #[trigger] Self::le(b, c) ==> Self::le(a, c),
            forall|a: Self::V, b: Self::V| #[trigger] Self::le(a, b) || #[trigger] Self::le(b, a),
    ;

    /// Whether `self` comes at or before `other`.
    fn precedes(&self, other: &Self) -> (r: bool)
        ensures
            r == Self::le(self@, other@),
    ;
}

/// The canonical order of `T` as a relation.
pub open spec fn order<T: CanonicalOrder>() -> spec_fn(T::V, T::V) -> bool {
    |a: T::V, b: T::V| T::le(a, b)
}

/// The views of `items`, in the same order.
pub open spec fn views<T: View>(items: Seq<T>) -> Seq<T::V> {
    items.map_values(|item: T| item@)
}

/// `items` in canonical order: the same values, each as often as before,
/// none after one that it precedes.
pub open spec fn canonical<T: CanonicalOrder>(items: Seq<T::V>) -> Seq<T::V> {
    items.sort_by(order::<T>())
}

/// The canonical order of `T` is a total order.
pub proof fn lemma_order_is_total<T: CanonicalOrder>()
    ensures
        total_ordering(order::<T>()),
{
    T::le_is_total();
    let le = order::<T>();
    assert forall|a: T::V| #[trigger] le(a, a) by {
        assert(T::le(a, a));
    }
    assert forall|a: T::V, b: T::V| #[trigger] le(a, b) && #[trigger] le(b, a) implies a == b by {
        assert(T::le(a, b) && T::le(b, a));
    }
    assert forall|a: T::V, b: T::V, c: T::V| #[trigger] le(a, b) && #[trigger] le(b, c) implies le(
        a,
        c,
    ) by {
        assert(T::le(a, b) && T::le(b, c));
    }
    assert forall|a: T::V, b: T::V| #[trigger] le(a, b) || #[trigger] le(b, a) by {
        assert(T::le(a, b) || T::le(b, a));
    }
}

/// The canonical order of `items` is the one sequence that is in order and
/// holds the same values as often.
pub proof fn lemma_canonical_is_unique<T: CanonicalOrder>(items: Seq<T::V>, arranged: Seq<T::V>)
    requires
        sorted_by(arranged, order::<T>()),
        arranged.to_multiset() == items.to_multiset(),
    ensures
        arranged == canonical::<T>(items),
{
    lemma_order_is_total::<T>();
    items.lemma_sort_by_ensures(order::<T>());
    lemma_sorted_unique(arranged, canonical::<T>(items), order::<T>());
}

/// A sequence that is in canonical order stays as it is when ordered.
pub proof fn lemma_canonical_keeps_ordered<T: CanonicalOrder>(items: Seq<T::V>)
    requires
        sorted_by(items, order::<T>()),
    ensures
        canonical::<T>(items) == items,
{
    lemma_canonical_is_unique::<T>(items, items);
}

/// Ordering twice gives what ordering once gives.
pub proof fn lemma_canonical_is_idempotent<T: CanonicalOrder>(items: Seq<T::V>)
    ensures
        sorted_by(canonical::<T>(items), order::<T>()),
        canonical::<T>(items).to_multiset() == items.to_multiset(),
        canonical::<T>(canonical::<T>(items)) == canonical::<T>(items),
{
    lemma_order_is_total::<T>();
    items.lemma_sort_by_ensures(order::<T>());
    lemma_canonical_keeps_ordered::<T>(canonical::<T>(items));
}

/// Canonical order does not depend on the order in which the values came:
/// two sequences that hold the same values as often are ordered alike.
pub proof fn lemma_canonical_ignores_order<T: CanonicalOrder>(a: Seq<T::V>, b: Seq<T::V>)
    requires
        a.to_multiset() == b.to_multiset(),
    ensures
        canonical::<T>(a) == canonical::<T>(b),
{
    lemma_canonical_is_idempotent::<T>(b);
    lemma_canonical_is_unique::<T>(a, canonical::<T>(b));
}

/// Puts `items` in canonical order.
pub fn sort<T: CanonicalOrder>(items: Vec<T>) -> (sorted: Vec<T>)
    ensures
        views(sorted@) == canonical::<T>(views(items@)),
{
    let ghost all = views(items@);
    let mut rest = items;
    let mut sorted: Vec<T> = Vec::new();
    proof {
        lemma_order_is_total::<T>();
        assert(views(sorted@) =~= Seq::empty());
        to_multiset_len(views(sorted@));
        lemma_multiset_empty_len(views(sorted@).to_multiset());
        assert(views(sorted@).to_multiset().add(all.to_multiset()) =~= all.to_multiset());
    }
    while rest.len() > 0
        invariant
            total_ordering(order::<T>()),
            sorted_by(views(sorted@), order::<T>()),
            views(sorted@).to_multiset().add(views(rest@).to_multiset()) == all.to_multiset(),
        decreases rest@.len(),
    {
        let ghost rest_before = views(rest@);
        let ghost sorted_before = views(sorted@);
        let item = rest.pop().unwrap();
        proof {
            assert(rest_before =~= views(rest@).push(item@));
            to_multiset_build(views(rest@), item@);
        }
        let mut at: usize = 0;
        while at < sorted.len() && sorted[at].precedes(&item)
            invariant
                at <= sorted@.len(),
                forall|j: int| 0 <= j < at ==> T::le(#[trigger] sorted@[j]@, item@),
            decreases sorted@.len() - at,
        {
            at += 1;
        }
        sorted.insert(at, item);
        proof {
            let after = views(sorted@);
            assert(after =~= sorted_before.insert(at as int, item@));
            to_multiset_insert(sorted_before, at as int, item@);
            assert(after.to_multiset().add(views(rest@).to_multiset()) =~= all.to_multiset());
            assert forall|i: int, j: int| 0 <= i < j < after.len() implies #[trigger] order::<T>()(
                after[i],
                after[j],
            ) by {
                let le = order::<T>();
                if j < at {
                    assert(le(sorted_before[i], sorted_before[j]));
                } else if j == at {
                    assert(T::le(sorted_before[i], item@));
                } else if i == at {
                    assert(!T::le(sorted_before[at as int], item@));
                    assert(le(sorted_before[at as int], item@) || le(
                        item@,
                        sorted_before[at as int],
                    ));
                    if j - 1 > at {
                        assert(le(sorted_before[at as int], sorted_before[j - 1]));
                        assert(le(item@, sorted_before[at as int]) && le(
                            sorted_before[at as int],
                            sorted_before[j - 1],
                        ) ==> le(item@, sorted_before[j - 1]));
                    }
                } else if i < at {
                    assert(le(sorted_before[i], sorted_before[j - 1]));
                } else {
                    assert(le(sorted_before[i - 1], sorted_before[j - 1]));
                }
            }
        }
    }
    proof {
        assert(views(rest@) =~= Seq::empty());
        to_multiset_len(views(rest@));
        lemma_multiset_empty_len(views(rest@).to_multiset());
        assert(views(sorted@).to_multiset() =~= all.to_multiset());
        lemma_canonical_is_unique::<T>(all, views(sorted@));
    }
    sorted
}

impl CanonicalOrder for String {
    open spec fn le(a: Seq<char>, b: Seq<char>) -> bool {
        text_le(a, b)
    }

    proof fn le_is_total() {
        assert forall|a: Seq<char>| #[trigger] text_le(a, a) by {
            lemma_text_le_reflexive(a);
        }
        assert forall|a: Seq<char>, b: Seq<char>| #[trigger] text_le(a, b) && #[trigger] text_le(
            b,
            a,
        ) implies a == b by {
            lemma_text_le_antisymmetric(a, b);
        }
        assert forall|a: Seq<char>, b: Seq<char>, c: Seq<char>| #[trigger]
            text_le(a, b) && #[trigger] text_le(b, c) implies text_le(a, c) by {
            lemma_text_le_transitive(a, b, c);
        }
        assert forall|a: Seq<char>, b: Seq<char>| #[trigger] text_le(a, b) || #[trigger] text_le(
            b,
            a,
        ) by {
            lemma_text_le_total(a, b);
        }
    }

    fn precedes(&self, other: &Self) -> (r: bool) {
        text_precedes(self.as_str(), other.as_str())
    }
}

/// Resolutions are ordered by width, then by height.
pub open spec fn resolution_le(a: Resolution, b: Resolution) -> bool {
    a.width < b.width || (a.width == b.width && a.height <= b.height)
}

/// The place of a video range among the video ranges: `PQ` before `SDR`.
pub open spec fn video_range_rank(range: VideoRange) -> nat {
    match range {
        VideoRange::PQ => 0,
        VideoRange::SDR => 1,
    }
}

/// The place of a media type among the media types: audio, video,
/// subtitles, closed captions.
pub open spec fn media_type_rank(media_type: MediaType) -> nat {
    match media_type {
        MediaType::Audio => 0,
        MediaType::Video => 1,
        MediaType::Subtitles => 2,
        MediaType::ClosedCaptions => 3,
    }
}

fn rank_of_video_range(range: VideoRange) -> (rank: u8)
    ensures
        rank == video_range_rank(range),
{
    match range {
        VideoRange::PQ => 0,
        VideoRange::SDR => 1,
    }
}

fn rank_of_media_type(media_type: MediaType) -> (rank: u8)
    ensures
        rank == media_type_rank(media_type),
{
    match media_type {
        MediaType::Audio => 0,
        MediaType::Video => 1,
        MediaType::Subtitles => 2,
        MediaType::ClosedCaptions => 3,
    }
}

/// What makes `text_le` a total order, for three texts at once.
proof fn lemma_text_order(a: Seq<char>, b: Seq<char>, c: Seq<char>)
    ensures
        text_le(a, a),
        text_le(a, b) || text_le(b, a),
        text_le(a, b) && text_le(b, a) ==> a == b,
        text_le(b, c) && text_le(c, b) ==> b == c,
        text_le(a, c) && text_le(c, a) ==> a == c,
        text_le(a, b) && text_le(b, c) ==> text_le(a, c),
{
    lemma_text_le_reflexive(a);
    lemma_text_le_total(a, b);
    if text_le(a, b) && text_le(b, a) {
        lemma_text_le_antisymmetric(a, b);
    }
    if text_le(b, c) && text_le(c, b) {
        lemma_text_le_antisymmetric(b, c);
    }
    if text_le(a, c) && text_le(c, a) {
        lemma_text_le_antisymmetric(a, c);
    }
    if text_le(a, b) && text_le(b, c) {
        lemma_text_le_transitive(a, b, c);
    }
}

/// Variant streams are ordered by their fields, in the order in which the
/// type declares them: a later field counts only where all earlier ones are
/// equal.
impl CanonicalOrder for VariantStream {
    open spec fn le(a: VariantStreamView, b: VariantStreamView) -> bool {
        if a.uri != b.uri {
            text_le(a.uri, b.uri)
        } else if a.bandwidth != b.bandwidth {
            a.bandwidth < b.bandwidth
        } else if a.average_bandwidth != b.average_bandwidth {
            a.average_bandwidth < b.average_bandwidth
        } else if a.codecs != b.codecs {
            text_le(a.codecs, b.codecs)
        } else if a.resolution != b.resolution {
            resolution_le(a.resolution, b.resolution)
        } else if a.video_range != b.video_range {
            video_range_rank(a.video_range) < video_range_rank(b.video_range)
        } else if a.frame_rate != b.frame_rate {
            text_le(a.frame_rate, b.frame_rate)
        } else if a.audio != b.audio {
            text_le(a.audio, b.audio)
        } else {
            text_le(a.closed_captions, b.closed_captions)
        }
    }

    proof fn le_is_total() {
        assert forall|a: VariantStreamView, b: VariantStreamView, c: VariantStreamView|
            Self::le(a, a) && (Self::le(a, b) || Self::le(b, a)) && (Self::le(a, b) && Self::le(
                b,
                a,
            ) ==> a == b) && (Self::le(a, b) && Self::le(b, c) ==> Self::le(a, c)) by {
            lemma_text_order(a.uri, b.uri, c.uri);
            lemma_text_order(a.codecs, b.codecs, c.codecs);
            lemma_text_order(a.frame_rate, b.frame_rate, c.frame_rate);
            lemma_text_order(a.audio, b.audio, c.audio);
            lemma_text_order(a.closed_captions, b.closed_captions, c.closed_captions);
        }
    }

    fn precedes(&self, other: &Self) -> (r: bool) {
        if !same_text(self.uri.as_str(), other.uri.as_str()) {
            text_precedes(self.uri.as_str(), other.uri.as_str())
        } else if self.bandwidth != other.bandwidth {
            self.bandwidth < other.bandwidth
        } else if self.average_bandwidth != other.average_bandwidth {
            self.average_bandwidth < other.average_bandwidth
        } else if !same_text(self.codecs.as_str(), other.codecs.as_str()) {
            text_precedes(self.codecs.as_str(), other.codecs.as_str())
        } else if self.resolution.width != other.resolution.width {
            self.resolution.width < other.resolution.width
        } else if self.resolution.height != other.resolution.height {
            self.resolution.height < other.resolution.height
        } else if rank_of_video_range(self.video_range) != rank_of_video_range(other.video_range) {
            rank_of_video_range(self.video_range) < rank_of_video_range(other.video_range)
        } else if !same_text(self.frame_rate.as_str(), other.frame_rate.as_str()) {
            text_precedes(self.frame_rate.as_str(), other.frame_rate.as_str())
        } else if !same_text(self.audio.as_str(), other.audio.as_str()) {
            text_precedes(self.audio.as_str(), other.audio.as_str())
        } else {
            text_precedes(self.closed_captions.as_str(), other.closed_captions.as_str())
        }
    }
}

/// Media tags are ordered by their fields, in the order in which the type
/// declares them.
impl CanonicalOrder for MediaTag {
    open spec fn le(a: MediaTagView, b: MediaTagView) -> bool {
        if a.media_type != b.media_type {
            media_type_rank(a.media_type) < media_type_rank(b.media_type)
        } else if a.group_id != b.group_id {
            text_le(a.group_id, b.group_id)
        } else if a.name != b.name {
            text_le(a.name, b.name)
        } else if a.language != b.language {
            text_le(a.language, b.language)
        } else if a.default != b.default {
            text_le(a.default, b.default)
        } else if a.autoselect != b.autoselect {
            text_le(a.autoselect, b.autoselect)
        } else if a.channels != b.channels {
            text_le(a.channels, b.channels)
        } else {
            text_le(a.uri, b.uri)
        }
    }

    proof fn le_is_total() {
        assert forall|a: MediaTagView, b: MediaTagView, c: MediaTagView|
            Self::le(a, a) && (Self::le(a, b) || Self::le(b, a)) && (Self::le(a, b) && Self::le(
                b,
                a,
            ) ==> a == b) && (Self::le(a, b) && Self::le(b, c) ==> Self::le(a, c)) by {
            lemma_text_order(a.group_id, b.group_id, c.group_id);
            lemma_text_order(a.name, b.name, c.name);
            lemma_text_order(a.language, b.language, c.language);
            lemma_text_order(a.default, b.default, c.default);
            lemma_text_order(a.autoselect, b.autoselect, c.autoselect);
            lemma_text_order(a.channels, b.channels, c.channels);
            lemma_text_order(a.uri, b.uri, c.uri);
        }
    }

    fn precedes(&self, other: &Self) -> (r: bool) {
        if rank_of_media_type(self.media_type) != rank_of_media_type(other.media_type) {
            rank_of_media_type(self.media_type) < rank_of_media_type(other.media_type)
        } else if !same_text(self.group_id.as_str(), other.group_id.as_str()) {
            text_precedes(self.group_id.as_str(), other.group_id.as_str())
        } else if !same_text(self.name.as_str(), other.name.as_str()) {
            text_precedes(self.name.as_str(), other.name.as_str())
        } else if !same_text(self.language.as_str(), other.language.as_str()) {
            text_precedes(self.language.as_str(), other.language.as_str())
        } else if !same_text(self.default.as_str(), other.default.as_str()) {
            text_precedes(self.default.as_str(), other.default.as_str())
        } else if !same_text(self.autoselect.as_str(), other.autoselect.as_str()) {
            text_precedes(self.autoselect.as_str(), other.autoselect.as_str())
        } else if !same_text(self.channels.as_str(), other.channels.as_str()) {
            text_precedes(self.channels.as_str(), other.channels.as_str())
        } else {
            text_precedes(self.uri.as_str(), other.uri.as_str())
        }
    }
}

/// I-frame playlists are ordered by their fields, in the order in which the
/// type declares them.
impl CanonicalOrder for IFrame {
    open spec fn le(a: IFrameView, b: IFrameView) -> bool {
        if a.bandwidth != b.bandwidth {
            a.bandwidth < b.bandwidth
        } else if a.codecs != b.codecs {
            text_le(a.codecs, b.codecs)
        } else if a.resolution != b.resolution {
            resolution_le(a.resolution, b.resolution)
        } else if a.video_range != b.video_range {
            video_range_rank(a.video_range) < video_range_rank(b.video_range)
        } else {
            text_le(a.uri, b.uri)
        }
    }

    proof fn le_is_total() {
        assert forall|a: IFrameView, b: IFrameView, c: IFrameView|
            Self::le(a, a) && (Self::le(a, b) || Self::le(b, a)) && (Self::le(a, b) && Self::le(
                b,
                a,
            ) ==> a == b) && (Self::le(a, b) && Self::le(b, c) ==> Self::le(a, c)) by {
            lemma_text_order(a.codecs, b.codecs, c.codecs);
            lemma_text_order(a.uri, b.uri, c.uri);
        }
    }

    fn precedes(&self, other: &Self) -> (r: bool) {
        if self.bandwidth != other.bandwidth {
            self.bandwidth < other.bandwidth
        } else if !same_text(self.codecs.as_str(), other.codecs.as_str()) {
            text_precedes(self.codecs.as_str(), other.codecs.as_str())
        } else if self.resolution.width != other.resolution.width {
            self.resolution.width < other.resolution.width
        } else if self.resolution.height != other.resolution.height {
            self.resolution.height < other.resolution.height
        } else if rank_of_video_range(self.video_range) != rank_of_video_range(other.video_range) {
            rank_of_video_range(self.video_range) < rank_of_video_range(other.video_range)
        } else {
            text_precedes(self.uri.as_str(), other.uri.as_str())
        }
    }
}

} // verus!
