use vstd::prelude::*;
use vstd::seq_lib::{to_multiset_contains, to_multiset_len};
use crate::models::conversions::{
    basic_tags_among, bit_rate_of, first_rejected, i_frame_of, i_frames_among, master_playlist_of,
    media_tag_of, media_tags_among, media_type_of, missing, record_cause, resolution_of, tag_kind,
    variant_stream_of, variant_streams_among, video_range_of, TagKind,
};
use crate::models::order::{canonical, lemma_canonical_is_idempotent, lemma_canonical_keeps_ordered};
use crate::models::{IFrame, MediaTag, VariantStream};

verus! {

/// The attributes that a variant stream must have.
pub open spec fn variant_stream_keys() -> Set<Seq<char>> {
    set![
        "URI"@,
        "BANDWIDTH"@,
        "AVERAGE-BANDWIDTH"@,
        "CODECS"@,
        "RESOLUTION"@,
        "VIDEO-RANGE"@,
        "FRAME-RATE"@,
        "AUDIO"@,
        "CLOSED-CAPTIONS"@,
    ]
}

/// The attributes that a media tag must have.
pub open spec fn media_tag_keys() -> Set<Seq<char>> {
    set![
        "TYPE"@,
        "GROUP-ID"@,
        "NAME"@,
        "LANGUAGE"@,
        "DEFAULT"@,
        "AUTOSELECT"@,
        "CHANNELS"@,
        "URI"@,
    ]
}

/// The attributes that an I-frame playlist must have.
pub open spec fn i_frame_keys() -> Set<Seq<char>> {
    set!["BANDWIDTH"@, "CODECS"@, "RESOLUTION"@, "VIDEO-RANGE"@, "URI"@]
}

/// Whether `cause` says of one of `keys` that `attributes` lack it, and they
/// do.
pub open spec fn names_missing_key(
    cause: Seq<char>,
    attributes: Map<Seq<char>, Seq<char>>,
    keys: Set<Seq<char>>,
) -> bool {
    exists|key: Seq<char>|
        #[trigger] keys.contains(key) && !attributes.contains_key(key) && cause == missing(key)
}

/// Whether the value under `key`, where there is one, is of the kind that
/// `coerced` accepts.
pub open spec fn fits<T>(
    attributes: Map<Seq<char>, Seq<char>>,
    key: Seq<char>,
    coerced: spec_fn(Seq<char>) -> Result<T, Seq<char>>,
) -> bool {
    attributes.contains_key(key) ==> coerced(attributes[key]) is Ok
}

/// A record that has the nine attributes of a variant stream, each of its
/// kind, makes a variant stream, and every field is the value of its
/// attribute, coerced where the field is no text.
pub proof fn lemma_complete_variant_stream_converts(attributes: Map<Seq<char>, Seq<char>>)
    requires
        forall|key: Seq<char>|
            variant_stream_keys().contains(key) ==> #[trigger] attributes.contains_key(key),
        bit_rate_of(attributes["BANDWIDTH"@]) is Ok,
        bit_rate_of(attributes["AVERAGE-BANDWIDTH"@]) is Ok,
        resolution_of(attributes["RESOLUTION"@]) is Ok,
        video_range_of(attributes["VIDEO-RANGE"@]) is Ok,
    ensures
        variant_stream_of(attributes) matches Ok(stream) && {
            &&& stream.uri == attributes["URI"@]
            &&& Ok::<u32, Seq<char>>(stream.bandwidth) == bit_rate_of(attributes["BANDWIDTH"@])
            &&& Ok::<u32, Seq<char>>(stream.average_bandwidth) == bit_rate_of(
                attributes["AVERAGE-BANDWIDTH"@],
            )
            &&& stream.codecs == attributes["CODECS"@]
            &&& Ok::<_, Seq<char>>(stream.resolution) == resolution_of(attributes["RESOLUTION"@])
            &&& Ok::<_, Seq<char>>(stream.video_range) == video_range_of(
                attributes["VIDEO-RANGE"@],
            )
            &&& stream.frame_rate == attributes["FRAME-RATE"@]
            &&& stream.audio == attributes["AUDIO"@]
            &&& stream.closed_captions == attributes["CLOSED-CAPTIONS"@]
        },
{
    let keys = variant_stream_keys();
    assert(keys.contains("URI"@) && keys.contains("BANDWIDTH"@) && keys.contains(
        "AVERAGE-BANDWIDTH"@,
    ) && keys.contains("CODECS"@) && keys.contains("RESOLUTION"@) && keys.contains("VIDEO-RANGE"@)
        && keys.contains("FRAME-RATE"@) && keys.contains("AUDIO"@) && keys.contains(
        "CLOSED-CAPTIONS"@,
    ));
}

/// A record that lacks one of the nine attributes of a variant stream makes
/// none. Unless a value that is there is not of its kind, the cause names an
/// attribute that the record lacks.
pub proof fn lemma_variant_stream_needs_every_key(
    attributes: Map<Seq<char>, Seq<char>>,
    key: Seq<char>,
)
    requires
        variant_stream_keys().contains(key),
        !attributes.contains_key(key),
    ensures
        variant_stream_of(attributes) matches Err(cause) && ({
            &&& fits(attributes, "BANDWIDTH"@, |text: Seq<char>| bit_rate_of(text))
            &&& fits(attributes, "AVERAGE-BANDWIDTH"@, |text: Seq<char>| bit_rate_of(text))
            &&& fits(attributes, "RESOLUTION"@, |text: Seq<char>| resolution_of(text))
            &&& fits(attributes, "VIDEO-RANGE"@, |text: Seq<char>| video_range_of(text))
        } ==> names_missing_key(cause, attributes, variant_stream_keys())),
{
    let keys = variant_stream_keys();
    assert(keys.contains("URI"@) && keys.contains("BANDWIDTH"@) && keys.contains(
        "AVERAGE-BANDWIDTH"@,
    ) && keys.contains("CODECS"@) && keys.contains("RESOLUTION"@) && keys.contains("VIDEO-RANGE"@)
        && keys.contains("FRAME-RATE"@) && keys.contains("AUDIO"@) && keys.contains(
        "CLOSED-CAPTIONS"@,
    ));
}

/// A record that lacks one of the eight attributes of a media tag makes
/// none. Unless its `TYPE` is there and names no media type, the cause names
/// an attribute that the record lacks.
pub proof fn lemma_media_tag_needs_every_key(attributes: Map<Seq<char>, Seq<char>>, key: Seq<char>)
    requires
        media_tag_keys().contains(key),
        !attributes.contains_key(key),
    ensures
        media_tag_of(attributes) matches Err(cause) && (fits(
            attributes,
            "TYPE"@,
            |text: Seq<char>| media_type_of(text),
        ) ==> names_missing_key(cause, attributes, media_tag_keys())),
{
    let keys = media_tag_keys();
    assert(keys.contains("TYPE"@) && keys.contains("GROUP-ID"@) && keys.contains("NAME"@)
        && keys.contains("LANGUAGE"@) && keys.contains("DEFAULT"@) && keys.contains("AUTOSELECT"@)
        && keys.contains("CHANNELS"@) && keys.contains("URI"@));
}

/// A record that lacks one of the five attributes of an I-frame playlist
/// makes none. Unless a value that is there is not of its kind, the cause
/// names an attribute that the record lacks.
pub proof fn lemma_i_frame_needs_every_key(attributes: Map<Seq<char>, Seq<char>>, key: Seq<char>)
    requires
        i_frame_keys().contains(key),
        !attributes.contains_key(key),
    ensures
        i_frame_of(attributes) matches Err(cause) && ({
            &&& fits(attributes, "BANDWIDTH"@, |text: Seq<char>| bit_rate_of(text))
            &&& fits(attributes, "RESOLUTION"@, |text: Seq<char>| resolution_of(text))
            &&& fits(attributes, "VIDEO-RANGE"@, |text: Seq<char>| video_range_of(text))
        } ==> names_missing_key(cause, attributes, i_frame_keys())),
{
    let keys = i_frame_keys();
    assert(keys.contains("BANDWIDTH"@) && keys.contains("CODECS"@) && keys.contains("RESOLUTION"@)
        && keys.contains("VIDEO-RANGE"@) && keys.contains("URI"@));
}

/// No record before the first rejected one is rejected.
pub proof fn lemma_first_rejected_bounds(
    records: Seq<(Seq<char>, Map<Seq<char>, Seq<char>>)>,
    from: int,
)
    requires
        0 <= from <= records.len(),
    ensures
        from <= first_rejected(records, from) <= records.len(),
        forall|k: int|
            from <= k < first_rejected(records, from) ==> record_cause(#[trigger] records[k])
                is None,
        first_rejected(records, from) < records.len() ==> record_cause(
            records[first_rejected(records, from)],
        ) is Some,
    decreases records.len() - from,
{
    if from < records.len() && record_cause(records[from]) is None {
        lemma_first_rejected_bounds(records, from + 1);
    }
}

/// One rejected record is enough for the whole conversion to fail: no
/// playlist is made of the other records.
pub proof fn lemma_rejected_record_fails(
    records: Seq<(Seq<char>, Map<Seq<char>, Seq<char>>)>,
    i: int,
)
    requires
        0 <= i < records.len(),
        record_cause(records[i]) is Some,
    ensures
        master_playlist_of(records) is Err,
{
    lemma_first_rejected_bounds(records, 0);
}

/// A tag without a typed form that carries an attribute makes the conversion
/// fail, whatever the other records are.
pub proof fn lemma_unknown_tag_with_attributes_fails(
    records: Seq<(Seq<char>, Map<Seq<char>, Seq<char>>)>,
    i: int,
)
    requires
        0 <= i < records.len(),
        tag_kind(records[i].0) == TagKind::Basic,
        records[i].1 != Map::<Seq<char>, Seq<char>>::empty(),
    ensures
        master_playlist_of(records) is Err,
{
    lemma_rejected_record_fails(records, i);
}

/// Every record is in the list of its kind, and in no other: the four lists
/// together are as long as the list of records.
pub proof fn lemma_every_record_is_listed(records: Seq<(Seq<char>, Map<Seq<char>, Seq<char>>)>)
    ensures
        variant_streams_among(records).len() + media_tags_among(records).len() + i_frames_among(
            records,
        ).len() + basic_tags_among(records).len() == records.len(),
        master_playlist_of(records) matches Ok(playlist) ==> playlist.variant_streams.len()
            + playlist.media_tags.len() + playlist.i_frames.len() + playlist.basic_tags.len()
            == records.len(),
    decreases records.len(),
{
    if records.len() > 0 {
        lemma_every_record_is_listed(records.drop_last());
    }
    lemma_canonical_is_idempotent::<VariantStream>(variant_streams_among(records));
    lemma_canonical_is_idempotent::<MediaTag>(media_tags_among(records));
    lemma_canonical_is_idempotent::<IFrame>(i_frames_among(records));
    lemma_canonical_is_idempotent::<String>(basic_tags_among(records));
    to_multiset_len(variant_streams_among(records));
    to_multiset_len(canonical::<VariantStream>(variant_streams_among(records)));
    to_multiset_len(media_tags_among(records));
    to_multiset_len(canonical::<MediaTag>(media_tags_among(records)));
    to_multiset_len(i_frames_among(records));
    to_multiset_len(canonical::<IFrame>(i_frames_among(records)));
    to_multiset_len(basic_tags_among(records));
    to_multiset_len(canonical::<String>(basic_tags_among(records)));
}

/// The name of a tag without a typed form is among the basic tags before
/// they are ordered.
proof fn lemma_basic_tag_is_among(records: Seq<(Seq<char>, Map<Seq<char>, Seq<char>>)>, i: int)
    requires
        0 <= i < records.len(),
        tag_kind(records[i].0) == TagKind::Basic,
    ensures
        basic_tags_among(records).contains(records[i].0),
    decreases records.len(),
{
    let init = records.drop_last();
    if i == records.len() - 1 {
        let listed = basic_tags_among(records);
        assert(listed[listed.len() - 1] == records[i].0);
    } else {
        assert(init[i] == records[i]);
        lemma_basic_tag_is_among(init, i);
        let before = basic_tags_among(init);
        let k = choose|k: int| 0 <= k < before.len() && before[k] == records[i].0;
        assert(basic_tags_among(records)[k] == records[i].0);
    }
}

/// Where the conversion succeeds, the name of every tag without a typed form
/// is among the basic tags of the playlist.
pub proof fn lemma_basic_tag_is_kept(
    records: Seq<(Seq<char>, Map<Seq<char>, Seq<char>>)>,
    i: int,
)
    requires
        0 <= i < records.len(),
        tag_kind(records[i].0) == TagKind::Basic,
        master_playlist_of(records) is Ok,
    ensures
        master_playlist_of(records) matches Ok(playlist) && playlist.basic_tags.contains(
            records[i].0,
        ),
{
    lemma_basic_tag_is_among(records, i);
    let listed = basic_tags_among(records);
    lemma_canonical_is_idempotent::<String>(listed);
    to_multiset_contains(listed, records[i].0);
    to_multiset_contains(canonical::<String>(listed), records[i].0);
}

/// A tag without a typed form that carries no attribute is accepted: alone,
/// it makes a playlist whose only entry is its name among the basic tags.
pub proof fn lemma_unknown_tag_without_attributes_is_basic(name: Seq<char>)
    requires
        tag_kind(name) == TagKind::Basic,
    ensures
        master_playlist_of(seq![(name, Map::<Seq<char>, Seq<char>>::empty())]) matches Ok(playlist)
            && playlist.basic_tags == seq![name] && playlist.variant_streams.len() == 0
            && playlist.media_tags.len() == 0 && playlist.i_frames.len() == 0,
{
    let records = seq![(name, Map::<Seq<char>, Seq<char>>::empty())];
    let none = records.drop_last();
    assert(none.len() == 0);
    assert(record_cause(records[0]) is None);
    assert(first_rejected(records, 1) == 1);
    assert(basic_tags_among(none).len() == 0);
    assert(variant_streams_among(none).len() == 0);
    assert(media_tags_among(none).len() == 0);
    assert(i_frames_among(none).len() == 0);
    assert(basic_tags_among(records) =~= seq![name]);
    lemma_canonical_keeps_ordered::<String>(seq![name]);
    lemma_canonical_keeps_ordered::<VariantStream>(variant_streams_among(records));
    lemma_canonical_keeps_ordered::<MediaTag>(media_tags_among(records));
    lemma_canonical_keeps_ordered::<IFrame>(i_frames_among(records));
}

/// In the playlist that records describe, each of the four lists is in
/// canonical order.
pub proof fn lemma_playlist_is_ordered(records: Seq<(Seq<char>, Map<Seq<char>, Seq<char>>)>)
    ensures
        master_playlist_of(records) matches Ok(playlist) ==> playlist.is_ordered(),
{
    lemma_canonical_is_idempotent::<VariantStream>(variant_streams_among(records));
    lemma_canonical_is_idempotent::<MediaTag>(media_tags_among(records));
    lemma_canonical_is_idempotent::<IFrame>(i_frames_among(records));
    lemma_canonical_is_idempotent::<String>(basic_tags_among(records));
}

} // verus!
