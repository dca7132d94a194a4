//! The media information overlay: a description of the video and audio
//! streams of the playing file.

use vstd::prelude::*;
use vstd::string::*;
use crate::text::{push_char, push_signed_decimal, signed_decimal};

verus! {

/// What a stream carries. A stream that carries video counts as video even
/// when it also carries audio.
#[derive(Clone, Copy, Debug, PartialEq, Eq, Structural)]
pub enum StreamKind {
    Video,
    Audio,
    Other,
}

/// The kind of a stream from whether its type includes video and audio:
/// video takes precedence over audio.
pub fn stream_kind(has_video: bool, has_audio: bool) -> (kind: StreamKind)
    ensures
        kind == (if has_video {
            StreamKind::Video
        } else if has_audio {
            StreamKind::Audio
        } else {
            StreamKind::Other
        }),
{
    if has_video {
        StreamKind::Video
    } else if has_audio {
        StreamKind::Audio
    } else {
        StreamKind::Other
    }
}

/// A frame rate as a fraction `numer/denom` (in lowest terms, as GStreamer
/// reports it, with a positive denominator).
#[derive(Clone, Copy, Debug, PartialEq, Eq, Structural)]
pub struct Fraction {
    pub numer: i32,
    pub denom: i32,
}

/// The fields of a stream's first caps structure that the overlay shows:
/// the structure's name (the codec) and the fields that are present with
/// the expected type.
pub struct StreamCaps {
    pub codec: String,
    pub width: Option<i32>,
    pub height: Option<i32>,
    pub frame_rate: Option<Fraction>,
    pub channels: Option<i32>,
}

/// One stream of a stream collection; `caps` is `None` when the stream has
/// no caps or its caps have no structure.
pub struct StreamInfo {
    pub kind: StreamKind,
    pub caps: Option<StreamCaps>,
}

/// The mathematical value of [`StreamCaps`].
pub struct StreamCapsView {
    pub codec: Seq<char>,
    pub width: Option<i32>,
    pub height: Option<i32>,
    pub frame_rate: Option<Fraction>,
    pub channels: Option<i32>,
}

/// The mathematical value of [`StreamInfo`].
pub struct StreamInfoView {
    pub kind: StreamKind,
    pub caps: Option<StreamCapsView>,
}

impl View for StreamCaps {
    type V = StreamCapsView;

    open spec fn view(&self) -> StreamCapsView {
        StreamCapsView {
            codec: self.codec@,
            width: self.width,
            height: self.height,
            frame_rate: self.frame_rate,
            channels: self.channels,
        }
    }
}

impl View for StreamInfo {
    type V = StreamInfoView;

    open spec fn view(&self) -> StreamInfoView {
        StreamInfoView {
            kind: self.kind,
            caps: match self.caps {
                Some(c) => Some(c@),
                None => None,
            },
        }
    }
}

/// The views of a sequence of streams.
pub open spec fn stream_views(streams: Seq<StreamInfo>) -> Seq<StreamInfoView> {
    streams.map_values(|s: StreamInfo| s@)
}

/// A fraction as text: the numerator alone when the denominator is one,
/// otherwise `numer/denom`.
pub open spec fn fraction_text(f: Fraction) -> Seq<char> {
    if f.denom == 1 {
        signed_decimal(f.numer as int)
    } else {
        signed_decimal(f.numer as int) + seq!['/'] + signed_decimal(f.denom as int)
    }
}

/// The resolution line of a video stream, present when both width and
/// height are known.
pub open spec fn resolution_part(c: StreamCapsView) -> Seq<char> {
    match (c.width, c.height) {
        (Some(w), Some(h)) => "\nResolution: "@ + signed_decimal(w as int) + seq!['x']
            + signed_decimal(h as int),
        _ => Seq::empty(),
    }
}

/// The frame-rate line of a video stream, present when the frame rate is
/// known.
pub open spec fn frame_rate_part(c: StreamCapsView) -> Seq<char> {
    match c.frame_rate {
        Some(f) => "\nFrame rate: "@ + fraction_text(f) + " fps"@,
        None => Seq::empty(),
    }
}

/// The description of one stream: video streams give their codec,
/// resolution and frame rate, audio streams their codec and channel count;
/// other streams, and streams without caps, give none.
pub open spec fn stream_text(s: StreamInfoView) -> Option<Seq<char>> {
    match s.caps {
        None => None,
        Some(c) => match s.kind {
            StreamKind::Video => Some("Video: "@ + c.codec + resolution_part(c) + frame_rate_part(c)),
            StreamKind::Audio => Some(
                match c.channels {
                    Some(n) => "Audio: "@ + c.codec + " ("@ + signed_decimal(n as int)
                        + " channels)"@,
                    None => "Audio: "@ + c.codec,
                },
            ),
            StreamKind::Other => None,
        },
    }
}

/// The descriptions of the streams that have one, in stream order.
pub open spec fn stream_texts(streams: Seq<StreamInfoView>) -> Seq<Seq<char>>
    decreases streams.len(),
{
    if streams.len() == 0 {
        Seq::empty()
    } else {
        let earlier = stream_texts(streams.drop_last());
        match stream_text(streams.last()) {
            Some(t) => earlier.push(t),
            None => earlier,
        }
    }
}

/// The texts joined with `sep` between neighbours.
pub open spec fn join(texts: Seq<Seq<char>>, sep: Seq<char>) -> Seq<char>
    decreases texts.len(),
{
    if texts.len() == 0 {
        Seq::empty()
    } else if texts.len() == 1 {
        texts[0]
    } else {
        join(texts.drop_last(), sep) + sep + texts.last()
    }
}

/// The stream descriptions of a collection, separated by blank lines.
pub open spec fn spec_stream_details(streams: Seq<StreamInfoView>) -> Seq<char> {
    join(stream_texts(streams), "\n\n"@)
}

/// Appends the text of a fraction.
fn push_fraction(s: &mut String, f: Fraction)
    ensures
        final(s)@ == old(s)@ + fraction_text(f),
{
    let ghost start = s@;
    push_signed_decimal(s, f.numer);
    if f.denom != 1 {
        push_char(s, '/');
        push_signed_decimal(s, f.denom);
        assert(s@ =~= start + fraction_text(f));
    }
}

/// Appends the description of one stream that has one.
fn push_stream_text(s: &mut String, stream: &StreamInfo)
    requires
        stream_text(stream@) is Some,
    ensures
        final(s)@ == old(s)@ + stream_text(stream@)->0,
{
    let caps = match &stream.caps {
        Some(c) => c,
        None => {
            return;
        },
    };
    let ghost start = s@;
    match stream.kind {
        StreamKind::Video => {
            s.append("Video: ");
            s.append(caps.codec.as_str());
            match (caps.width, caps.height) {
                (Some(w), Some(h)) => {
                    s.append("\nResolution: ");
                    push_signed_decimal(s, w);
                    push_char(s, 'x');
                    push_signed_decimal(s, h);
                },
                _ => {},
            }
            match caps.frame_rate {
                Some(f) => {
                    s.append("\nFrame rate: ");
                    push_fraction(s, f);
                    s.append(" fps");
                },
                None => {},
            }
            assert(s@ =~= start + stream_text(stream@)->0);
        },
        StreamKind::Audio => {
            s.append("Audio: ");
            s.append(caps.codec.as_str());
            match caps.channels {
                Some(n) => {
                    s.append(" (");
                    push_signed_decimal(s, n);
                    s.append(" channels)");
                },
                None => {},
            }
            assert(s@ =~= start + stream_text(stream@)->0);
        },
        StreamKind::Other => {},
    }
}

/// The media information of a stream collection: one paragraph per video
/// or audio stream that has caps, separated by blank lines; empty when no
/// stream has a description.
pub fn stream_details(streams: &Vec<StreamInfo>) -> (details: String)
    ensures
        details@ == spec_stream_details(stream_views(streams@)),
{
    let ghost all = stream_views(streams@);
    let mut details = String::new();
    let mut count: usize = 0;
    let mut i: usize = 0;
    while i < streams.len()
        invariant
            i <= streams@.len(),
            count <= i,
            all == stream_views(streams@),
            count == stream_texts(all.take(i as int)).len(),
            details@ == join(stream_texts(all.take(i as int)), "\n\n"@),
        decreases streams@.len() - i,
    {
        let stream = &streams[i];
        let ghost before = stream_texts(all.take(i as int));
        proof {
            assert(all.take(i + 1).drop_last() =~= all.take(i as int));
            assert(all.take(i + 1).last() == stream@);
        }
        let described = match &stream.caps {
            Some(_) => match stream.kind {
                StreamKind::Video => true,
                StreamKind::Audio => true,
                StreamKind::Other => false,
            },
            None => false,
        };
        if described {
            if count > 0 {
                details.append("\n\n");
            }
            push_stream_text(&mut details, stream);
            proof {
                let t = stream_text(stream@)->0;
                assert(stream_texts(all.take(i + 1)) == before.push(t));
                assert(before.push(t).drop_last() =~= before);
                if count == 0 {
                    assert(details@ =~= join(before.push(t), "\n\n"@));
                }
            }
            count = count + 1;
        }
        i = i + 1;
    }
    proof {
        assert(all.take(streams@.len() as int) =~= all);
    }
    details
}

/// The text of the media information overlay for a stream collection.
pub open spec fn spec_info_text(details: Seq<char>) -> Seq<char> {
    if details.len() == 0 {
        "Media information is unavailable."@
    } else {
        details
    }
}

/// The overlay text: the stream details, or a notice when there are none.
pub fn info_text(details: String) -> (text: String)
    ensures
        text@ == spec_info_text(details@),
{
    if details.as_str().is_empty() {
        String::from_str("Media information is unavailable.")
    } else {
        details
    }
}

/// Without described streams there are no stream texts.
proof fn lemma_no_texts(streams: Seq<StreamInfoView>)
    requires
        forall|i: int| 0 <= i < streams.len() ==> #[trigger] stream_text(streams[i]) is None,
    ensures
        stream_texts(streams).len() == 0,
    decreases streams.len(),
{
    if streams.len() > 0 {
        let rest = streams.drop_last();
        assert forall|i: int| 0 <= i < rest.len() implies #[trigger] stream_text(rest[i]) is None by {
            assert(rest[i] == streams[i]);
        }
        lemma_no_texts(rest);
        assert(stream_text(streams[streams.len() - 1]) is None);
    }
}

/// A file without any described stream shows the notice that its media
/// information is unavailable.
pub proof fn law_no_description_shows_notice(streams: Seq<StreamInfoView>)
    requires
        forall|i: int| 0 <= i < streams.len() ==> #[trigger] stream_text(streams[i]) is None,
    ensures
        spec_info_text(spec_stream_details(streams)) == "Media information is unavailable."@,
{
    lemma_no_texts(streams);
}

/// A video stream with caps is described by its codec, then, when both are
/// known, its resolution as width `x` height (width first), then, when
/// known, its frame rate.
pub proof fn law_video_description(s: StreamInfoView)
    requires
        s.kind == StreamKind::Video,
        s.caps is Some,
    ensures
        stream_text(s) == Some(
            "Video: "@ + s.caps->0.codec + match (s.caps->0.width, s.caps->0.height) {
                (Some(w), Some(h)) => "\nResolution: "@ + signed_decimal(w as int) + seq!['x']
                    + signed_decimal(h as int),
                _ => Seq::<char>::empty(),
            } + match s.caps->0.frame_rate {
                Some(f) => "\nFrame rate: "@ + (if f.denom == 1 {
                    signed_decimal(f.numer as int)
                } else {
                    signed_decimal(f.numer as int) + seq!['/'] + signed_decimal(f.denom as int)
                }) + " fps"@,
                None => Seq::<char>::empty(),
            },
        ),
{
}

/// An audio stream with caps is described by its codec and, whenever its
/// channel count is known, that count, for every count.
pub proof fn law_audio_description(s: StreamInfoView)
    requires
        s.kind == StreamKind::Audio,
        s.caps is Some,
    ensures
        stream_text(s) == Some(
            match s.caps->0.channels {
                Some(n) => "Audio: "@ + s.caps->0.codec + " ("@ + signed_decimal(n as int)
                    + " channels)"@,
                None => "Audio: "@ + s.caps->0.codec,
            },
        ),
{
}

/// Streams that are neither video nor audio, and streams without caps, are
/// not described.
pub proof fn law_undescribed_streams(s: StreamInfoView)
    requires
        s.kind == StreamKind::Other || s.caps is None,
    ensures
        stream_text(s) is None,
{
}

/// Whether some stream of the collection has a description.
pub open spec fn any_described(streams: Seq<StreamInfoView>) -> bool {
    exists|i: int| 0 <= i < streams.len() && #[trigger] stream_text(streams[i]) is Some
}

/// There are stream texts exactly when some stream is described.
proof fn lemma_texts_iff_described(streams: Seq<StreamInfoView>)
    ensures
        stream_texts(streams).len() > 0 <==> any_described(streams),
    decreases streams.len(),
{
    if streams.len() > 0 {
        let rest = streams.drop_last();
        lemma_texts_iff_described(rest);
        if any_described(rest) {
            let i = choose|i: int| 0 <= i < rest.len() && #[trigger] stream_text(rest[i]) is Some;
            assert(stream_text(streams[i]) is Some);
        }
        if any_described(streams) {
            let i = choose|i: int| 0 <= i < streams.len() && #[trigger] stream_text(streams[i]) is Some;
            if i < rest.len() {
                assert(stream_text(rest[i]) is Some);
            }
        }
    }
}

/// Adding a stream to a collection appends its description, after a blank
/// line when an earlier stream was described, and leaves the text as it was
/// when the stream has no description.
pub proof fn law_details_append(streams: Seq<StreamInfoView>, s: StreamInfoView)
    ensures
        spec_stream_details(streams.push(s)) == match stream_text(s) {
            Some(t) => if any_described(streams) {
                spec_stream_details(streams) + "\n\n"@ + t
            } else {
                t
            },
            None => spec_stream_details(streams),
        },
{
    lemma_texts_iff_described(streams);
    assert(streams.push(s).drop_last() =~= streams);
    let before = stream_texts(streams);
    if let Some(t) = stream_text(s) {
        assert(before.push(t).drop_last() =~= before);
        if before.len() == 1 {
            assert(before.push(t)[0] == before[0]);
        }
    }
}

} // verus!
