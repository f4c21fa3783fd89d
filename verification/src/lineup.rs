//! The appliance-facing lineup: channel records projected into the tuner
//! protocol's schema, and resolution of lineup identifiers back to media
//! addresses.

use vstd::prelude::*;
use vstd::string::{StrSliceExecFns, StringExecFns};

use crate::codec::{decode_stream_id, encode_stream_id, spec_decode, spec_encode};
use crate::m3u::{Playlist, StreamView};

verus! {

/// The static scan status: scanning is never performed, so the record never
/// changes.
#[derive(Debug, PartialEq, Eq)]
pub struct LineupStatus {
    pub scan_in_progress: u8,
    pub scan_possible: u8,
    pub source: String,
    pub source_list: Vec<String>,
}

impl Default for LineupStatus {
    fn default() -> (r: Self)
        ensures
            r.scan_in_progress == 0,
            r.scan_possible == 1,
            r.source@ == "Cable"@,
            r.source_list@.len() == 1,
            r.source_list@[0]@ == "Cable"@,
    {
        let mut source_list: Vec<String> = Vec::new();
        source_list.push("Cable".to_owned());
        LineupStatus { scan_in_progress: 0, scan_possible: 1, source: "Cable".to_owned(), source_list }
    }
}

/// One channel of the advertised lineup.
#[derive(Clone, Debug, PartialEq, Eq)]
pub struct LineupChannel {
    pub guide_number: String,
    pub guide_name: String,
    pub url: String,
}

/// The mathematical model of a `LineupChannel`.
#[verifier::ext_equal]
pub struct LineupChannelView {
    pub guide_number: Seq<char>,
    pub guide_name: Seq<char>,
    pub url: Seq<char>,
}

impl View for LineupChannel {
    type V = LineupChannelView;

    open spec fn view(&self) -> LineupChannelView {
        LineupChannelView {
            guide_number: self.guide_number@,
            guide_name: self.guide_name@,
            url: self.url@,
        }
    }
}

/// A path segment appended to a base address, a slash inserted when the base
/// does not already end with one.
pub open spec fn spec_join(base: Seq<char>, seg: Seq<char>) -> Seq<char> {
    if base.len() > 0 && base[base.len() - 1] == '/' {
        base + seg
    } else {
        base + seq!['/'] + seg
    }
}

pub fn join_url(base: &str, seg: &str) -> (r: String)
    ensures
        r@ == spec_join(base@, seg@),
{
    let n = base.unicode_len();
    let mut r = base.to_owned();
    if n == 0 || base.get_char(n - 1) != '/' {
        r.append("/");
        proof {
            reveal_strlit("/");
            assert("/"@ =~= seq!['/']);
        }
    }
    r.append(seg);
    proof {
        assert(r@ =~= spec_join(base@, seg@));
    }
    r
}

/// The lineup projection of one stream: the channel number (or failing that
/// the EPG id) as guide number, the name as guide name, and the base address
/// joined with the stream's identifier as the device-facing URL.
pub open spec fn spec_channel(s: StreamView, base: Seq<char>) -> LineupChannelView {
    LineupChannelView {
        guide_number: (match s.channel_number {
            Some(c) => c,
            None => match s.epg_id {
                Some(e) => e,
                None => Seq::empty(),
            },
        }),
        guide_name: (match s.name {
            Some(n) => n,
            None => Seq::empty(),
        }),
        url: spec_join(base, spec_encode(s)),
    }
}

/// Project a playlist into the lineup schema: total and order-preserving,
/// one channel per stream, duplicates and empty guide numbers kept as they
/// are.
pub fn convert_playlist_to_lineup(playlist: &Playlist, base_url: &str) -> (r: Vec<LineupChannel>)
    ensures
        r@.len() == playlist@.len(),
        forall|i: int| 0 <= i < r@.len() ==> r@[i]@ == spec_channel(playlist@[i], base_url@),
{
    let mut r: Vec<LineupChannel> = Vec::new();
    let mut i: usize = 0;
    while i < playlist.streams.len()
        invariant
            i <= playlist.streams@.len(),
            playlist@.len() == playlist.streams@.len(),
            r@.len() == i as int,
            forall|k: int| 0 <= k < i ==> r@[k]@ == spec_channel(playlist@[k], base_url@),
        decreases playlist.streams@.len() - i,
    {
        let stream = &playlist.streams[i];
        let path = encode_stream_id(stream);
        let guide_number = (match &stream.channel_number {
            Some(c) => c.clone(),
            None => match &stream.epg_id {
                Some(e) => e.clone(),
                None => String::new(),
            },
        });
        let guide_name = (match &stream.name {
            Some(n) => n.clone(),
            None => String::new(),
        });
        let url = join_url(base_url, path.as_str());
        let channel = LineupChannel { guide_number, guide_name, url };
        proof {
            assert(channel@ =~= spec_channel(playlist@[i as int], base_url@));
        }
        r.push(channel);
        i = i + 1;
    }
    r
}

/// The first stream whose explicit id equals the identifier, if any, gives
/// the resolved address.
pub open spec fn spec_lookup(streams: Seq<StreamView>, id: Seq<char>) -> Option<Seq<char>>
    decreases streams.len(),
{
    if streams.len() == 0 {
        None
    } else if streams[0].id == Some(id) {
        Some(streams[0].url)
    } else {
        spec_lookup(streams.skip(1), id)
    }
}

/// Resolution: a self-describing identifier decodes directly, with no
/// playlist lookup; anything else is looked up among the explicit ids; a miss
/// on both is a failure.
pub open spec fn spec_resolve(streams: Seq<StreamView>, id: Seq<char>) -> Option<Seq<char>> {
    match spec_decode(id) {
        Some(u) => Some(u),
        None => spec_lookup(streams, id),
    }
}

pub fn get_url_for_stream_id(playlist: &Playlist, stream_id: &str) -> (r: Option<String>)
    ensures
        (match r {
            Some(u) => spec_resolve(playlist@, stream_id@) == Some(u@),
            None => spec_resolve(playlist@, stream_id@) is None,
        }),
{
    match decode_stream_id(stream_id) {
        Some(u) => Some(u),
        None => {
            let target: String = stream_id.to_owned();
            let n = playlist.streams.len();
            let mut i: usize = 0;
            proof {
                assert(playlist@.skip(0) =~= playlist@);
            }
            while i < n
                invariant
                    i <= n == playlist.streams@.len(),
                    playlist@.len() == playlist.streams@.len(),
                    target@ == stream_id@,
                    spec_decode(stream_id@) is None,
                    spec_lookup(playlist@, stream_id@) == spec_lookup(
                        playlist@.skip(i as int),
                        stream_id@,
                    ),
                decreases n - i,
            {
                let stream = &playlist.streams[i];
                proof {
                    assert(playlist@.skip(i as int)[0] == playlist@[i as int]);
                    assert(playlist@.skip(i as int).skip(1) =~= playlist@.skip(i as int + 1));
                }
                let hit = (match &stream.id {
                    Some(sid) => *sid == target,
                    None => false,
                });
                if hit {
                    proof {
                        assert(playlist@[i as int] == playlist.streams@[i as int]@);
                        assert(spec_lookup(playlist@.skip(i as int), stream_id@) == Some(
                            playlist@[i as int].url,
                        ));
                    }
                    return Some(stream.url.clone());
                }
                i = i + 1;
            }
            None
        },
    }
}

// ---------------------------------------------------------------------------
// Laws
// ---------------------------------------------------------------------------

/// Round trip: for a stream without an explicit id, resolving its minted
/// identifier yields its media address, whatever the playlist holds.
pub proof fn lemma_codec_round_trip(streams: Seq<StreamView>, s: StreamView)
    requires
        s.id is None,
    ensures
        spec_resolve(streams, spec_encode(s)) == Some(s.url),
{
    crate::codec::lemma_encode_decode(s);
}

/// Lookup: an explicit id that does not itself decode as base64 text, borne
/// by a stream in the playlist and by no earlier stream, resolves to that
/// stream's media address.
pub proof fn lemma_codec_lookup(streams: Seq<StreamView>, i: int, x: Seq<char>)
    requires
        0 <= i < streams.len(),
        streams[i].id == Some(x),
        forall|j: int| 0 <= j < i ==> streams[j].id != Some(x),
        spec_decode(x) is None,
    ensures
        spec_resolve(streams, x) == Some(streams[i].url),
    decreases i,
{
    if i == 0 {
        assert(spec_lookup(streams, x) == Some(streams[0].url));
    } else {
        assert(streams[0].id != Some(x));
        assert(streams.skip(1)[i - 1] == streams[i]);
        assert forall|j: int| 0 <= j < i - 1 implies streams.skip(1)[j].id != Some(x) by {
            assert(streams.skip(1)[j] == streams[j + 1]);
        }
        lemma_codec_lookup(streams.skip(1), i - 1, x);
    }
}

} // verus!
