//! Planning the streaming proxy's work: resolve an identifier, validate the
//! resolved address, and build the decode process's argument list. Spawning
//! the process and pumping its output is I/O and lives with the server.

use vstd::prelude::*;

use crate::lineup::{get_url_for_stream_id, spec_resolve};
use crate::m3u::Playlist;

verus! {

/// What `url::Url::parse` accepts and how it serializes: a pure function of
/// the input text.
pub uninterp spec fn url_normalized(s: Seq<char>) -> Option<Seq<char>>;

/// Relies on `url::Url::parse`: acceptance and the normalized serialization
/// returned by `to_string` depend on the input text alone.
#[verifier::external_body]
fn parse_url(s: &str) -> (r: Option<String>)
    ensures
        (match r {
            Some(u) => url_normalized(s@) == Some(u@),
            None => url_normalized(s@) is None,
        }),
{
    match url::Url::parse(s) {
        Ok(u) => Some(u.to_string()),
        Err(_) => None,
    }
}

/// The decode process's argument list: read the media address, re-encode
/// nothing, and emit an MPEG transport stream on standard output; an
/// optional outbound proxy comes first.
pub open spec fn spec_ffmpeg_args(url: Seq<char>, proxy: Option<Seq<char>>) -> Seq<Seq<char>> {
    let fixed = seq![
        "-hide_banner"@,
        "-loglevel"@,
        "warning"@,
        "-analyzeduration"@,
        "50M"@,
        "-probesize"@,
        "50M"@,
        "-i"@,
        url,
        "-f"@,
        "mpegts"@,
        "-c"@,
        "copy"@,
        "-"@,
    ];
    match proxy {
        Some(p) => seq!["-http_proxy"@, p] + fixed,
        None => fixed,
    }
}

/// Element-wise agreement of an argument vector with its model.
pub open spec fn args_match(args: Seq<String>, a: Seq<Seq<char>>) -> bool {
    args.len() == a.len() && (forall|i: int| 0 <= i < a.len() ==> args[i]@ == a[i])
}

fn fixed_args(media_url: &str) -> (r: Vec<String>)
    ensures
        args_match(r@, spec_ffmpeg_args(media_url@, None)),
{
    let mut r: Vec<String> = Vec::new();
    r.push("-hide_banner".to_owned());
    r.push("-loglevel".to_owned());
    r.push("warning".to_owned());
    r.push("-analyzeduration".to_owned());
    r.push("50M".to_owned());
    r.push("-probesize".to_owned());
    r.push("50M".to_owned());
    r.push("-i".to_owned());
    r.push(media_url.to_owned());
    r.push("-f".to_owned());
    r.push("mpegts".to_owned());
    r.push("-c".to_owned());
    r.push("copy".to_owned());
    r.push("-".to_owned());
    r
}

pub fn ffmpeg_args(media_url: &str, proxy_url: Option<&str>) -> (r: Vec<String>)
    ensures
        args_match(
            r@,
            spec_ffmpeg_args(
                media_url@,
                (match proxy_url {
                    Some(p) => Some(p@),
                    None => None,
                }),
            ),
        ),
{
    match proxy_url {
        Some(p) => {
            let mut r: Vec<String> = Vec::new();
            r.push("-http_proxy".to_owned());
            r.push(p.to_owned());
            let mut rest = fixed_args(media_url);
            r.append(&mut rest);
            r
        },
        None => fixed_args(media_url),
    }
}

/// The decision for one stream request.
pub enum StreamPlan {
    /// The identifier resolves to nothing: refuse the request, spawn nothing.
    NotFound,
    /// The identifier resolved, but not to a well-formed URL: a server-side
    /// fault, spawn nothing.
    InvalidUrl,
    /// Spawn the decode process with exactly these arguments.
    Play(Vec<String>),
}

/// Decide one stream request against the immutable playlist. An identifier
/// that resolves to nothing is refused with no process spawned; a resolved
/// address the URL parser refuses is a server-side fault; otherwise the
/// process argument list for the normalized address is handed back.
pub fn plan_stream_request(playlist: &Playlist, stream_id: &str, proxy_url: Option<&str>) -> (p:
    StreamPlan)
    ensures
        ({
            let res = spec_resolve(playlist@, stream_id@);
            let pv = (match proxy_url {
                Some(x) => Some(x@),
                None => None,
            });
            &&& (res is None ==> p is NotFound)
            &&& (forall|u: Seq<char>|
                res == Some(u) && url_normalized(u) is None ==> p is InvalidUrl)
            &&& (forall|u: Seq<char>, nu: Seq<char>|
                res == Some(u) && url_normalized(u) == Some(nu) ==> (p matches StreamPlan::Play(
                    args,
                ) && args_match(args@, spec_ffmpeg_args(nu, pv))))
        }),
{
    match get_url_for_stream_id(playlist, stream_id) {
        None => StreamPlan::NotFound,
        Some(u) => match parse_url(u.as_str()) {
            None => StreamPlan::InvalidUrl,
            Some(nu) => StreamPlan::Play(ffmpeg_args(nu.as_str(), proxy_url)),
        },
    }
}

/// The plain-text body of a refused stream request.
pub fn stream_not_found_body() -> (r: &'static str)
    ensures
        r@ == "Stream not found"@,
{
    "Stream not found"
}

} // verus!
