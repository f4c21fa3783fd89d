use nettopbox::codec::encode_stream_id;
use nettopbox::config::Config;
use nettopbox::device::Device;
use nettopbox::ffmpeg::{ffmpeg_args, plan_stream_request, stream_not_found_body, StreamPlan};
use nettopbox::lineup::{
    convert_playlist_to_lineup, get_url_for_stream_id, join_url, LineupStatus,
};
use nettopbox::m3u::{Playlist, Stream};

fn playlist_of(text: &str) -> Playlist {
    Playlist::from_text(text)
}

#[test]
fn encoding_is_url_safe_unpadded_base64() {
    let s = Stream::new("http://x/2.m3u8");
    assert_eq!(encode_stream_id(&s), "aHR0cDovL3gvMi5tM3U4");
}

#[test]
fn explicit_id_is_the_identifier_verbatim() {
    let mut s = Stream::new("http://x/1.m3u8");
    s.id = Some("a".to_string());
    assert_eq!(encode_stream_id(&s), "a");
}

#[test]
fn round_trip_resolves_without_lookup() {
    let s = Stream::new("http://x/2.m3u8");
    let id = encode_stream_id(&s);
    let empty = playlist_of("");
    assert_eq!(
        get_url_for_stream_id(&empty, &id),
        Some("http://x/2.m3u8".to_string())
    );
    let unrelated = playlist_of("#EXTINF:-1 tvg-id=\"other\"\nhttp://elsewhere/\n");
    assert_eq!(
        get_url_for_stream_id(&unrelated, &id),
        Some("http://x/2.m3u8".to_string())
    );
}

#[test]
fn explicit_id_resolves_by_playlist_lookup() {
    let p = playlist_of("#EXTINF:-1 tvg-id=\"mjh-tvnz-1\" , TVNZ 1\nhttps://i.mjh.nz/tvnz-1.m3u8\n");
    assert_eq!(
        get_url_for_stream_id(&p, "mjh-tvnz-1"),
        Some("https://i.mjh.nz/tvnz-1.m3u8".to_string())
    );
}

#[test]
fn unresolvable_identifier_yields_nothing() {
    let p = playlist_of("#EXTINF:-1 tvg-id=\"a\"\nhttp://x/1.m3u8\n");
    assert_eq!(get_url_for_stream_id(&p, "no-such-stream!"), None);
}

#[test]
fn lineup_of_two_entries() {
    let data = "#EXTINF:-1 tvg-chno=\"1\" tvg-id=\"a\" , One\nhttp://x/1.m3u8\n#EXTINF:-1 tvg-chno=\"2\" , Two\nhttp://x/2.m3u8\n";
    let p = playlist_of(data);
    assert_eq!(p.streams.len(), 2);
    let lineup = convert_playlist_to_lineup(&p, "http://host:8080/stream/");
    assert_eq!(lineup.len(), 2);
    assert_eq!(lineup[0].guide_number, "1");
    assert_eq!(lineup[0].url, "http://host:8080/stream/a");
    assert_eq!(lineup[1].guide_number, "2");
    assert_eq!(lineup[1].url, "http://host:8080/stream/aHR0cDovL3gvMi5tM3U4");
}

#[test]
fn lineup_is_total_and_order_preserving() {
    let data = "#EXTINF:-1 , A\nhttp://x/a\n#EXTINF:-1 , B\nhttp://x/b\n#EXTINF:-1 , C\nhttp://x/c\n";
    let p = playlist_of(data);
    let lineup = convert_playlist_to_lineup(&p, "http://h/stream/");
    assert_eq!(lineup.len(), p.streams.len());
    let names: Vec<&str> = lineup.iter().map(|c| c.guide_name.as_str()).collect();
    assert_eq!(names, vec!["A", "B", "C"]);
}

#[test]
fn guide_number_falls_back_to_epg_id_then_empty() {
    let data = "#EXTINF:-1 tvg-id=\"e1\"\nhttp://x/a\n#EXTINF:-1\nhttp://x/b\n";
    let p = playlist_of(data);
    let lineup = convert_playlist_to_lineup(&p, "http://h/");
    assert_eq!(lineup[0].guide_number, "e1");
    assert_eq!(lineup[1].guide_number, "");
    assert_eq!(lineup[1].guide_name, "");
}

#[test]
fn empty_playlist_yields_empty_lineup() {
    let p = playlist_of("");
    let lineup = convert_playlist_to_lineup(&p, "http://h/stream/");
    assert_eq!(lineup.len(), 0);
}

#[test]
fn join_inserts_slash_only_when_needed() {
    assert_eq!(join_url("http://h/stream/", "a"), "http://h/stream/a");
    assert_eq!(join_url("http://h", "lineup.json"), "http://h/lineup.json");
}

#[test]
fn unresolvable_stream_request_is_refused_without_a_plan() {
    let p = playlist_of("#EXTINF:-1 tvg-id=\"a\"\nhttp://x/1.m3u8\n");
    let plan = plan_stream_request(&p, "no-such-stream!", None);
    assert!(matches!(plan, StreamPlan::NotFound));
    assert_eq!(stream_not_found_body(), "Stream not found");
}

#[test]
fn malformed_resolved_address_is_a_server_fault() {
    let p = playlist_of("#EXTINF:-1 tvg-id=\"zzz\"\nnot a url\n");
    let plan = plan_stream_request(&p, "zzz", None);
    assert!(matches!(plan, StreamPlan::InvalidUrl));
}

#[test]
fn resolvable_stream_request_plans_the_decode_process() {
    let p = playlist_of("#EXTINF:-1 tvg-id=\"a\"\nhttp://x/1.m3u8\n");
    let plan = plan_stream_request(&p, "a", None);
    match plan {
        StreamPlan::Play(args) => {
            assert_eq!(
                args,
                vec![
                    "-hide_banner",
                    "-loglevel",
                    "warning",
                    "-analyzeduration",
                    "50M",
                    "-probesize",
                    "50M",
                    "-i",
                    "http://x/1.m3u8",
                    "-f",
                    "mpegts",
                    "-c",
                    "copy",
                    "-",
                ]
            );
        }
        _ => panic!("expected a spawn plan"),
    }
}

#[test]
fn proxy_address_is_passed_through_first() {
    let args = ffmpeg_args("http://x/1.m3u8", Some("http://proxy:3128"));
    assert_eq!(args[0], "-http_proxy");
    assert_eq!(args[1], "http://proxy:3128");
    assert_eq!(args[2], "-hide_banner");
    assert_eq!(args.len(), 16);
}

#[test]
fn device_identity_is_deterministic() {
    let config = Config::default();
    let d1 = Device::from(&config);
    let d2 = Device::from(&config);
    assert_eq!(d1.device_id, d2.device_id);
    assert_eq!(d1.device_id.len(), 36);
    assert_ne!(d1.device_id, config.base_url);

    let mut other = Config::default();
    other.base_url = "http://elsewhere:9090".to_string();
    let d3 = Device::from(&other);
    assert_ne!(d1.device_id, d3.device_id);
}

#[test]
fn device_derives_addresses_from_config() {
    let config = Config::default();
    let d = Device::from(&config);
    assert_eq!(d.base_url, "http://localhost:8080");
    assert_eq!(d.lineup_url, "http://localhost:8080/lineup.json");
    assert_eq!(d.tuner_count, 10);
    assert_eq!(d.friendly_name, "HDHomeRun");
    assert_eq!(d.manufacturer, "Silicondust");
}

#[test]
fn lineup_status_is_constant() {
    let s = LineupStatus::default();
    assert_eq!(s.scan_in_progress, 0);
    assert_eq!(s.scan_possible, 1);
    assert_eq!(s.source, "Cable");
    assert_eq!(s.source_list, vec!["Cable".to_string()]);
}

#[test]
fn config_defaults() {
    let c = Config::default();
    assert_eq!(c.iptv_url, None);
    assert_eq!(c.base_url, "http://localhost:8080");
    assert_eq!(c.port, 8080);
    assert_eq!(c.tuner_count, 10);
    assert_eq!(c.http_timeout, 10);
    assert_eq!(c.http_proxy, None);
}
